use pystaleds::ast_parsing::FunctionLocation;
use pystaleds::lexing::{extract_possibly_parenthesized_content, get_next_function_info, Token};

#[test]
fn it_works() {
    let def = r#"def f(x, y, z):
    """Hello!""""#;

    let mut lex = Token::lexer(def);

    assert_eq!(lex.next(), Some(Ok(Token::DefStart)));
    assert_eq!(lex.slice(), "def");
    assert_eq!(lex.next(), Some(Ok(Token::Text)));
    assert_eq!(lex.slice(), "f");
    assert_eq!(lex.next(), Some(Ok(Token::ParOpen)));
    assert_eq!(lex.slice(), "(");
    assert_eq!(lex.next(), Some(Ok(Token::Text)));
    assert_eq!(lex.slice(), "x");
    assert_eq!(lex.next(), Some(Ok(Token::Comma)));
    assert_eq!(lex.slice(), ",");
    assert_eq!(lex.next(), Some(Ok(Token::Text)));
    assert_eq!(lex.slice(), "y");
    assert_eq!(lex.next(), Some(Ok(Token::Comma)));
    assert_eq!(lex.slice(), ",");
    assert_eq!(lex.next(), Some(Ok(Token::Text)));
    assert_eq!(lex.slice(), "z");
    assert_eq!(lex.next(), Some(Ok(Token::ParClose)));
    assert_eq!(lex.slice(), ")");
    assert_eq!(lex.next(), Some(Ok(Token::Colon)));
    assert_eq!(lex.slice(), ":");
}

#[test]
fn test_get_function_info() {
    let def = r#"def f(x, y: int=2, z=323):
    """Hello!""""#;

    let mut lex = Token::lexer(def);

    let mut params = Vec::new();

    let function_info = get_next_function_info(&mut lex, &mut params, true).unwrap();

    assert_eq!(
        function_info.params,
        vec![("x", None), ("y", Some("int")), ("z", None)]
    );

    assert_eq!(function_info.function_name, FunctionLocation::Name("f"));

    assert_eq!(function_info.docstring.unwrap(), r#""""Hello!""""#);
}

#[test]
fn test_get_function_info2() {
    let def = r#"def f(a, b: str = "wololo", c=323):
    """Hello!""""#;

    let mut lex = Token::lexer(def);

    let mut params = Vec::new();

    get_next_function_info(&mut lex, &mut params, true);

    assert_eq!(params, vec![("a", None), ("b", Some("str")), ("c", None)]);
}

#[test]
fn test_get_function_info3() {
    let def = r#"x=2

def f(a,b,c):
    """Hello!"""

print(2)
yay = {"a": 2}

def g(x,y):
    """Hello!"""

    "#;

    let mut lex = Token::lexer(def);

    let mut params = Vec::new();

    get_next_function_info(&mut lex, &mut params, true);

    assert_eq!(params, vec![("a", None), ("b", None), ("c", None)]);

    get_next_function_info(&mut lex, &mut params, true);

    assert_eq!(params, vec![("x", None), ("y", None)]);
}

#[test]
fn test_extracting_parenthesized_content() {
    let mut lex = Token::lexer("[c{df}] , aklsdfjla");
    let (result, _) = extract_possibly_parenthesized_content(&mut lex).unwrap();

    assert_eq!(result, "[c{df}]")
}

#[test]
fn test_args() {
    let mut lex = Token::lexer(
        r#"
    def f(x, y, z, *args, a="oi"):
        """Hello.





        Nice spaces.


        Arguments:
            x:
            y:
            z:
            """
    "#,
    );
    let mut params = Vec::new();
    get_next_function_info(&mut lex, &mut params, true).unwrap();

    assert_eq!(
        params,
        vec![("x", None), ("y", None), ("z", None), ("a", None)]
    );

    let mut lex = Token::lexer(
        r#"
    def f(x, y, z, *args, a="oi"):
        """Hello.





        Nice spaces.


        Arguments:
            x:
            y:
            z:
            """
    "#,
    );

    let mut params = Vec::new();
    get_next_function_info(&mut lex, &mut params, false).unwrap();

    assert_eq!(
        params,
        vec![
            ("x", None),
            ("y", None),
            ("z", None),
            ("*args", None),
            ("a", None)
        ]
    );
}
