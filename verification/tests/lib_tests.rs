use pystaleds::parse_file_contents;
use pystaleds::rules_checking::{is_function_info_valid, DocstringStyle};
use pystaleds::{FunctionInfo, FunctionLocation};

fn get_parser() -> tree_sitter::Parser {
    let mut parser = tree_sitter::Parser::new();

    parser
        .set_language(&tree_sitter_python::LANGUAGE.into())
        .expect("should be able to load Python grammar");

    parser
}

#[test]
fn lib_test_check_function_info() {
    let function_info = FunctionInfo {
        params: &[("x", Some("int")), ("y", Some("str"))],
        docstring: Some(
            r#"
                """
                Hello!

                Args:
                    x (int): Hehehe.
                    y: Nope.
                """"#,
        ),
        function_name: FunctionLocation::Name(""),
    };

    assert!(is_function_info_valid(
        &function_info,
        false,
        false,
        false,
        true,
        false,
        DocstringStyle::Google
    ));
}

#[test]
fn lib_test_file() {
    let mut parser = get_parser();

    let source_code = r#"def add(x: int,y):
    """This is a docstring."""
    return x+y

def sub(x, y):
    """This is a multi-line docstring.

    And this is the rest.
    Args:
        x (int): Hehehe.
        y (int): Nope.
    """
    return x-y

def other_func(x,y,z):
    """This is just a throw-away string!"""
    return x+y+2*z
"#;

    let x = parse_file_contents(&mut parser, source_code, None, false, true, true);

    assert!(x);
}

#[test]
fn lib_test_nesting() {
    let mut parser = get_parser();

    let source_code = r#"def add(x: int,y):
    """This is a docstring."""
    def sub(x: int, y: int):
        """This is a nested docstring.

        Args:
            x (int): Haha.
            y (str): Should error!
        """
        return x-y
    return x+y
"#;

    let x = parse_file_contents(&mut parser, source_code, None, true, true, false);

    assert!(!x);

    let source_code = r#"def add(x: int,y):
    """This is a docstring."""
    def sub(x: int, y: int):
        """This is a nested docstring.

        Args:
            x (int): Haha.
            y (int): Should error!
        """
        return x-y
    return x+y
"#;

    let x = parse_file_contents(&mut parser, source_code, None, true, true, false);

    assert!(x);
}
