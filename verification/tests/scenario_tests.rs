use pystaleds::ast_parsing::{FunctionInfo, FunctionLocation};
use pystaleds::lexing::{get_next_function_info, Token};
use pystaleds::parsing::{extract_docstring, parse_google_docstring, parse_numpy_docstring};
use pystaleds::rules_checking::{
    is_function_info_valid, parse_documented_params, DocstringStyle,
};

#[test]
fn typed_and_untyped_mix_is_compliant() {
    // signature (x: int, y) against `x (int): d.` and `y: d.`
    let function_info = FunctionInfo {
        params: &[("x", Some("int")), ("y", None)],
        docstring: Some("\"\"\"d.\n\nArgs:\n    x (int): d.\n    y: d.\n\"\"\""),
        function_name: FunctionLocation::Name("f"),
    };

    // strict typing
    assert!(is_function_info_valid(
        &function_info,
        false,
        false,
        false,
        false,
        false,
        DocstringStyle::Google
    ));

    // lenient typing
    assert!(is_function_info_valid(
        &function_info,
        false,
        false,
        false,
        true,
        false,
        DocstringStyle::Google
    ));
}

#[test]
fn missing_parameter_is_length_mismatch() {
    // signature (x, y) against a docstring that only lists `y`
    let function_info = FunctionInfo {
        params: &[("x", None), ("y", None)],
        docstring: Some("\"\"\"d.\n\nArgs:\n    y: d.\n\"\"\""),
        function_name: FunctionLocation::Name("f"),
    };

    assert!(!is_function_info_valid(
        &function_info,
        false,
        true,
        true,
        false,
        false,
        DocstringStyle::Google
    ));

    assert!(!is_function_info_valid(
        &function_info,
        false,
        true,
        true,
        true,
        false,
        DocstringStyle::Google
    ));
}

#[test]
fn out_of_order_names_never_comply() {
    // signature (x: int, y: str) against a docstring listing y before x
    let function_info = FunctionInfo {
        params: &[("x", Some("int")), ("y", Some("str"))],
        docstring: Some("\"\"\"d.\n\nArgs:\n    y (str): d.\n    x (int): d.\n\"\"\""),
        function_name: FunctionLocation::Name("f"),
    };

    assert!(!is_function_info_valid(
        &function_info,
        false,
        true,
        true,
        false,
        false,
        DocstringStyle::Google
    ));

    assert!(!is_function_info_valid(
        &function_info,
        false,
        true,
        true,
        true,
        false,
        DocstringStyle::Google
    ));
}

#[test]
fn numpy_stops_at_returns_not_blank_line() {
    let docstring = "\"\"\"d.\n\nParameters\n----------\nx: int\n    d.\ny\n    d.\n\nReturns\n------\n...\n\"\"\"";

    let parsed = parse_numpy_docstring(docstring, false, true).unwrap();

    assert_eq!(parsed, vec![("x", Some("int")), ("y", None)]);
}

#[test]
fn no_docstring_follows_the_flag() {
    let function_info = FunctionInfo {
        params: &[("x", None)],
        docstring: None,
        function_name: FunctionLocation::Name("f"),
    };

    assert!(is_function_info_valid(
        &function_info,
        false,
        true,
        false,
        false,
        false,
        DocstringStyle::AutoDetect
    ));

    assert!(!is_function_info_valid(
        &function_info,
        false,
        false,
        false,
        false,
        false,
        DocstringStyle::AutoDetect
    ));
}

#[test]
fn variadics_follow_the_flag_in_signature() {
    let def = "def f(x, *args, a=\"v\"):\n    \"\"\"Hello!\"\"\"";

    let mut lex = Token::lexer(def);
    let mut params = Vec::new();
    get_next_function_info(&mut lex, &mut params, true).unwrap();
    assert_eq!(params, vec![("x", None), ("a", None)]);

    let mut lex = Token::lexer(def);
    let mut params = Vec::new();
    get_next_function_info(&mut lex, &mut params, false).unwrap();
    assert_eq!(params, vec![("x", None), ("*args", None), ("a", None)]);
}

#[test]
fn reparsing_gives_identical_results() {
    let docstring = "\"\"\"d.\n\nArgs:\n    x (int): d.\n    y: d.\n\"\"\"";

    let first = parse_documented_params(docstring, DocstringStyle::AutoDetect, false, true);
    let second = parse_documented_params(docstring, DocstringStyle::AutoDetect, false, true);

    assert_eq!(first, second);
    assert_eq!(first.unwrap(), vec![("x", Some("int")), ("y", None)]);
}

#[test]
fn google_order_follows_the_lines() {
    let docstring = "\"\"\"d.\n\nArgs:\n    b: d.\n    a: d.\n    c: d.\n\"\"\"";

    let parsed = parse_google_docstring(docstring, false, false).unwrap();

    assert_eq!(parsed, vec![("b", None), ("a", None), ("c", None)]);
}

#[test]
fn auto_detect_prefers_google() {
    // a docstring holding both headers resolves to its Google reading
    let docstring = "\"\"\"d.\n\nArgs:\n    x: d.\n\nParameters\n----------\ny\n    d.\n\"\"\"";

    let parsed = parse_documented_params(docstring, DocstringStyle::AutoDetect, true, false);

    assert_eq!(parsed.unwrap(), vec![("x", None)]);

    let parsed = parse_documented_params(docstring, DocstringStyle::Numpy, true, false);

    assert_eq!(parsed.unwrap(), vec![("y", None)]);
}

#[test]
fn generated_docstring_round_trips() {
    // a docstring written from the signature itself passes the strict check
    let function_info = FunctionInfo {
        params: &[("alpha", Some("int")), ("beta", Some("str")), ("gamma", None)],
        docstring: Some(
            "Args:\n    alpha (int):\n    beta (str):\n    gamma:\n",
        ),
        function_name: FunctionLocation::Name("f"),
    };

    assert!(is_function_info_valid(
        &function_info,
        false,
        false,
        false,
        false,
        false,
        DocstringStyle::Google
    ));

    assert!(is_function_info_valid(
        &function_info,
        false,
        false,
        false,
        false,
        true,
        DocstringStyle::AutoDetect
    ));
}

#[test]
fn header_cut_only_as_own_line() {
    // a header word inside an entry line does not end the section
    let docstring = "Args:\n    a: d.\n    bReturns:\n    c: d.\nReturns:\n";
    let parsed = parse_google_docstring(docstring, false, false).unwrap();
    assert_eq!(parsed, vec![("a", None), ("bReturns", None), ("c", None)]);

    // an indented header line still ends it
    let docstring = "Args:\n    a: d.\n    Returns:\n    c: d.\n";
    let parsed = parse_google_docstring(docstring, false, false).unwrap();
    assert_eq!(parsed, vec![("a", None)]);

    // the same for a NumPy section
    let docstring = "Parameters\n----------\na\n    d.\nxReturns\n    d.\nReturns\n";
    let parsed = parse_numpy_docstring(docstring, false, false).unwrap();
    assert_eq!(parsed, vec![("a", None), ("xReturns", None)]);
}

#[test]
fn unterminated_docstring_is_none() {
    assert!(extract_docstring("\"\"\"never closed").is_none());
    assert!(extract_docstring("'''never closed").is_none());
    assert!(extract_docstring("").is_none());
}

#[test]
fn optional_marker_and_parens_are_stripped() {
    let docstring = "\"\"\"d.\n\nArgs:\n    x (int, optional): d.\n    y (str): d.\n\"\"\"";

    let parsed = parse_google_docstring(docstring, false, false).unwrap();

    assert_eq!(parsed, vec![("x", Some("int")), ("y", Some("str"))]);
}

#[test]
fn empty_section_is_none() {
    assert!(parse_google_docstring("\"\"\"d.\n\nArgs:\n\"\"\"", false, false).is_some());
    assert!(parse_google_docstring("\"\"\"d. Args:\n\"\"\"", false, false).is_some());
    assert!(parse_google_docstring("Args:\n", false, false).is_none());
    assert!(parse_google_docstring("no section at all", false, false).is_none());
    assert!(parse_numpy_docstring("Parameters\n", false, false).is_none());
}

#[test]
fn google_type_on_one_side_only_is_lenient_only() {
    // docstring types x, signature does not
    let function_info = FunctionInfo {
        params: &[("x", None)],
        docstring: Some("\"\"\"d.\n\nArgs:\n    x (int): d.\n\"\"\""),
        function_name: FunctionLocation::Name("f"),
    };

    assert!(is_function_info_valid(
        &function_info,
        false,
        true,
        true,
        true,
        false,
        DocstringStyle::Google
    ));

    assert!(!is_function_info_valid(
        &function_info,
        false,
        true,
        true,
        false,
        false,
        DocstringStyle::Google
    ));
}
