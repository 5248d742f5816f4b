use pystaleds::parsing::{extract_docstring, parse_google_docstring, parse_numpy_docstring};

#[test]
fn google() {
    let docstring = r#"
            """Hey.

            Args:
                x (int): First var.
                y: Second var.
            """#;

    let args = parse_google_docstring(docstring, true, true).unwrap();

    assert_eq!(args[0].1.unwrap(), "int");
    assert_eq!(args[1].0, "y");

    assert_eq!(args.len(), 2);
}

#[test]
fn numpy() {
    let docstring = r#"
            """Hey.

            Parameters
            ----------
            x: int
                First var.
            y
                Second var.
            """#;

    let args = parse_numpy_docstring(docstring, true, true).unwrap();

    assert_eq!(args[0].1.unwrap(), "int");
    assert_eq!(args[1].0, "y");

    assert_eq!(args.len(), 2);

    let docstring = r#"
            """Hey.

            Parameters
            """#;

    assert!(parse_numpy_docstring(docstring, true, true).is_none());
}

#[test]
fn docstring_extraction() {
    let docstring = r#""""Hey.

            Args:
                x (int): First var.
                y: Second var.
            """
            x = 2
            y = 3 + 5"#;

    let docstring = extract_docstring(docstring).unwrap();

    assert_eq!(
        docstring,
        r#""""Hey.

            Args:
                x (int): First var.
                y: Second var.
            """"#
    );

    let docstring = r#"'''Hey.

            Args:
                x (int): First var.
                y: Second var.
            '''
            x = 2
            y = 3 + 5"#;

    let docstring = extract_docstring(docstring).unwrap();

    assert_eq!(
        docstring,
        r#"'''Hey.

            Args:
                x (int): First var.
                y: Second var.
            '''"#
    );

    let not_docstring = "Not a docstring.";

    assert!(extract_docstring(not_docstring).is_none());
}

#[test]
fn test_args_from_docstring() {
    let docstring = r#""""Hey.

            Args:
                x (int): First var.
                *args: A lot of things.
                y: Second var.
            """"#;

    let parsed = parse_google_docstring(docstring, true, true).unwrap();

    assert_eq!(parsed, vec![("x", Some("int")), ("y", None)]);

    let parsed = parse_google_docstring(docstring, true, false).unwrap();

    assert_eq!(
        parsed,
        vec![("x", Some("int")), ("*args", None), ("y", None)]
    );

    let docstring = r#""""Hey.

            Parameters
            ----------
            x
                First var.
            y
                Second var.
            **kwargs
                A lot of things with keywords.
            """"#;

    let parsed = parse_numpy_docstring(docstring, true, true).unwrap();

    assert_eq!(parsed, vec![("x", None), ("y", None)]);

    let parsed = parse_numpy_docstring(docstring, true, false).unwrap();

    assert_eq!(parsed, vec![("x", None), ("y", None), ("**kwargs", None)]);
}
