use pysub_compiler::parser::{normalize_indentation, parse_program, IndentationError, ParseError};

#[test]
fn normalize_simple_block() {
    let source = "fn main():\n    return 1\n";
    let normalized = normalize_indentation(source).unwrap();
    assert!(normalized.contains("{\nreturn 1\n}\n"));
}

#[test]
fn reject_tab_indentation() {
    let source = "fn main():\n\treturn 1\n";
    let err = normalize_indentation(source).unwrap_err();
    assert!(matches!(err, IndentationError::TabsNotAllowed { .. }));
}

#[test]
fn normalize_closes_nested_blocks_at_end() {
    let source = "fn f():\n    if x:\n        return 1\n";
    assert_eq!(
        normalize_indentation(source).unwrap(),
        "fn f():\n{\nif x:\n{\nreturn 1\n}\n}\n"
    );
}

#[test]
fn normalize_keeps_blank_and_comment_lines() {
    let source = "fn f():\n\n    # note\n    return 1\nfn g():\n    return 2\n";
    assert_eq!(
        normalize_indentation(source).unwrap(),
        "fn f():\n\n# note\n{\nreturn 1\n}\nfn g():\n{\nreturn 2\n}\n"
    );
}

#[test]
fn detects_bad_indentation() {
    let source = "fn broken():\n  return 0\n";
    let err = parse_program(source).unwrap_err();
    assert!(matches!(err, ParseError::Indentation(_)));
}

#[test]
fn bad_indentation_width_names_the_line() {
    let err = normalize_indentation("fn broken():\n  return 0\n").unwrap_err();
    assert_eq!(err, IndentationError::InvalidWidth { line: 2 });
}

#[test]
fn missing_block_body_is_reported_at_last_line() {
    assert_eq!(
        normalize_indentation("fn f():\n").unwrap_err(),
        IndentationError::ExpectedIndent { line: 1 }
    );
    assert_eq!(
        normalize_indentation("fn f():\nreturn 1\n").unwrap_err(),
        IndentationError::ExpectedIndent { line: 2 }
    );
}

#[test]
fn indent_by_two_levels_is_rejected() {
    assert_eq!(
        normalize_indentation("fn f():\n        return 1\n").unwrap_err(),
        IndentationError::UnexpectedIndent { line: 2, expected: 1, found: 2 }
    );
}

#[test]
fn parse_program_keeps_normalized_source() {
    let parsed = parse_program("fn main():\n    return 1\n").unwrap();
    assert_eq!(parsed.normalized_source(), "fn main():\n{\nreturn 1\n}\n");
    assert!(matches!(
        parse_program("fn main():\n\treturn 1\n"),
        Err(ParseError::Indentation(IndentationError::TabsNotAllowed { line: 2 }))
    ));
}
