use pysub_compiler::dsl::{
    error_text, parse_module, DslBinaryOp, DslCallArg, DslExpr, DslLiteral, DslParseError, DslStmt,
    DslType, DslUnaryOp,
};

#[test]
fn parses_module_with_state_structs_and_functions() {
    let src = "module: token\nstate:\n  counter: uint64\n  owner: address\nstructs:\n  Point:\n    x: u32\n    y: u32\nfunctions:\nget_counter() -> uint64:\n    return counter\npub fn bump(by: uint64):\n    counter = counter + by\n";
    let m = parse_module(src).expect("module");
    assert_eq!(m.name, "token");
    assert_eq!(m.state_fields.len(), 2);
    assert_eq!(m.state_fields[0].name, "counter");
    assert!(matches!(m.state_fields[0].ty, DslType::Uint { bits: 64 }));
    assert!(matches!(m.state_fields[1].ty, DslType::Address));
    assert_eq!(m.structs.len(), 1);
    assert_eq!(m.structs[0].name, "Point");
    assert_eq!(m.structs[0].fields.len(), 2);
    assert_eq!(m.functions.len(), 2);
    assert_eq!(m.functions[0].name, "get_counter");
    assert!(matches!(m.functions[0].return_type, Some(DslType::Uint { bits: 64 })));
    assert!(matches!(&m.functions[0].body[0], DslStmt::Return(Some(DslExpr::Identifier(n))) if n == "counter"));
    assert_eq!(m.functions[1].name, "bump");
    assert_eq!(m.functions[1].params.len(), 1);
    assert!(matches!(&m.functions[1].body[0], DslStmt::Assign { .. }));
}

#[test]
fn module_without_name_is_rejected() {
    let err = parse_module("imports:\nstate:\n  x: u64\n").unwrap_err();
    assert!(matches!(err, DslParseError::MissingModule));
    assert_eq!(error_text(&err), "missing module name");
}

#[test]
fn unexpected_top_level_content_is_rejected() {
    let err = parse_module("garbage here\nmodule: m\n").unwrap_err();
    assert!(matches!(&err, DslParseError::UnexpectedTopLevel(s) if s == "garbage here"));
    assert_eq!(error_text(&err), "unexpected top-level content: garbage here");
}

#[test]
fn signature_without_parenthesis_is_rejected() {
    let err = parse_module("module: m\nfunctions:\nbroken(x -> u64:\n    return 1\n").unwrap_err();
    assert!(matches!(err, DslParseError::InvalidSignature { .. }));
}

fn returned(expr: &str) -> Result<DslExpr, DslParseError> {
    let src = format!("module: m\nfunctions:\nf():\n    return {}\n", expr);
    let mut m = parse_module(&src)?;
    match m.functions.remove(0).body.remove(0) {
        DslStmt::Return(Some(e)) => Ok(e),
        other => panic!("unexpected statement: {other:?}"),
    }
}

#[test]
fn expressions_follow_operator_precedence() {
    let e = returned("a + 2 * b").expect("expr");
    match e {
        DslExpr::Binary { left, op: DslBinaryOp::Add, right } => {
            assert!(matches!(*left, DslExpr::Identifier(ref n) if n == "a"));
            match *right {
                DslExpr::Binary { left, op: DslBinaryOp::Mul, right } => {
                    assert!(matches!(*left, DslExpr::Literal(DslLiteral::Number(ref n)) if n == "2"));
                    assert!(matches!(*right, DslExpr::Identifier(ref n) if n == "b"));
                }
                other => panic!("unexpected right operand: {other:?}"),
            }
        }
        other => panic!("unexpected expression: {other:?}"),
    }
}

#[test]
fn subtraction_is_left_associative() {
    let e = returned("a - b - c").expect("expr");
    match e {
        DslExpr::Binary { left, op: DslBinaryOp::Sub, right } => {
            assert!(matches!(*left, DslExpr::Binary { op: DslBinaryOp::Sub, .. }));
            assert!(matches!(*right, DslExpr::Identifier(ref n) if n == "c"));
        }
        other => panic!("unexpected expression: {other:?}"),
    }
}

#[test]
fn calls_attributes_literals_and_unary() {
    let e = returned("emit(x=1, not ok, \"s\\n\", None).len")
        .expect("expr");
    match e {
        DslExpr::Attribute { target, attribute } => {
            assert_eq!(attribute, "len");
            match *target {
                DslExpr::Call { callee, args } => {
                    assert!(matches!(*callee, DslExpr::Identifier(ref n) if n == "emit"));
                    assert_eq!(args.len(), 4);
                    assert!(matches!(&args[0], DslCallArg::Named { name, .. } if name == "x"));
                    assert!(matches!(&args[1], DslCallArg::Positional(DslExpr::Unary { op: DslUnaryOp::Not, .. })));
                    assert!(matches!(&args[2], DslCallArg::Positional(DslExpr::Literal(DslLiteral::String(s))) if s == "s\n"));
                    assert!(matches!(&args[3], DslCallArg::Positional(DslExpr::Literal(DslLiteral::Null))));
                }
                other => panic!("unexpected target: {other:?}"),
            }
        }
        other => panic!("unexpected expression: {other:?}"),
    }
}

#[test]
fn a_b_before_a_string_reads_as_an_identifier() {
    let err = returned("f(b\"x\")").unwrap_err();
    assert!(matches!(err, DslParseError::Expression(_)));
}

#[test]
fn unexpected_character_is_an_expression_error() {
    let err = returned("a $ b").unwrap_err();
    assert!(matches!(err, DslParseError::Expression(_)));
}

#[test]
fn struct_field_without_type_is_located() {
    let err = parse_module("module: m\nstructs:\n  P:\n    x\n").unwrap_err();
    assert_eq!(error_text(&err), "statement parse error: line 4: invalid struct field");
}

#[test]
fn state_entry_without_type_is_rejected() {
    let err = parse_module("module: m\nstate:\n  bad\n").unwrap_err();
    assert_eq!(error_text(&err), "statement parse error: invalid state entry: bad");
}

#[test]
fn parameters_may_omit_their_type() {
    let m = parse_module("module: m\n# comment\nfunctions:\npub fn f(a: uint64, b):\n    pass\n").expect("module");
    let f = &m.functions[0];
    assert_eq!(f.name, "f");
    assert_eq!(f.params.len(), 2);
    assert_eq!(f.params[0].name, "a");
    assert!(matches!(f.params[0].ty, Some(DslType::Uint { bits: 64 })));
    assert_eq!(f.params[1].name, "b");
    assert!(f.params[1].ty.is_none());
    assert!(f.return_type.is_none());
    assert!(matches!(f.body[..], [DslStmt::Pass]));
}

#[test]
fn signature_may_span_lines() {
    let m = parse_module("module: m\nfunctions:\nf(a: uint64,\n  b: uint64) -> uint64:\n    return a + b\n")
        .expect("module");
    let f = &m.functions[0];
    assert_eq!(f.name, "f");
    assert_eq!(f.params.len(), 2);
    assert_eq!(f.params[1].name, "b");
    assert!(matches!(f.return_type, Some(DslType::Uint { bits: 64 })));
    assert!(matches!(&f.body[0], DslStmt::Return(Some(DslExpr::Binary { op: DslBinaryOp::Add, .. }))));
}

#[test]
fn block_statements_nest_by_indentation() {
    let src = "module: m\nfunctions:\nf(x: uint64):\n    if x > 1:\n        return 1\n    elif x > 0:\n        return 2\n    else:\n        return 3\n    while x < 10:\n        x += 1\n    for i in items:\n        pass\n    let y: uint64 = g(1,\n        2)\n";
    let m = parse_module(src).expect("module");
    let body = &m.functions[0].body;
    assert_eq!(body.len(), 4);
    match &body[0] {
        DslStmt::If { branches, else_branch } => {
            assert_eq!(branches.len(), 2);
            assert!(matches!(branches[1].condition, DslExpr::Binary { op: DslBinaryOp::Greater, .. }));
            assert!(matches!(else_branch.as_deref(), Some([DslStmt::Return(Some(_))])));
        }
        other => panic!("unexpected statement: {other:?}"),
    }
    match &body[1] {
        DslStmt::While { body, .. } => match &body[0] {
            DslStmt::Assign { target, value } => {
                assert!(matches!(target, DslExpr::Identifier(n) if n == "x"));
                assert!(matches!(value, DslExpr::Binary { op: DslBinaryOp::Add, .. }));
            }
            other => panic!("unexpected statement: {other:?}"),
        },
        other => panic!("unexpected statement: {other:?}"),
    }
    assert!(matches!(&body[2], DslStmt::For { binding, .. } if binding == "i"));
    match &body[3] {
        DslStmt::Let { name, ty, value } => {
            assert_eq!(name, "y");
            assert!(matches!(ty, Some(DslType::Uint { bits: 64 })));
            assert!(matches!(value, DslExpr::Call { args, .. } if args.len() == 2));
        }
        other => panic!("unexpected statement: {other:?}"),
    }
}

#[test]
fn raise_without_expression_is_rejected() {
    let err = parse_module("module: m\nfunctions:\nf():\n    raise\n").unwrap_err();
    assert_eq!(error_text(&err), "statement parse error: line 4: raise missing expression");
}

#[test]
fn invalid_uint_width_is_named() {
    let err = parse_module("module: m\nstate:\n  x: uintx\n").unwrap_err();
    match err {
        DslParseError::InvalidSignature { signature, reason } => {
            assert_eq!(signature, "uintx");
            assert_eq!(reason, "invalid uint width");
        }
        other => panic!("unexpected error: {:?}", other),
    }
}

#[test]
fn unexpected_character_in_an_expression_is_named() {
    let err = parse_module("module: m\nfunctions:\nf() -> uint64:\n    return 1 @ 2\n").unwrap_err();
    assert!(
        matches!(&err, DslParseError::Expression(m) if m == "line 4: expression parse error: unexpected character `@` in `1 @ 2`"),
        "{:?}",
        err
    );
}
