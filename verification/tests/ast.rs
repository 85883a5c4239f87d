use pysub_compiler::ast::build_program;
use pysub_compiler::parser::{parse_program, ParseError};
use pysub_compiler::ast::{Statement, Visibility};

#[test]
fn parses_contract_and_function() {
    let src = "contract Sample:\n    storage counter: u128 = 0\n\n    fn increment():\n        counter = counter + 1\n\nfn helper(x: u128) -> u128:\n    return x\n";

    let parsed = parse_program(src).expect("parse");
    let program = build_program(&parsed).expect("build");
    assert_eq!(program.contracts.len(), 1);
    assert_eq!(program.functions.len(), 1);
    let contract = &program.contracts[0];
    assert_eq!(contract.storage.len(), 1);
    assert_eq!(contract.functions.len(), 1);
}

#[test]
fn if_elif_else_chain_is_one_statement() {
    let src = "fn pick(x: u64) -> u64:\n    if x < 1:\n        return 1\n    elif x < 2:\n        return 2\n    else:\n        return 3\n";
    let parsed = parse_program(src).expect("parse");
    let program = build_program(&parsed).expect("build");
    assert_eq!(program.functions.len(), 1);
    let f = &program.functions[0];
    assert_eq!(f.name.as_str(), "pick");
    assert_eq!(f.params.len(), 1);
    assert!(f.return_type.is_some());
    assert_eq!(f.body.len(), 1);
    match &f.body[0] {
        Statement::If { branches, else_branch } => {
            assert_eq!(branches.len(), 2);
            assert_eq!(else_branch.as_ref().map(|b| b.len()), Some(1));
        }
        _ => panic!("expected an if statement"),
    }
}

#[test]
fn storage_without_initializer_and_public_function() {
    let src = "contract Vault(owner: address):\n    storage total: u128\n    pub fn get() -> u128:\n        return total\n";
    let parsed = parse_program(src).expect("parse");
    let program = build_program(&parsed).expect("build");
    assert_eq!(program.contracts.len(), 1);
    let c = &program.contracts[0];
    assert_eq!(c.name.as_str(), "Vault");
    assert_eq!(c.params.len(), 1);
    assert_eq!(c.storage.len(), 1);
    assert!(c.storage[0].initializer.is_none());
    assert_eq!(c.functions.len(), 1);
    assert_eq!(c.functions[0].visibility, Visibility::Public);
}

#[test]
fn assignment_to_a_literal_is_rejected() {
    let src = "fn bad():\n    1 = 2\n";
    assert!(matches!(parse_program(src), Err(ParseError::Syntax(_))));
}

#[test]
fn let_without_type_is_rejected() {
    let src = "fn bad():\n    let x = 2\n";
    assert!(matches!(parse_program(src), Err(ParseError::Syntax(_))));
}

#[test]
fn syntax_error_is_a_parse_error_of_compile_source() {
    let err = pysub_compiler::compile_source("contract:\n    pass\n").expect_err("no contract name");
    assert!(matches!(err, pysub_compiler::CompilerError::Parse(ParseError::Syntax(_))));
}
