use pysub_compiler::semantics::SemanticError;
use pysub_compiler::{compile_source, CompilerError};

#[test]
fn rejects_duplicate_storage_field() {
    let source = r#"
fn main() -> u128:
    return 0

contract Dup:
    storage value: u128 = 0
    storage value: u128 = 1
"#;

    let err = compile_source(source).expect_err("expected duplicate storage error");
    assert!(matches!(
        err,
        CompilerError::Semantics(SemanticError::DuplicateStorage { .. })
    ));
}

#[test]
fn rejects_invalid_map_key() {
    let source = r#"
fn main() -> u128:
    return 0

contract BadMap:
    storage ledger: map[u128, u128]
"#;

    let err = compile_source(source).expect_err("expected invalid map key error");
    assert!(matches!(
        err,
        CompilerError::Semantics(SemanticError::InvalidMapKeyType { .. })
    ));
}

#[test]
fn rejects_duplicate_parameters() {
    let source = r#"
fn main() -> u128:
    return 0

fn clash(a: u128, a: bool):
    return 0
"#;

    let err = compile_source(source).expect_err("expected duplicate parameter error");
    assert!(matches!(
        err,
        CompilerError::Semantics(SemanticError::DuplicateParameter { .. })
    ));
}

#[test]
fn rejects_reserved_entry_name() {
    let source = r#"
fn axiom_entry_main() -> u128:
    return 0

fn main() -> u128:
    return 0
"#;

    let err = compile_source(source).expect_err("expected reserved entry name error");
    assert!(matches!(
        err,
        CompilerError::Semantics(SemanticError::ReservedFunctionName { .. })
    ));
}

const ENTRY: &str = "fn main(sender: address, recipient: address, amount: u128, timestamp: u64, metadata: string, nonce: u64, signature: bytes, sender_pubkey: bytes, memo: string) -> u128:\n    return 0\n";

#[test]
fn accepts_the_entry_signature() {
    let program = compile_source(ENTRY).expect("valid program");
    assert_eq!(program.functions.len(), 1);
}

#[test]
fn rejects_missing_entry() {
    let err = compile_source("fn helper() -> u128:\n    return 0\n").expect_err("missing entry");
    assert!(matches!(&err, CompilerError::Semantics(SemanticError::MissingEntry(name)) if name == "main"));
    match err {
        CompilerError::Semantics(e) => assert_eq!(e.text(), "missing required entry function `main`"),
        _ => unreachable!(),
    }
}

#[test]
fn rejects_wrong_entry_signature() {
    let err = compile_source("fn main(x: u128) -> u128:\n    return x\n").expect_err("bad signature");
    match err {
        CompilerError::Semantics(SemanticError::InvalidEntrySignature { function, expected, found }) => {
            assert_eq!(function, "main");
            assert_eq!(found, "fn main(x: u128) -> u128");
            assert!(expected.starts_with("fn main(sender: address, recipient: address"));
        }
        other => panic!("unexpected error: {:?}", other),
    }
}

#[test]
fn rejects_duplicate_contract_and_function() {
    let dup_contract = format!("{ENTRY}\ncontract A:\n    fn f():\n        return\n\ncontract A:\n    fn g():\n        return\n");
    let err = compile_source(&dup_contract).expect_err("duplicate contract");
    assert!(matches!(err, CompilerError::Semantics(SemanticError::DuplicateContract(ref n)) if n == "A"));

    let dup_fn = format!("{ENTRY}\ncontract B:\n    fn f():\n        return\n\n    fn f():\n        return\n");
    let err = compile_source(&dup_fn).expect_err("duplicate function");
    match err {
        CompilerError::Semantics(e @ SemanticError::DuplicateFunction { .. }) => {
            assert_eq!(e.text(), "duplicate function `f` in contract `B`");
        }
        other => panic!("unexpected error: {:?}", other),
    }
}

#[test]
fn duplicate_storage_message_names_field_and_contract() {
    let e = SemanticError::DuplicateStorage { contract: "Dup".to_string(), field: "value".to_string() };
    assert_eq!(e.text(), "duplicate storage field `value` in contract `Dup`");
}

#[test]
fn lowering_reports_unknown_identifiers() {
    let source = format!("{ENTRY}\nfn f() -> u128:\n    return missing\n");
    let err = pysub_compiler::compile_to_ir(&source).expect_err("unknown identifier");
    match err {
        CompilerError::Ir(e) => {
            assert!(matches!(&e, pysub_compiler::ir::IrError::UnknownIdentifier(n) if n == "missing"));
            assert_eq!(e.text(), "unknown identifier `missing`");
        }
        other => panic!("unexpected error: {:?}", other),
    }
}

#[test]
fn accepts_parameterless_entry() {
    let program = compile_source("fn main() -> u128:\n    return 0\n").expect("valid program");
    assert_eq!(program.functions.len(), 1);
    assert_eq!(program.functions[0].params.len(), 0);
}

#[test]
fn rejects_parameterless_entry_returning_bool() {
    let err = compile_source("fn main() -> bool:\n    return true\n").expect_err("bad signature");
    assert!(matches!(err, CompilerError::Semantics(SemanticError::InvalidEntrySignature { .. })));
}
