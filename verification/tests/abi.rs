use pysub_compiler::abi::{contract_export, entry_export, legacy_entry_export, selector};

#[test]
fn export_names_follow_the_runtime_abi() {
    assert_eq!(entry_export(), "axiom_entry_main");
    assert_eq!(legacy_entry_export(), "main");
    assert_eq!(selector("Token", "transfer"), "Token::transfer");
    assert_eq!(contract_export("Token", "transfer"), "axiom_contract::Token::transfer");
}
