use pysub_compiler::ir::{Contract, Expr, Field, Function, FunctionBody, HostFunction, Module, Param, ValueType};
use pysub_compiler::metadata::{
    canonical_metadata_digest, collect_host_functions, format_host_function, hex_lower, value_type_to_string,
    CompilationMetadata, FunctionParamMetadata, StorageFieldMetadata,
};

fn sample_module() -> Module {
    let gas = Expr::HostCall { function: HostFunction::SystemGetGasRemaining, args: Vec::new() };
    Module {
        contracts: vec![Contract {
            name: "Wallet".to_string(),
            params: vec![Param { name: "owner".to_string(), ty: ValueType::I32 }],
            storage: vec![Field { name: "balance".to_string(), ty: ValueType::I64 }],
            functions: vec![Function {
                name: "balance".to_string(),
                params: Vec::new(),
                return_type: Some(ValueType::I64),
                body: FunctionBody::Return { value: Some(gas) },
            }],
        }],
        functions: vec![Function {
            name: "ping".to_string(),
            params: vec![Param { name: "x".to_string(), ty: ValueType::I64 }],
            return_type: None,
            body: FunctionBody::Return { value: None },
        }],
        data_segments: Vec::new(),
    }
}

#[test]
fn metadata_describes_contracts_functions_and_imports() {
    let module = sample_module();
    let meta = CompilationMetadata::from_ir_at(
        &module,
        Some("contracts/wallet.pysub".to_string()),
        b"",
        "2024-01-01T00:00:00+00:00".to_string(),
    );
    assert_eq!(meta.metadata_version, "1.0");
    assert_eq!(meta.compiler_version, "0.1.0");
    assert_eq!(meta.generated_at, "2024-01-01T00:00:00+00:00");
    assert_eq!(meta.source_path.as_deref(), Some("contracts/wallet.pysub"));
    assert_eq!(meta.wasm_sha256, "e3b0c44298fc1c149afbf4c8996fb92427ae41e4649b934ca495991b7852b855");
    assert_eq!(meta.wasm_size_bytes, 0);
    assert_eq!(meta.host_functions, vec!["axiom_system::get_gas_remaining".to_string()]);
    assert_eq!(meta.free_functions.len(), 1);
    assert_eq!(meta.free_functions[0].name, "ping");
    assert_eq!(meta.free_functions[0].export, "ping");
    assert_eq!(meta.free_functions[0].params[0].ty, "i64");
    assert!(meta.free_functions[0].return_type.is_none());
    let contract = &meta.contracts[0];
    assert_eq!(contract.name, "Wallet");
    assert_eq!(contract.params[0].name, "owner");
    assert_eq!(contract.params[0].ty, "i32");
    assert_eq!(contract.storage[0].ty, "i64");
    assert_eq!(contract.methods[0].selector, "Wallet::balance");
    assert_eq!(contract.methods[0].export, "axiom_contract::Wallet::balance");
    assert_eq!(contract.methods[0].return_type.as_deref(), Some("i64"));
}

#[test]
fn metadata_hashes_the_wasm_bytes() {
    let module = Module { contracts: Vec::new(), functions: Vec::new(), data_segments: Vec::new() };
    let meta = CompilationMetadata::from_ir(&module, None, b"abc");
    assert_eq!(meta.wasm_sha256, "ba7816bf8f01cfea414140de5dae2223b00361a396177a9cb410ff61f20015ad");
    assert_eq!(meta.wasm_size_bytes, 3);
    assert!(meta.source_path.is_none());
    assert!(meta.host_functions.is_empty());
}

#[test]
fn canonical_digest_is_sha256_of_the_serialization() {
    let digest = canonical_metadata_digest(b"abc");
    assert_eq!(hex_lower(&digest), "ba7816bf8f01cfea414140de5dae2223b00361a396177a9cb410ff61f20015ad");
}

#[test]
fn hex_is_lowercase_two_digits_per_byte() {
    assert_eq!(hex_lower(&[0x00, 0x0f, 0xa0, 0xff]), "000fa0ff");
    assert_eq!(hex_lower(&[]), "");
}

#[test]
fn host_function_names_and_types() {
    assert_eq!(format_host_function(&HostFunction::StdStateWrite), "axiom_std::state_write");
    assert_eq!(format_host_function(&HostFunction::MemoryDeterministicMalloc), "axiom_memory::deterministic_malloc");
    assert_eq!(value_type_to_string(ValueType::I32), "i32");
    assert_eq!(value_type_to_string(ValueType::I64), "i64");
    assert_eq!(collect_host_functions(&sample_module()), vec!["axiom_system::get_gas_remaining".to_string()]);
    let p = FunctionParamMetadata::from_param(&Param { name: "a".to_string(), ty: ValueType::I64 });
    assert_eq!((p.name.as_str(), p.ty.as_str()), ("a", "i64"));
    let f = StorageFieldMetadata::from_field(&Field { name: "f".to_string(), ty: ValueType::I32 });
    assert_eq!((f.name.as_str(), f.ty.as_str()), ("f", "i32"));
}
