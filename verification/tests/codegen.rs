use pysub_compiler::abi;
use pysub_compiler::codegen_wasm::{emit_wasm, function_ops, used_host_functions, WasmOp};
use pysub_compiler::ir::{
    BinaryOp, DataSegment, Expr, Function, FunctionBody, HostFunction, Local, Module, Param, Stmt, StoreWidth,
    ValueType,
};
use pysub_compiler::{compile_to_ir, compile_to_wasm};
use wasmparser::Operator;

#[test]
fn lowering_records_function_signatures_and_body() {
    let source =
        "fn main(sender: address, recipient: address, amount: u128, timestamp: u64, metadata: string, nonce: u64, signature: bytes, sender_pubkey: bytes, memo: string) -> u128:\n    return 0\n\nfn add(a: u128, b: u128) -> u128:\n    return a + b\n";
    let ir_module = compile_to_ir(source).expect("IR lowering");
    assert_eq!(ir_module.functions.len(), 2);

    let function = ir_module
        .functions
        .iter()
        .find(|function| function.name == "add")
        .expect("add function present");
    assert_eq!(function.name, "add");
    assert_eq!(function.params.len(), 2);
    assert_eq!(function.params[0].ty, ValueType::I64);
    assert_eq!(function.params[1].ty, ValueType::I64);
    assert_eq!(function.return_type, Some(ValueType::I64));
    matches!(&function.body, FunctionBody::Return { value: Some(_) })
        .then_some(())
        .expect("return expression captured");
}

#[test]
fn lowering_handles_contract_members() {
    let source = "fn main(sender: address, recipient: address, amount: u128, timestamp: u64, metadata: string, nonce: u64, signature: bytes, sender_pubkey: bytes, memo: string) -> u128:\n    return 0\n\ncontract Wallet(owner: address):\n    storage balance: u128 = 0\n\n    fn balance() -> u128:\n        return 0\n";
    let ir_module = compile_to_ir(source).expect("IR lowering");
    assert_eq!(ir_module.contracts.len(), 1);

    let contract = &ir_module.contracts[0];
    assert_eq!(contract.name, "Wallet");
    assert_eq!(contract.params.len(), 1);
    assert_eq!(contract.params[0].name, "owner");
    assert_eq!(contract.params[0].ty, ValueType::I32);
    assert_eq!(contract.storage.len(), 1);
    assert_eq!(contract.storage[0].name, "balance");
    assert_eq!(contract.storage[0].ty, ValueType::I64);
    assert_eq!(contract.functions.len(), 1);
    assert_eq!(contract.functions[0].name, "balance");
    assert_eq!(contract.functions[0].return_type, Some(ValueType::I64));
}

#[test]
fn wasm_exports_all_functions() {
    let source =
        "fn main(sender: address, recipient: address, amount: u128, timestamp: u64, metadata: string, nonce: u64, signature: bytes, sender_pubkey: bytes, memo: string) -> u128:\n    return 0\n\nfn ping():\n    return\n\ncontract Wallet:\n    fn balance() -> u128:\n        return 0\n";
    let wasm = compile_to_wasm(source).expect("WASM emission");
    assert!(wasm.starts_with(b"\0asm"));

    let exports = decode_exports(&wasm);
    assert!(exports.contains(&"ping".to_string()));
    assert!(exports.contains(&"Wallet::balance".to_string()));
    assert!(exports.contains(&abi::legacy_entry_export()));
    assert!(exports.contains(&abi::entry_export()));
    assert!(exports.contains(&abi::contract_export("Wallet", "balance")));
}

#[test]
fn wasm_contains_add_instructions() {
    let source =
        "fn main(sender: address, recipient: address, amount: u128, timestamp: u64, metadata: string, nonce: u64, signature: bytes, sender_pubkey: bytes, memo: string) -> u128:\n    return 0\n\nfn add(a: u128, b: u128) -> u128:\n    return a + b\n";
    let wasm = compile_to_wasm(source).expect("emit wasm");
    let bodies = decode_function_ops(&wasm);
    assert_eq!(bodies.len(), 2);
    let add_body = bodies
        .into_iter()
        .find(|body| body.contains(&"i64.add".to_string()))
        .expect("add body present");
    assert_eq!(
        add_body,
        vec!["local.get 0", "local.get 1", "i64.add", "return", "end"],
        "unexpected instruction sequence: {:?}",
        add_body
    );
}

#[test]
fn wasm_handles_constant_returns() {
    let source = "fn main(sender: address, recipient: address, amount: u128, timestamp: u64, metadata: string, nonce: u64, signature: bytes, sender_pubkey: bytes, memo: string) -> u128:\n    return 0\n\nfn always_true() -> bool:\n    return true\n";
    let wasm = compile_to_wasm(source).expect("emit wasm");
    let bodies = decode_function_ops(&wasm);
    assert_eq!(bodies.len(), 2);
    let truthy_body = bodies
        .into_iter()
        .find(|body| body.contains(&"i32.const 1".to_string()))
        .expect("always_true body present");
    assert_eq!(truthy_body, vec!["i32.const 1", "return", "end"]);
}

#[test]
fn wasm_imports_system_helpers() {
    let source = "fn main(sender: address, recipient: address, amount: u128, timestamp: u64, metadata: string, nonce: u64, signature: bytes, sender_pubkey: bytes, memo: string) -> u128:\n    return get_gas_remaining()\n";
    let wasm = compile_to_wasm(source).expect("emit wasm");

    let imports = decode_imports(&wasm);
    assert!(imports.contains(&("axiom_system".to_string(), "get_gas_remaining".to_string())));

    let bodies = decode_function_ops(&wasm);
    assert_eq!(bodies.len(), 1);
    assert_eq!(bodies[0], vec!["call 0", "return", "end"]);
}

#[test]
fn wasm_imports_memory_helpers() {
    let source = "fn main(sender: address, recipient: address, amount: u128, timestamp: u64, metadata: string, nonce: u64, signature: bytes, sender_pubkey: bytes, memo: string) -> u128:\n    return 0\n\nfn alloc() -> address:\n    return deterministic_malloc(16)\n";
    let wasm = compile_to_wasm(source).expect("emit wasm");

    let imports = decode_imports(&wasm);
    assert!(imports.contains(&(
        "axiom_memory".to_string(),
        "deterministic_malloc".to_string()
    )));

    let bodies = decode_function_ops(&wasm);
    assert_eq!(bodies.len(), 2);
    let alloc_body = bodies
        .into_iter()
        .find(|body| body.contains(&"i32.const 16".to_string()))
        .expect("alloc body present");
    assert_eq!(alloc_body, vec!["i32.const 16", "call 0", "return", "end"]);
}

fn function(name: &str, params: Vec<ValueType>, return_type: Option<ValueType>, body: FunctionBody) -> Function {
    Function {
        name: name.to_string(),
        params: params
            .into_iter()
            .enumerate()
            .map(|(i, ty)| Param { name: format!("p{}", i), ty })
            .collect(),
        return_type,
        body,
    }
}

#[test]
fn empty_module_has_only_the_header() {
    let module = Module { contracts: Vec::new(), functions: Vec::new(), data_segments: Vec::new() };
    assert_eq!(emit_wasm(&module), Some(b"\0asm\x01\0\0\0".to_vec()));
}

#[test]
fn memory_is_imported_first_and_data_is_written() {
    let body = FunctionBody::Block {
        locals: vec![Local { name: "t".to_string(), ty: ValueType::I32 }],
        body: vec![
            Stmt::Store { address: Expr::ConstI32(8), value: Expr::ConstI32(7), width: StoreWidth::I32 },
            Stmt::Expr(Expr::HostCall { function: HostFunction::SystemAbort, args: Vec::new() }),
        ],
    };
    let module = Module {
        contracts: Vec::new(),
        functions: vec![function("run", Vec::new(), None, body)],
        data_segments: vec![DataSegment { offset: 70000, bytes: vec![1, 2, 3] }],
    };
    let wasm = emit_wasm(&module).expect("module fits");
    let imports = decode_imports(&wasm);
    assert_eq!(
        imports,
        vec![
            ("env".to_string(), "memory".to_string()),
            ("axiom_system".to_string(), "abort".to_string())
        ]
    );
    let mut minimum = None;
    let mut data = Vec::new();
    for payload in wasmparser::Parser::new(0).parse_all(&wasm) {
        match payload.expect("payload") {
            wasmparser::Payload::ImportSection(section) => {
                for import in section.into_imports() {
                    if let wasmparser::TypeRef::Memory(ty) = import.expect("import").ty {
                        minimum = Some(ty.initial);
                    }
                }
            }
            wasmparser::Payload::DataSection(section) => {
                for segment in section {
                    data.push(segment.expect("segment").data.to_vec());
                }
            }
            _ => {}
        }
    }
    assert_eq!(minimum, Some(2));
    assert_eq!(data, vec![vec![1, 2, 3]]);
    let bodies = decode_function_ops(&wasm);
    assert_eq!(bodies.len(), 1);
    assert_eq!(bodies[0][0], "i32.const 8");
    assert_eq!(bodies[0][1], "i32.const 7");
    assert_eq!(bodies[0][3], "call 0");
    assert_eq!(bodies[0][4], "Drop");
}

#[test]
fn while_loop_branches_out_of_the_block() {
    let body = FunctionBody::Block {
        locals: Vec::new(),
        body: vec![Stmt::While {
            condition: Expr::Param { index: 0, ty: ValueType::I64 },
            body: vec![Stmt::Break, Stmt::Continue],
        }],
    };
    let f = function("spin", vec![ValueType::I64], None, body);
    let ops = function_ops(&f, &[]);
    assert_eq!(
        ops,
        vec![
            WasmOp::Block,
            WasmOp::Loop,
            WasmOp::LocalGet(0),
            WasmOp::I64Eqz,
            WasmOp::BrIf(1),
            WasmOp::Br(1),
            WasmOp::Br(0),
            WasmOp::Br(0),
            WasmOp::End,
            WasmOp::End,
            WasmOp::Return,
            WasmOp::End
        ]
    );
}

#[test]
fn break_outside_a_loop_emits_nothing() {
    let body = FunctionBody::Block { locals: Vec::new(), body: vec![Stmt::Break, Stmt::Continue] };
    let f = function("f", Vec::new(), None, body);
    assert_eq!(function_ops(&f, &[]), vec![WasmOp::Return, WasmOp::End]);
}

#[test]
fn if_with_else_and_comparison_by_operand_type() {
    let condition = Expr::Binary {
        op: BinaryOp::Less,
        left: Box::new(Expr::Param { index: 0, ty: ValueType::I64 }),
        right: Box::new(Expr::ConstI64(5)),
        ty: ValueType::I32,
    };
    let body = FunctionBody::Block {
        locals: Vec::new(),
        body: vec![Stmt::If {
            condition,
            then_body: vec![Stmt::Return { value: Some(Expr::ConstI32(1)) }],
            else_body: vec![Stmt::Return { value: Some(Expr::ConstI32(0)) }],
        }],
    };
    let f = function("lt5", vec![ValueType::I64], Some(ValueType::I32), body);
    assert_eq!(
        function_ops(&f, &[]),
        vec![
            WasmOp::LocalGet(0),
            WasmOp::I64Const(5),
            WasmOp::I64LtS,
            WasmOp::I32Const(0),
            WasmOp::I32Ne,
            WasmOp::If,
            WasmOp::I32Const(1),
            WasmOp::Return,
            WasmOp::Else,
            WasmOp::I32Const(0),
            WasmOp::Return,
            WasmOp::End,
            WasmOp::Return,
            WasmOp::End
        ]
    );
}

#[test]
fn host_functions_are_listed_once_in_order_of_first_use() {
    let read = Expr::StateReadRaw { key_ptr: 0, key_len: 4, out_len_ptr: 8 };
    let gas = Expr::HostCall { function: HostFunction::SystemGetGasRemaining, args: Vec::new() };
    let body = FunctionBody::Block {
        locals: Vec::new(),
        body: vec![
            Stmt::Expr(gas),
            Stmt::Expr(read),
            Stmt::Expr(Expr::HostCall { function: HostFunction::SystemGetGasRemaining, args: Vec::new() }),
        ],
    };
    let module = Module {
        contracts: Vec::new(),
        functions: vec![function("f", Vec::new(), None, body)],
        data_segments: Vec::new(),
    };
    assert_eq!(
        used_host_functions(&module),
        vec![HostFunction::SystemGetGasRemaining, HostFunction::StdStateRead]
    );
    let wasm = emit_wasm(&module).expect("module fits");
    let bodies = decode_function_ops(&wasm);
    assert_eq!(bodies[0][0], "call 0");
    assert_eq!(bodies[0][5], "call 1");
}

fn decode_exports(wasm: &[u8]) -> Vec<String> {
    let mut exports = Vec::new();
    let parser = wasmparser::Parser::new(0);
    for payload in parser.parse_all(wasm) {
        match payload.expect("payload") {
            wasmparser::Payload::ExportSection(section) => {
                for export in section {
                    let export = export.expect("export");
                    if export.kind == wasmparser::ExternalKind::Func {
                        exports.push(export.name.to_string());
                    }
                }
            }
            wasmparser::Payload::End(_) => break,
            _ => {}
        }
    }
    exports
}

fn decode_imports(wasm: &[u8]) -> Vec<(String, String)> {
    let mut imports = Vec::new();
    let parser = wasmparser::Parser::new(0);
    for payload in parser.parse_all(wasm) {
        match payload.expect("payload") {
            wasmparser::Payload::ImportSection(section) => {
                for import in section.into_imports() {
                    let import = import.expect("import");
                    imports.push((import.module.to_string(), import.name.to_string()));
                }
            }
            wasmparser::Payload::End(_) => break,
            _ => {}
        }
    }
    imports
}

fn decode_function_ops(wasm: &[u8]) -> Vec<Vec<String>> {
    let mut bodies = Vec::new();
    let parser = wasmparser::Parser::new(0);
    for payload in parser.parse_all(wasm) {
        match payload.expect("payload") {
            wasmparser::Payload::CodeSectionEntry(body) => {
                let mut ops = Vec::new();
                let mut reader = body.get_operators_reader().expect("operators");
                while !reader.eof() {
                    let op = reader.read().expect("operator");
                    match op {
                        Operator::LocalGet { local_index } => {
                            ops.push(format!("local.get {}", local_index));
                        }
                        Operator::I64Add => ops.push("i64.add".into()),
                        Operator::I64Sub => ops.push("i64.sub".into()),
                        Operator::I64Mul => ops.push("i64.mul".into()),
                        Operator::I64DivU => ops.push("i64.div_u".into()),
                        Operator::I64RemU => ops.push("i64.rem_u".into()),
                        Operator::I32Add => ops.push("i32.add".into()),
                        Operator::I32Sub => ops.push("i32.sub".into()),
                        Operator::I32Mul => ops.push("i32.mul".into()),
                        Operator::I32DivU => ops.push("i32.div_u".into()),
                        Operator::I32RemU => ops.push("i32.rem_u".into()),
                        Operator::I32Const { value } => {
                            ops.push(format!("i32.const {}", value));
                        }
                        Operator::I64Const { value } => {
                            ops.push(format!("i64.const {}", value));
                        }
                        Operator::Call { function_index } => {
                            ops.push(format!("call {}", function_index));
                        }
                        Operator::Return => ops.push("return".into()),
                        Operator::End => ops.push("end".into()),
                        _ => ops.push(format!("{:?}", op)),
                    }
                }
                bodies.push(ops);
            }
            wasmparser::Payload::End(_) => break,
            _ => {}
        }
    }
    bodies
}
