use pysub_compiler::dsl::{
    DslBinaryOp, DslCallArg, DslExpr, DslFunction, DslLiteral, DslModule, DslParam, DslStateField,
    DslStmt, DslStruct, DslStructField, DslType,
};
use pysub_compiler::ir::{
    Expr as IrExpr, FunctionBody as IrFunctionBody, HostFunction, Stmt as IrStmt, StoreWidth,
    ValueType,
};
use pysub_compiler::manifest::{
    compile_manifest, looks_like_manifest, lower_dsl_module, summarize_manifest, align_u32,
    DataAllocator, Manifest, ManifestArtifact, ManifestArtifacts, ManifestCompileError,
    ManifestEntrypoint, ManifestModule,
};
use pysub_compiler::serialize;

fn empty_entrypoints() -> Vec<(String, String)> {
    Vec::new()
}

#[test]
fn lowers_state_read_for_state_field() {
    let module = DslModule {
        name: "token".to_string(),
        state_fields: vec![DslStateField {
            name: "counter".to_string(),
            ty: DslType::Uint { bits: 64 },
        }],
        structs: Vec::new(),
        functions: vec![DslFunction {
            name: "get_counter".to_string(),
            params: Vec::new(),
            return_type: Some(DslType::Uint { bits: 64 }),
            body: vec![DslStmt::Return(Some(DslExpr::Identifier("counter".to_string())))],
        }],
    };

    let mut data_allocator = DataAllocator::new();
    let functions = lower_dsl_module("token", &module, &empty_entrypoints(), &mut data_allocator)
        .expect("lower module");
    let segments = data_allocator.finish();

    let body = match &functions[0].body {
        IrFunctionBody::Block { body, .. } => body,
        _ => panic!("expected block body"),
    };

    match body.last() {
        Some(IrStmt::Return { value: Some(IrExpr::StateRead { ty, .. }) }) => {
            assert_eq!(*ty, ValueType::I64);
        }
        other => panic!("unexpected return: {other:?}"),
    }

    let key_bytes = serialize::encode_string("counter");
    assert_eq!(segments.len(), 2);
    assert!(segments.iter().any(|segment| segment.bytes == key_bytes));
    assert!(segments.iter().any(|segment| segment.bytes == vec![0, 0, 0, 0]));
}

#[test]
fn lowers_state_write_with_param_buffer() {
    let module = DslModule {
        name: "token".to_string(),
        state_fields: vec![DslStateField {
            name: "balance".to_string(),
            ty: DslType::Uint { bits: 64 },
        }],
        structs: Vec::new(),
        functions: vec![DslFunction {
            name: "set_balance".to_string(),
            params: vec![DslParam {
                name: "amount".to_string(),
                ty: Some(DslType::Uint { bits: 64 }),
            }],
            return_type: None,
            body: vec![DslStmt::Assign {
                target: DslExpr::Identifier("balance".to_string()),
                value: DslExpr::Identifier("amount".to_string()),
            }],
        }],
    };

    let mut data_allocator = DataAllocator::new();
    let functions = lower_dsl_module("token", &module, &empty_entrypoints(), &mut data_allocator)
        .expect("lower module");
    let segments = data_allocator.finish();

    let body = match &functions[0].body {
        IrFunctionBody::Block { body, .. } => body,
        _ => panic!("expected block body"),
    };
    assert_eq!(body.len(), 2);

    let (store_ptr, store_width) = match &body[0] {
        IrStmt::Store { address, value, width } => {
            assert_eq!(*width, StoreWidth::I64);
            assert!(matches!(value, IrExpr::Param { index: 0, ty: ValueType::I64 }));
            match address {
                IrExpr::ConstI32(ptr) => (*ptr, *width),
                _ => panic!("expected const store address"),
            }
        }
        other => panic!("unexpected first stmt: {other:?}"),
    };

    match &body[1] {
        IrStmt::Expr(IrExpr::HostCall { function, args }) => {
            assert_eq!(*function, HostFunction::StdStateWrite);
            assert_eq!(args.len(), 4);
            assert!(matches!(args[0], IrExpr::ConstI32(_)));
            assert!(matches!(args[1], IrExpr::ConstI32(_)));
            assert!(matches!(args[2], IrExpr::ConstI32(ptr) if ptr == store_ptr));
            assert!(matches!(args[3], IrExpr::ConstI32(8)));
        }
        other => panic!("unexpected host call stmt: {other:?}"),
    }

    let key_bytes = serialize::encode_string("balance");
    assert!(segments.iter().any(|segment| segment.bytes == key_bytes));
    assert!(segments.iter().any(|segment| segment.bytes == vec![0; 8]));
    assert_eq!(store_width, StoreWidth::I64);
}

#[test]
fn data_segments_are_aligned_and_disjoint() {
    let mut data = DataAllocator::new();
    let a = data.allocate(vec![1, 2, 3]);
    let b = data.allocate(vec![4]);
    let c = data.allocate(vec![5, 6, 7, 8, 9]);
    assert_eq!((a, b, c), (0, 4, 8));
    assert_eq!(data.next_offset, 13);
    let segments = data.finish();
    assert_eq!(segments.len(), 3);
    assert_eq!(segments[2].bytes, vec![5, 6, 7, 8, 9]);
}

#[test]
fn align_rounds_up_to_multiple() {
    assert_eq!(align_u32(0, 4), 0);
    assert_eq!(align_u32(5, 4), 8);
    assert_eq!(align_u32(8, 4), 8);
    assert_eq!(align_u32(7, 0), 7);
}

#[test]
fn non_entry_functions_get_module_prefix() {
    let module = DslModule {
        name: "token".to_string(),
        state_fields: Vec::new(),
        structs: Vec::new(),
        functions: vec![
            DslFunction { name: "a".to_string(), params: Vec::new(), return_type: None, body: vec![DslStmt::Pass] },
            DslFunction { name: "b".to_string(), params: Vec::new(), return_type: None, body: vec![DslStmt::Pass] },
        ],
    };
    let entries = vec![("token".to_string(), "b".to_string())];
    let mut data = DataAllocator::new();
    let functions = lower_dsl_module("token", &module, &entries, &mut data).expect("lower module");
    assert_eq!(functions[0].name, "token_a");
    assert_eq!(functions[1].name, "b");
}

#[test]
fn return_without_value_in_typed_function_is_mismatch() {
    let module = DslModule {
        name: "m".to_string(),
        state_fields: Vec::new(),
        structs: Vec::new(),
        functions: vec![DslFunction {
            name: "f".to_string(),
            params: Vec::new(),
            return_type: Some(DslType::Uint { bits: 64 }),
            body: vec![DslStmt::Return(None)],
        }],
    };
    let mut data = DataAllocator::new();
    match lower_dsl_module("m", &module, &empty_entrypoints(), &mut data) {
        Err(ManifestCompileError::TypeMismatch { expected, found, .. }) => {
            assert_eq!(expected, ValueType::I64);
            assert_eq!(found, ValueType::I32);
        }
        other => panic!("unexpected: {other:?}"),
    }
}

#[test]
fn unknown_identifier_is_reported() {
    let module = DslModule {
        name: "m".to_string(),
        state_fields: Vec::new(),
        structs: Vec::new(),
        functions: vec![DslFunction {
            name: "f".to_string(),
            params: Vec::new(),
            return_type: Some(DslType::Uint { bits: 64 }),
            body: vec![DslStmt::Return(Some(DslExpr::Identifier("nope".to_string())))],
        }],
    };
    let mut data = DataAllocator::new();
    match lower_dsl_module("m", &module, &empty_entrypoints(), &mut data) {
        Err(ManifestCompileError::UnknownIdentifier { identifier, .. }) => assert_eq!(identifier, "nope"),
        other => panic!("unexpected: {other:?}"),
    }
}

#[test]
fn hex_and_decimal_literals_lower_to_constants() {
    let module = DslModule {
        name: "m".to_string(),
        state_fields: Vec::new(),
        structs: Vec::new(),
        functions: vec![DslFunction {
            name: "f".to_string(),
            params: Vec::new(),
            return_type: Some(DslType::Int { bits: 64 }),
            body: vec![DslStmt::Return(Some(DslExpr::Binary {
                left: Box::new(DslExpr::Literal(DslLiteral::Number("0x10".to_string()))),
                op: DslBinaryOp::Add,
                right: Box::new(DslExpr::Literal(DslLiteral::Number("-2".to_string()))),
            }))],
        }],
    };
    let mut data = DataAllocator::new();
    let functions = lower_dsl_module("m", &module, &empty_entrypoints(), &mut data).expect("lower");
    match &functions[0].body {
        IrFunctionBody::Block { body, .. } => match &body[0] {
            IrStmt::Return { value: Some(IrExpr::Binary { left, right, ty, .. }) } => {
                assert!(matches!(**left, IrExpr::ConstI64(16)));
                assert!(matches!(**right, IrExpr::ConstI64(-2)));
                assert_eq!(*ty, ValueType::I64);
            }
            other => panic!("unexpected: {other:?}"),
        },
        _ => panic!("expected block body"),
    }
}

#[test]
fn struct_literal_state_write_encodes_fields_in_order() {
    let module = DslModule {
        name: "m".to_string(),
        state_fields: Vec::new(),
        structs: vec![DslStruct {
            name: "Pair".to_string(),
            fields: vec![
                DslStructField { name: "a".to_string(), ty: DslType::Bool },
                DslStructField { name: "b".to_string(), ty: DslType::Bool },
            ],
        }],
        functions: vec![DslFunction {
            name: "f".to_string(),
            params: Vec::new(),
            return_type: None,
            body: vec![DslStmt::Expr(DslExpr::Call {
                callee: Box::new(DslExpr::Identifier("state_write".to_string())),
                args: vec![
                    DslCallArg::Positional(DslExpr::Literal(DslLiteral::String("k".to_string()))),
                    DslCallArg::Positional(DslExpr::Call {
                        callee: Box::new(DslExpr::Identifier("Pair".to_string())),
                        args: vec![
                            DslCallArg::Named { name: "b".to_string(), value: DslExpr::Literal(DslLiteral::Bool(false)) },
                            DslCallArg::Named { name: "a".to_string(), value: DslExpr::Literal(DslLiteral::Bool(true)) },
                        ],
                    }),
                ],
            })],
        }],
    };
    let mut data = DataAllocator::new();
    lower_dsl_module("m", &module, &empty_entrypoints(), &mut data).expect("lower");
    let segments = data.finish();
    assert_eq!(segments.len(), 2);
    assert_eq!(segments[0].bytes, serialize::encode_string("k"));
    assert_eq!(segments[1].bytes, vec![10, 0, 0, 0, 1, 0, 0, 0, 1, 1, 0, 0, 0, 0]);
}

#[test]
fn manifest_detection_needs_contract_and_version() {
    assert!(looks_like_manifest("# header\ncontract: token\n  version: 1\n"));
    assert!(!looks_like_manifest("contract: token\n"));
    assert!(!looks_like_manifest("module: x\nversion: 1\n"));
}

fn sample_manifest() -> Manifest {
    Manifest {
        contract: "Token".to_string(),
        version: "1.0".to_string(),
        entrypoint_prefix: None,
        modules: vec![ManifestModule { name: "token".to_string(), path: "token.yaml".to_string() }],
        entrypoints: vec![ManifestEntrypoint { name: "get".to_string(), module: "token".to_string() }],
        artifacts: Some(ManifestArtifacts {
            wasm: Some(ManifestArtifact { path: "out/token.wasm".to_string(), checksum: None }),
        }),
    }
}

#[test]
fn summary_lists_entrypoints_and_resolves_paths() {
    let summary = summarize_manifest("contracts/manifest.yaml", &sample_manifest());
    assert_eq!(summary.contract, "Token");
    assert_eq!(summary.entrypoints, vec!["token::get".to_string()]);
    assert_eq!(summary.module_paths, vec!["contracts/token.yaml".to_string()]);
    assert_eq!(summary.wasm_artifact, Some("contracts/out/token.wasm".to_string()));
}

#[test]
fn compile_manifest_reports_missing_entrypoint() {
    let source = "module: token\nfunctions:\nother():\n    pass\n".to_string();
    match compile_manifest(&sample_manifest(), &[source]) {
        Err(ManifestCompileError::MissingEntrypoint { module, entrypoint }) => {
            assert_eq!(module, "token");
            assert_eq!(entrypoint, "get");
        }
        other => panic!("unexpected: {other:?}"),
    }
}

fn one_function(return_type: Option<DslType>, body: Vec<DslStmt>) -> DslModule {
    DslModule {
        name: "m".to_string(),
        state_fields: Vec::new(),
        structs: Vec::new(),
        functions: vec![DslFunction { name: "f".to_string(), params: Vec::new(), return_type, body }],
    }
}

#[test]
fn negation_lowers_to_subtraction_from_zero() {
    let module = one_function(
        Some(DslType::Int { bits: 64 }),
        vec![DslStmt::Return(Some(DslExpr::Unary {
            op: pysub_compiler::dsl::DslUnaryOp::Neg,
            expr: Box::new(DslExpr::Literal(DslLiteral::Number("5".to_string()))),
        }))],
    );
    let mut data = DataAllocator::new();
    let functions = lower_dsl_module("m", &module, &empty_entrypoints(), &mut data).expect("lower");
    match &functions[0].body {
        IrFunctionBody::Block { body, .. } => match &body[0] {
            IrStmt::Return { value: Some(IrExpr::Binary { left, right, ty, .. }) } => {
                assert!(matches!(**left, IrExpr::ConstI64(0)));
                assert!(matches!(**right, IrExpr::ConstI64(5)));
                assert_eq!(*ty, ValueType::I64);
            }
            other => panic!("unexpected: {other:?}"),
        },
        _ => panic!("expected block body"),
    }
}

#[test]
fn host_call_statement_lowers_to_host_call() {
    let module = one_function(
        None,
        vec![DslStmt::Expr(DslExpr::Call {
            callee: Box::new(DslExpr::Identifier("get_gas_remaining".to_string())),
            args: Vec::new(),
        })],
    );
    let mut data = DataAllocator::new();
    let functions = lower_dsl_module("m", &module, &empty_entrypoints(), &mut data).expect("lower");
    match &functions[0].body {
        IrFunctionBody::Block { body, .. } => match &body[0] {
            IrStmt::Expr(IrExpr::HostCall { function, args }) => {
                assert_eq!(*function, HostFunction::SystemGetGasRemaining);
                assert!(args.is_empty());
            }
            other => panic!("unexpected: {other:?}"),
        },
        _ => panic!("expected block body"),
    }
}

#[test]
fn host_call_arity_mismatch_is_unsupported() {
    let module = one_function(
        None,
        vec![DslStmt::Expr(DslExpr::Call {
            callee: Box::new(DslExpr::Identifier("get_gas_remaining".to_string())),
            args: vec![DslCallArg::Positional(DslExpr::Literal(DslLiteral::Number("1".to_string())))],
        })],
    );
    let mut data = DataAllocator::new();
    let result = lower_dsl_module("m", &module, &empty_entrypoints(), &mut data);
    assert!(matches!(result, Err(ManifestCompileError::UnsupportedExpression { .. })));
}

#[test]
fn mixed_operand_types_are_a_mismatch() {
    let module = one_function(
        Some(DslType::Int { bits: 64 }),
        vec![DslStmt::Return(Some(DslExpr::Binary {
            left: Box::new(DslExpr::Literal(DslLiteral::Number("1".to_string()))),
            op: DslBinaryOp::Add,
            right: Box::new(DslExpr::Literal(DslLiteral::Bool(true))),
        }))],
    );
    let mut data = DataAllocator::new();
    match lower_dsl_module("m", &module, &empty_entrypoints(), &mut data) {
        Err(ManifestCompileError::TypeMismatch { expected, found, .. }) => {
            assert_eq!(expected, ValueType::I64);
            assert_eq!(found, ValueType::I32);
        }
        other => panic!("unexpected: {other:?}"),
    }
}

#[test]
fn let_binding_is_read_back_as_its_local() {
    let module = one_function(
        Some(DslType::Int { bits: 64 }),
        vec![
            DslStmt::Let {
                name: "x".to_string(),
                ty: None,
                value: DslExpr::Literal(DslLiteral::Number("7".to_string())),
            },
            DslStmt::Return(Some(DslExpr::Identifier("x".to_string()))),
        ],
    );
    let mut data = DataAllocator::new();
    let functions = lower_dsl_module("m", &module, &empty_entrypoints(), &mut data).expect("lower");
    match &functions[0].body {
        IrFunctionBody::Block { body, .. } => {
            let slot = match &body[0] {
                IrStmt::Let { local, value: IrExpr::ConstI64(7) } => *local,
                other => panic!("unexpected: {other:?}"),
            };
            match &body[1] {
                IrStmt::Return { value: Some(IrExpr::Local { index, ty }) } => {
                    assert_eq!(*index, slot);
                    assert_eq!(*ty, ValueType::I64);
                }
                other => panic!("unexpected: {other:?}"),
            }
        }
        _ => panic!("expected block body"),
    }
}

#[test]
fn let_with_other_declared_type_is_a_mismatch() {
    let module = one_function(
        None,
        vec![DslStmt::Let {
            name: "x".to_string(),
            ty: Some(DslType::Bool),
            value: DslExpr::Literal(DslLiteral::Number("1".to_string())),
        }],
    );
    let mut data = DataAllocator::new();
    match lower_dsl_module("m", &module, &empty_entrypoints(), &mut data) {
        Err(ManifestCompileError::TypeMismatch { expected, found, .. }) => {
            assert_eq!(expected, ValueType::I32);
            assert_eq!(found, ValueType::I64);
        }
        other => panic!("unexpected: {other:?}"),
    }
}

#[test]
fn assignment_to_a_new_name_declares_a_local() {
    let module = one_function(
        Some(DslType::Bool),
        vec![
            DslStmt::Assign {
                target: DslExpr::Identifier("y".to_string()),
                value: DslExpr::Literal(DslLiteral::Bool(true)),
            },
            DslStmt::Return(Some(DslExpr::Identifier("y".to_string()))),
        ],
    );
    let mut data = DataAllocator::new();
    let functions = lower_dsl_module("m", &module, &empty_entrypoints(), &mut data).expect("lower");
    match &functions[0].body {
        IrFunctionBody::Block { body, .. } => {
            assert!(matches!(&body[0], IrStmt::Let { value: IrExpr::ConstI32(1), .. }));
            assert!(matches!(&body[1], IrStmt::Return { value: Some(IrExpr::Local { ty: ValueType::I32, .. }) }));
        }
        _ => panic!("expected block body"),
    }
}

#[test]
fn assignment_to_a_non_name_is_unsupported() {
    let module = one_function(
        None,
        vec![DslStmt::Assign {
            target: DslExpr::Literal(DslLiteral::Number("1".to_string())),
            value: DslExpr::Literal(DslLiteral::Bool(true)),
        }],
    );
    let mut data = DataAllocator::new();
    let result = lower_dsl_module("m", &module, &empty_entrypoints(), &mut data);
    assert!(matches!(result, Err(ManifestCompileError::UnsupportedStatement { .. })));
}
