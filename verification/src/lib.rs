//! A compiler for the pysub smart-contract language and its YAML-style DSL,
//! with deterministic storage encodings and WebAssembly code generation.

pub mod serialize;
pub mod text;
pub mod abi;
pub mod ir;
pub mod dsl;
pub mod manifest;
pub mod parser;
pub mod ast;
pub mod semantics;
pub mod lower;

use vstd::prelude::*;

verus! {

/// Errors of the pysub pipeline.
#[derive(Debug)]
pub enum CompilerError {
    Parse(parser::ParseError),
    Ast(ast::AstError),
    Semantics(semantics::SemanticError),
    Ir(ir::IrError),
    /// The module has more entries, longer names, or larger sections or function bodies than
    /// the 32-bit counts and lengths of the WebAssembly binary format can hold.
    ModuleTooLarge,
}

/// Parse, build the AST, and run semantic validation for the provided source code.
pub fn compile_source(source: &str) -> (r: Result<ast::Program, CompilerError>)
    ensures
        parser::spec_normalize(source@) matches Err(e) ==> (r matches Err(CompilerError::Parse(
            parser::ParseError::Indentation(x),
        )) && x == e),
        r matches Ok(p) ==> semantics::spec_program_fault(p, semantics::expected_signature_text()) is None,
        match parser::spec_normalize(source@) {
            Ok(n) => match ast::spec_build_program(n) {
                None => r matches Err(CompilerError::Parse(parser::ParseError::Syntax(_))),
                Some(pv) => exists|p: ast::Program|
                    #![trigger p.view()]
                    p@ == pv && match semantics::spec_program_fault(p, semantics::expected_signature_text()) {
                        None => r == Ok::<ast::Program, CompilerError>(p),
                        Some(f) => r matches Err(CompilerError::Semantics(e)) && e.fault() == f,
                    },
            },
            Err(_) => true,
        },
{
    let parsed = match parser::parse_program(source) {
        Ok(p) => p,
        Err(e) => {
            return Err(CompilerError::Parse(e));
        },
    };
    let program = match ast::build_program(&parsed) {
        Ok(p) => p,
        Err(e) => {
            return Err(CompilerError::Ast(e));
        },
    };
    let ghost pv = program@;
    let r = match semantics::validate_program(&program) {
        Ok(()) => Ok(program),
        Err(e) => Err(CompilerError::Semantics(e)),
    };
    assert(pv == program@);
    r
}

/// Whether `m` lowers a program that `source` parses to and that passes semantic validation:
/// its functions and contracts, with their names and machine types.
pub open spec fn spec_lowered_from_source(m: ir::Module, source: Seq<char>) -> bool {
    exists|p: ast::Program|
        #![trigger lower::spec_module_lowered(m, p)]
        lower::spec_module_lowered(m, p) && semantics::spec_program_fault(p, semantics::expected_signature_text())
            is None && match parser::spec_normalize(source) {
            Ok(n) => ast::spec_build_program(n) == Some(p@),
            Err(_) => false,
        }
}

/// Compile pysub source to the intermediate representation.
pub fn compile_to_ir(source: &str) -> (r: Result<ir::Module, CompilerError>)
    ensures
        parser::spec_normalize(source@) matches Err(e) ==> (r matches Err(CompilerError::Parse(
            parser::ParseError::Indentation(x),
        )) && x == e),
        r matches Ok(m) ==> spec_lowered_from_source(m, source@),
{
    let program = compile_source(source)?;
    match ir::lower_to_ir(&program) {
        Ok(m) => {
            assert(lower::spec_module_lowered(m, program));
            Ok(m)
        },
        Err(e) => Err(CompilerError::Ir(e)),
    }
}

/// Compile pysub source directly to WebAssembly bytes.
pub fn compile_to_wasm(source: &str) -> (r: Result<Vec<u8>, CompilerError>)
    ensures
        parser::spec_normalize(source@) matches Err(e) ==> (r matches Err(CompilerError::Parse(
            parser::ParseError::Indentation(x),
        )) && x == e),
        r matches Ok(bytes) ==> exists|m: ir::Module|
            spec_lowered_from_source(m, source@) && codegen_wasm::spec_encodable(m) && encoder::module_fits(
                codegen_wasm::spec_sections(m),
            ) && bytes@ == encoder::encoded_module(codegen_wasm::spec_sections(m)),
{
    let module = compile_to_ir(source)?;
    if !codegen_wasm::encodable(&module) {
        return Err(CompilerError::ModuleTooLarge);
    }
    match codegen_wasm::emit_wasm(&module) {
        Some(bytes) => Ok(bytes),
        None => Err(CompilerError::ModuleTooLarge),
    }
}

} // verus!
pub mod codegen_wasm;
pub mod encoder;
pub mod metadata;
