//! The boundary with `wasm_encoder`.
//!
//! Each encoder value is modelled by what has been added to it: a function body by its local
//! types and its instructions, a section by its entries, a module by its sections. The
//! wrappers below state how each `wasm_encoder` call changes that model. The bytes of the
//! finished module are named, as a function of its sections, by `encoded_module`.
//!
//! `wasm_encoder` asserts that every length it writes fits in 32 bits: names, lists and
//! counts, and the byte size of each function body and of each section. The wrappers rule all
//! of these out. For the byte sizes they use upper bounds, stated below per entry, on what
//! `wasm_encoder` writes: at most 5 bytes for a 32-bit LEB128 number, 10 for a 64-bit one,
//! 4 bytes per character of a name, and at most 16 bytes for any instruction the code
//! generator emits.

use vstd::prelude::*;
use wasm_encoder::{
    CodeSection, ConstExpr, DataSection, EntityType, ExportKind, ExportSection, Function as WasmFunction,
    FunctionSection, ImportSection, Instruction, MemArg, MemoryType, Module as WasmModule, TypeSection, ValType,
    BlockType, MemArgTarget,
};
use crate::codegen_wasm::WasmOp;
use crate::ir::ValueType;

verus! {

#[verifier::external_type_specification]
#[verifier::external_body]
pub struct ExWasmModule(WasmModule);

#[verifier::external_type_specification]
#[verifier::external_body]
pub struct ExWasmFunction(WasmFunction);

#[verifier::external_type_specification]
#[verifier::external_body]
pub struct ExTypeSection(wasm_encoder::TypeSection);

#[verifier::external_type_specification]
#[verifier::external_body]
pub struct ExImportSection(wasm_encoder::ImportSection);

#[verifier::external_type_specification]
#[verifier::external_body]
pub struct ExFunctionSection(wasm_encoder::FunctionSection);

#[verifier::external_type_specification]
#[verifier::external_body]
pub struct ExExportSection(wasm_encoder::ExportSection);

#[verifier::external_type_specification]
#[verifier::external_body]
pub struct ExCodeSection(wasm_encoder::CodeSection);

#[verifier::external_type_specification]
#[verifier::external_body]
pub struct ExDataSection(wasm_encoder::DataSection);

/// An import: the linear memory with its minimum page count, or a function with its module,
/// field and type index.
pub ghost enum ImportView {
    Memory(u64),
    Function(Seq<char>, Seq<char>, u32),
}

/// The contents of a section, in the order its entries were added.
pub ghost enum SectionView {
    Types(Seq<(Seq<ValueType>, Seq<ValueType>)>),
    Imports(Seq<ImportView>),
    Functions(Seq<u32>),
    Exports(Seq<(Seq<char>, u32)>),
    Code(Seq<(Seq<ValueType>, Seq<WasmOp>)>),
    Data(Seq<(i32, Seq<u8>)>),
}

/// The local variable types a function body was created with, one entry per local.
pub uninterp spec fn body_locals(f: WasmFunction) -> Seq<ValueType>;

/// The instructions written into a function body, in order.
pub uninterp spec fn body_ops(f: WasmFunction) -> Seq<WasmOp>;

/// The function types of a type section: parameter types and result types.
pub uninterp spec fn type_entries(s: TypeSection) -> Seq<(Seq<ValueType>, Seq<ValueType>)>;

/// The imports of an import section.
pub uninterp spec fn import_entries(s: ImportSection) -> Seq<ImportView>;

/// The type indices of a function section.
pub uninterp spec fn function_entries(s: FunctionSection) -> Seq<u32>;

/// The function exports of an export section: name and function index.
pub uninterp spec fn export_entries(s: ExportSection) -> Seq<(Seq<char>, u32)>;

/// The function bodies of a code section: local types and instructions.
pub uninterp spec fn code_entries(s: CodeSection) -> Seq<(Seq<ValueType>, Seq<WasmOp>)>;

/// The active data segments of a data section (memory 0): offset and bytes.
pub uninterp spec fn data_entries(s: DataSection) -> Seq<(i32, Seq<u8>)>;

/// The sections written into a module, in order.
pub uninterp spec fn module_sections(m: WasmModule) -> Seq<SectionView>;

/// The bytes of a finished module with the given sections: the binary format's header and
/// each section's encoding, as `wasm_encoder` writes them.
pub uninterp spec fn encoded_module(sections: Seq<SectionView>) -> Seq<u8>;

/// The bytes written for a function type: `0x60`, the parameter and result counts and one
/// byte per value type, at most.
pub open spec fn type_entry_bound(e: (Seq<ValueType>, Seq<ValueType>)) -> int {
    16int + e.0.len() + e.1.len()
}

/// The bytes written for an import: the module and field names with their lengths, the kind
/// and the memory limits or type index, at most.
pub open spec fn import_entry_bound(e: ImportView) -> int {
    match e {
        ImportView::Memory(_) => 32,
        ImportView::Function(module, field, _) => 32int + 4 * module.len() + 4 * field.len(),
    }
}

/// The bytes written for an export: the name with its length, the kind and the index, at most.
pub open spec fn export_entry_bound(e: (Seq<char>, u32)) -> int {
    16int + 4 * e.0.len()
}

/// The bytes of a function body with these locals and instructions, at most: the local count,
/// each local's entry, and each instruction.
pub open spec fn body_bound(locals: Seq<ValueType>, ops: Seq<WasmOp>) -> int {
    5int + 6 * locals.len() + 16 * ops.len()
}

/// The bytes written for an active data segment of memory 0, at most.
pub open spec fn data_entry_bound(e: (i32, Seq<u8>)) -> int {
    24int + e.1.len()
}

/// The bytes of the entries of a type section, at most.
pub open spec fn types_payload(es: Seq<(Seq<ValueType>, Seq<ValueType>)>) -> int
    decreases es.len(),
{
    if es.len() == 0 {
        0
    } else {
        types_payload(es.drop_last()) + type_entry_bound(es.last())
    }
}

/// The bytes of the entries of an import section, at most.
pub open spec fn imports_payload(es: Seq<ImportView>) -> int
    decreases es.len(),
{
    if es.len() == 0 {
        0
    } else {
        imports_payload(es.drop_last()) + import_entry_bound(es.last())
    }
}

/// The bytes of the entries of an export section, at most.
pub open spec fn exports_payload(es: Seq<(Seq<char>, u32)>) -> int
    decreases es.len(),
{
    if es.len() == 0 {
        0
    } else {
        exports_payload(es.drop_last()) + export_entry_bound(es.last())
    }
}

/// The bytes of the entries of a code section, at most: each body with its length in front.
pub open spec fn code_payload(es: Seq<(Seq<ValueType>, Seq<WasmOp>)>) -> int
    decreases es.len(),
{
    if es.len() == 0 {
        0
    } else {
        code_payload(es.drop_last()) + 5 + body_bound(es.last().0, es.last().1)
    }
}

/// The bytes of the entries of a data section, at most.
pub open spec fn data_payload(es: Seq<(i32, Seq<u8>)>) -> int
    decreases es.len(),
{
    if es.len() == 0 {
        0
    } else {
        data_payload(es.drop_last()) + data_entry_bound(es.last())
    }
}

/// The bytes of a section's entries, at most.
pub open spec fn section_payload(s: SectionView) -> int {
    match s {
        SectionView::Types(es) => types_payload(es),
        SectionView::Imports(es) => imports_payload(es),
        SectionView::Functions(es) => 5int * es.len(),
        SectionView::Exports(es) => exports_payload(es),
        SectionView::Code(es) => code_payload(es),
        SectionView::Data(es) => data_payload(es),
    }
}

/// Whether the size of a section, its entry count and entries, fits in 32 bits.
pub open spec fn section_fits(s: SectionView) -> bool {
    5 + section_payload(s) <= 0xffff_ffff
}

/// Whether every section of a module fits, and every function body in its code section.
pub open spec fn module_fits(sections: Seq<SectionView>) -> bool {
    forall|k: int|
        0 <= k < sections.len() ==> section_fits(#[trigger] sections[k]) && (sections[k] matches SectionView::Code(
            es,
        ) ==> forall|j: int| 0 <= j < es.len() ==> body_bound(#[trigger] es[j].0, es[j].1) <= 0xffff_ffff)
}

/// `Module::new`: a module with no sections yet.
#[verifier::external_body]
pub(crate) fn module_new() -> (r: WasmModule)
    ensures
        module_sections(r) == Seq::<SectionView>::empty(),
{
    WasmModule::new()
}

/// `Module::section` with a type section: the section is written after those before it. Its
/// size must fit in 32 bits.
#[verifier::external_body]
pub(crate) fn module_add_types(m: &mut WasmModule, s: &TypeSection)
    requires
        section_fits(SectionView::Types(type_entries(*s))),
    ensures
        module_sections(*final(m)) == module_sections(*old(m)).push(SectionView::Types(type_entries(*s))),
{
    m.section(s);
}

/// `Module::section` with an import section.
#[verifier::external_body]
pub(crate) fn module_add_imports(m: &mut WasmModule, s: &ImportSection)
    requires
        section_fits(SectionView::Imports(import_entries(*s))),
    ensures
        module_sections(*final(m)) == module_sections(*old(m)).push(SectionView::Imports(import_entries(*s))),
{
    m.section(s);
}

/// `Module::section` with a function section.
#[verifier::external_body]
pub(crate) fn module_add_functions(m: &mut WasmModule, s: &FunctionSection)
    requires
        section_fits(SectionView::Functions(function_entries(*s))),
    ensures
        module_sections(*final(m)) == module_sections(*old(m)).push(SectionView::Functions(function_entries(*s))),
{
    m.section(s);
}

/// `Module::section` with an export section.
#[verifier::external_body]
pub(crate) fn module_add_exports(m: &mut WasmModule, s: &ExportSection)
    requires
        section_fits(SectionView::Exports(export_entries(*s))),
    ensures
        module_sections(*final(m)) == module_sections(*old(m)).push(SectionView::Exports(export_entries(*s))),
{
    m.section(s);
}

/// `Module::section` with a code section.
#[verifier::external_body]
pub(crate) fn module_add_code(m: &mut WasmModule, s: &CodeSection)
    requires
        section_fits(SectionView::Code(code_entries(*s))),
    ensures
        module_sections(*final(m)) == module_sections(*old(m)).push(SectionView::Code(code_entries(*s))),
{
    m.section(s);
}

/// `Module::section` with a data section.
#[verifier::external_body]
pub(crate) fn module_add_data(m: &mut WasmModule, s: &DataSection)
    requires
        section_fits(SectionView::Data(data_entries(*s))),
    ensures
        module_sections(*final(m)) == module_sections(*old(m)).push(SectionView::Data(data_entries(*s))),
{
    m.section(s);
}

/// `Module::finish`: the encoded bytes of the module, a function of its sections.
#[verifier::external_body]
pub(crate) fn module_finish(m: WasmModule) -> (r: Vec<u8>)
    ensures
        r@ == encoded_module(module_sections(m)),
{
    m.finish()
}

/// `TypeSection::new`: an empty type section.
#[verifier::external_body]
pub(crate) fn type_section_new() -> (r: TypeSection)
    ensures
        type_entries(r) == Seq::<(Seq<ValueType>, Seq<ValueType>)>::empty(),
{
    TypeSection::new()
}

/// `TypeSection::ty().function`: appends a function type with the given parameter and result
/// types.
#[verifier::external_body]
pub(crate) fn type_section_add(s: &mut TypeSection, params: &[ValueType], results: &[ValueType])
    requires
        type_entries(*old(s)).len() < 0xffff_ffff,
        params@.len() <= 0xffff_ffff,
        results@.len() <= 0xffff_ffff,
    ensures
        type_entries(*final(s)) == type_entries(*old(s)).push((params@, results@)),
{
    let conv = |t: &ValueType| match t {
        ValueType::I32 => ValType::I32,
        ValueType::I64 => ValType::I64,
    };
    s.ty().function(params.iter().map(conv), results.iter().map(conv));
}

/// `ImportSection::new`: an empty import section.
#[verifier::external_body]
pub(crate) fn import_section_new() -> (r: ImportSection)
    ensures
        import_entries(r) == Seq::<ImportView>::empty(),
{
    ImportSection::new()
}

/// `ImportSection::import` of `env.memory`: a 32-bit, unshared memory of at least `pages`
/// pages, without maximum.
#[verifier::external_body]
pub(crate) fn import_memory(s: &mut ImportSection, pages: u64)
    requires
        import_entries(*old(s)).len() < 0xffff_ffff,
    ensures
        import_entries(*final(s)) == import_entries(*old(s)).push(ImportView::Memory(pages)),
{
    let ty = MemoryType { minimum: pages, maximum: None, memory64: false, shared: false, page_size_log2: None };
    s.import("env", "memory", EntityType::Memory(ty));
}

/// `ImportSection::import` of a function of the given type index.
#[verifier::external_body]
pub(crate) fn import_function(s: &mut ImportSection, module: &str, field: &str, type_index: u32)
    requires
        import_entries(*old(s)).len() < 0xffff_ffff,
        module@.len() <= 0x3fff_ffff,
        field@.len() <= 0x3fff_ffff,
    ensures
        import_entries(*final(s)) == import_entries(*old(s)).push(ImportView::Function(module@, field@, type_index)),
{
    s.import(module, field, EntityType::Function(type_index));
}

/// `FunctionSection::new`: an empty function section.
#[verifier::external_body]
pub(crate) fn function_section_new() -> (r: FunctionSection)
    ensures
        function_entries(r) == Seq::<u32>::empty(),
{
    FunctionSection::new()
}

/// `FunctionSection::function`: declares a function of the given type index.
#[verifier::external_body]
pub(crate) fn function_section_add(s: &mut FunctionSection, type_index: u32)
    requires
        function_entries(*old(s)).len() < 0xffff_ffff,
    ensures
        function_entries(*final(s)) == function_entries(*old(s)).push(type_index),
{
    s.function(type_index);
}

/// `ExportSection::new`: an empty export section.
#[verifier::external_body]
pub(crate) fn export_section_new() -> (r: ExportSection)
    ensures
        export_entries(r) == Seq::<(Seq<char>, u32)>::empty(),
{
    ExportSection::new()
}

/// `ExportSection::export` of a function under a name.
#[verifier::external_body]
pub(crate) fn export_function(s: &mut ExportSection, name: &str, index: u32)
    requires
        export_entries(*old(s)).len() < 0xffff_ffff,
        name@.len() <= 0x3fff_ffff,
    ensures
        export_entries(*final(s)) == export_entries(*old(s)).push((name@, index)),
{
    s.export(name, ExportKind::Func, index);
}

/// `CodeSection::new`: an empty code section.
#[verifier::external_body]
pub(crate) fn code_section_new() -> (r: CodeSection)
    ensures
        code_entries(r) == Seq::<(Seq<ValueType>, Seq<WasmOp>)>::empty(),
{
    CodeSection::new()
}

/// `CodeSection::function`: appends a function body, whose size must fit in 32 bits.
#[verifier::external_body]
pub(crate) fn code_section_add(s: &mut CodeSection, f: &WasmFunction)
    requires
        code_entries(*old(s)).len() < 0xffff_ffff,
        body_bound(body_locals(*f), body_ops(*f)) <= 0xffff_ffff,
    ensures
        code_entries(*final(s)) == code_entries(*old(s)).push((body_locals(*f), body_ops(*f))),
{
    s.function(f);
}

/// `DataSection::new`: an empty data section.
#[verifier::external_body]
pub(crate) fn data_section_new() -> (r: DataSection)
    ensures
        data_entries(r) == Seq::<(i32, Seq<u8>)>::empty(),
{
    DataSection::new()
}

/// `DataSection::active`: a segment of memory 0 at the constant offset `offset`.
#[verifier::external_body]
pub(crate) fn data_section_active(s: &mut DataSection, offset: i32, bytes: &[u8])
    requires
        data_entries(*old(s)).len() < 0xffff_ffff,
        bytes@.len() <= 0xffff_ffff,
    ensures
        data_entries(*final(s)) == data_entries(*old(s)).push((offset, bytes@)),
{
    s.active(0, &ConstExpr::i32_const(offset), bytes.iter().copied());
}

/// `Function::new` with one `(1, type)` entry per local: a body with those locals and no
/// instructions yet.
#[verifier::external_body]
pub(crate) fn function_new(locals: &[ValueType]) -> (r: WasmFunction)
    requires
        locals@.len() <= 0xffff_ffff,
    ensures
        body_locals(r) == locals@,
        body_ops(r) == Seq::<WasmOp>::empty(),
{
    WasmFunction::new(locals.iter().map(|t| match t {
        ValueType::I32 => (1, ValType::I32),
        ValueType::I64 => (1, ValType::I64),
    }))
}

/// Appends `local.get` with its immediate to a function body (`Function::instruction` with
/// `Instruction::LocalGet`).
#[verifier::external_body]
fn ins_local_get(f: &mut WasmFunction, x: u32)
    ensures
        body_ops(*final(f)) == body_ops(*old(f)).push(WasmOp::LocalGet(x)),
        body_locals(*final(f)) == body_locals(*old(f)),
{
    f.instruction(&Instruction::LocalGet(x));
}

/// Appends `local.set` with its immediate to a function body (`Function::instruction` with
/// `Instruction::LocalSet`).
#[verifier::external_body]
fn ins_local_set(f: &mut WasmFunction, x: u32)
    ensures
        body_ops(*final(f)) == body_ops(*old(f)).push(WasmOp::LocalSet(x)),
        body_locals(*final(f)) == body_locals(*old(f)),
{
    f.instruction(&Instruction::LocalSet(x));
}

/// Appends `i32.const` with its immediate to a function body (`Function::instruction` with
/// `Instruction::I32Const`).
#[verifier::external_body]
fn ins_i32_const(f: &mut WasmFunction, x: i32)
    ensures
        body_ops(*final(f)) == body_ops(*old(f)).push(WasmOp::I32Const(x)),
        body_locals(*final(f)) == body_locals(*old(f)),
{
    f.instruction(&Instruction::I32Const(x));
}

/// Appends `i64.const` with its immediate to a function body (`Function::instruction` with
/// `Instruction::I64Const`).
#[verifier::external_body]
fn ins_i64_const(f: &mut WasmFunction, x: i64)
    ensures
        body_ops(*final(f)) == body_ops(*old(f)).push(WasmOp::I64Const(x)),
        body_locals(*final(f)) == body_locals(*old(f)),
{
    f.instruction(&Instruction::I64Const(x));
}

/// Appends `call` with its immediate to a function body (`Function::instruction` with
/// `Instruction::Call`).
#[verifier::external_body]
fn ins_call(f: &mut WasmFunction, x: u32)
    ensures
        body_ops(*final(f)) == body_ops(*old(f)).push(WasmOp::Call(x)),
        body_locals(*final(f)) == body_locals(*old(f)),
{
    f.instruction(&Instruction::Call(x));
}

/// Appends `br` with its immediate to a function body (`Function::instruction` with
/// `Instruction::Br`).
#[verifier::external_body]
fn ins_br(f: &mut WasmFunction, x: u32)
    ensures
        body_ops(*final(f)) == body_ops(*old(f)).push(WasmOp::Br(x)),
        body_locals(*final(f)) == body_locals(*old(f)),
{
    f.instruction(&Instruction::Br(x));
}

/// Appends `br_if` with its immediate to a function body (`Function::instruction` with
/// `Instruction::BrIf`).
#[verifier::external_body]
fn ins_br_if(f: &mut WasmFunction, x: u32)
    ensures
        body_ops(*final(f)) == body_ops(*old(f)).push(WasmOp::BrIf(x)),
        body_locals(*final(f)) == body_locals(*old(f)),
{
    f.instruction(&Instruction::BrIf(x));
}

/// Appends `i32.load` with offset 0, alignment 2^2 and memory 0 to a function body
/// (`Function::instruction` with `Instruction::I32Load`).
#[verifier::external_body]
fn ins_i32_load(f: &mut WasmFunction)
    ensures
        body_ops(*final(f)) == body_ops(*old(f)).push(WasmOp::I32Load),
        body_locals(*final(f)) == body_locals(*old(f)),
{
    f.instruction(&Instruction::I32Load(MemArg { offset: 0, align: 2, target: MemArgTarget::Memory(0), ordering: None }));
}

/// Appends `i32.load8_u` with offset 0, alignment 2^0 and memory 0 to a function body
/// (`Function::instruction` with `Instruction::I32Load8U`).
#[verifier::external_body]
fn ins_i32_load8_u(f: &mut WasmFunction)
    ensures
        body_ops(*final(f)) == body_ops(*old(f)).push(WasmOp::I32Load8U),
        body_locals(*final(f)) == body_locals(*old(f)),
{
    f.instruction(&Instruction::I32Load8U(MemArg { offset: 0, align: 0, target: MemArgTarget::Memory(0), ordering: None }));
}

/// Appends `i64.load` with offset 0, alignment 2^3 and memory 0 to a function body
/// (`Function::instruction` with `Instruction::I64Load`).
#[verifier::external_body]
fn ins_i64_load(f: &mut WasmFunction)
    ensures
        body_ops(*final(f)) == body_ops(*old(f)).push(WasmOp::I64Load),
        body_locals(*final(f)) == body_locals(*old(f)),
{
    f.instruction(&Instruction::I64Load(MemArg { offset: 0, align: 3, target: MemArgTarget::Memory(0), ordering: None }));
}

/// Appends `i32.store8` with offset 0, alignment 2^0 and memory 0 to a function body
/// (`Function::instruction` with `Instruction::I32Store8`).
#[verifier::external_body]
fn ins_i32_store8(f: &mut WasmFunction)
    ensures
        body_ops(*final(f)) == body_ops(*old(f)).push(WasmOp::I32Store8),
        body_locals(*final(f)) == body_locals(*old(f)),
{
    f.instruction(&Instruction::I32Store8(MemArg { offset: 0, align: 0, target: MemArgTarget::Memory(0), ordering: None }));
}

/// Appends `i32.store16` with offset 0, alignment 2^1 and memory 0 to a function body
/// (`Function::instruction` with `Instruction::I32Store16`).
#[verifier::external_body]
fn ins_i32_store16(f: &mut WasmFunction)
    ensures
        body_ops(*final(f)) == body_ops(*old(f)).push(WasmOp::I32Store16),
        body_locals(*final(f)) == body_locals(*old(f)),
{
    f.instruction(&Instruction::I32Store16(MemArg { offset: 0, align: 1, target: MemArgTarget::Memory(0), ordering: None }));
}

/// Appends `i32.store` with offset 0, alignment 2^2 and memory 0 to a function body
/// (`Function::instruction` with `Instruction::I32Store`).
#[verifier::external_body]
fn ins_i32_store(f: &mut WasmFunction)
    ensures
        body_ops(*final(f)) == body_ops(*old(f)).push(WasmOp::I32Store),
        body_locals(*final(f)) == body_locals(*old(f)),
{
    f.instruction(&Instruction::I32Store(MemArg { offset: 0, align: 2, target: MemArgTarget::Memory(0), ordering: None }));
}

/// Appends `i64.store` with offset 0, alignment 2^3 and memory 0 to a function body
/// (`Function::instruction` with `Instruction::I64Store`).
#[verifier::external_body]
fn ins_i64_store(f: &mut WasmFunction)
    ensures
        body_ops(*final(f)) == body_ops(*old(f)).push(WasmOp::I64Store),
        body_locals(*final(f)) == body_locals(*old(f)),
{
    f.instruction(&Instruction::I64Store(MemArg { offset: 0, align: 3, target: MemArgTarget::Memory(0), ordering: None }));
}

/// Appends `drop` to a function body (`Function::instruction` with `Instruction::Drop`).
#[verifier::external_body]
fn ins_drop(f: &mut WasmFunction)
    ensures
        body_ops(*final(f)) == body_ops(*old(f)).push(WasmOp::Drop),
        body_locals(*final(f)) == body_locals(*old(f)),
{
    f.instruction(&Instruction::Drop);
}

/// Appends `return` to a function body (`Function::instruction` with `Instruction::Return`).
#[verifier::external_body]
fn ins_return(f: &mut WasmFunction)
    ensures
        body_ops(*final(f)) == body_ops(*old(f)).push(WasmOp::Return),
        body_locals(*final(f)) == body_locals(*old(f)),
{
    f.instruction(&Instruction::Return);
}

/// Appends `if` to a function body (`Function::instruction` with `Instruction::If(BlockType::Empty)`).
#[verifier::external_body]
fn ins_if(f: &mut WasmFunction)
    ensures
        body_ops(*final(f)) == body_ops(*old(f)).push(WasmOp::If),
        body_locals(*final(f)) == body_locals(*old(f)),
{
    f.instruction(&Instruction::If(BlockType::Empty));
}

/// Appends `else` to a function body (`Function::instruction` with `Instruction::Else`).
#[verifier::external_body]
fn ins_else(f: &mut WasmFunction)
    ensures
        body_ops(*final(f)) == body_ops(*old(f)).push(WasmOp::Else),
        body_locals(*final(f)) == body_locals(*old(f)),
{
    f.instruction(&Instruction::Else);
}

/// Appends `end` to a function body (`Function::instruction` with `Instruction::End`).
#[verifier::external_body]
fn ins_end(f: &mut WasmFunction)
    ensures
        body_ops(*final(f)) == body_ops(*old(f)).push(WasmOp::End),
        body_locals(*final(f)) == body_locals(*old(f)),
{
    f.instruction(&Instruction::End);
}

/// Appends `block` to a function body (`Function::instruction` with `Instruction::Block(BlockType::Empty)`).
#[verifier::external_body]
fn ins_block(f: &mut WasmFunction)
    ensures
        body_ops(*final(f)) == body_ops(*old(f)).push(WasmOp::Block),
        body_locals(*final(f)) == body_locals(*old(f)),
{
    f.instruction(&Instruction::Block(BlockType::Empty));
}

/// Appends `loop` to a function body (`Function::instruction` with `Instruction::Loop(BlockType::Empty)`).
#[verifier::external_body]
fn ins_loop(f: &mut WasmFunction)
    ensures
        body_ops(*final(f)) == body_ops(*old(f)).push(WasmOp::Loop),
        body_locals(*final(f)) == body_locals(*old(f)),
{
    f.instruction(&Instruction::Loop(BlockType::Empty));
}

/// Appends `select` to a function body (`Function::instruction` with `Instruction::Select`).
#[verifier::external_body]
fn ins_select(f: &mut WasmFunction)
    ensures
        body_ops(*final(f)) == body_ops(*old(f)).push(WasmOp::Select),
        body_locals(*final(f)) == body_locals(*old(f)),
{
    f.instruction(&Instruction::Select);
}

/// Appends `i32.eqz` to a function body (`Function::instruction` with `Instruction::I32Eqz`).
#[verifier::external_body]
fn ins_i32_eqz(f: &mut WasmFunction)
    ensures
        body_ops(*final(f)) == body_ops(*old(f)).push(WasmOp::I32Eqz),
        body_locals(*final(f)) == body_locals(*old(f)),
{
    f.instruction(&Instruction::I32Eqz);
}

/// Appends `i64.eqz` to a function body (`Function::instruction` with `Instruction::I64Eqz`).
#[verifier::external_body]
fn ins_i64_eqz(f: &mut WasmFunction)
    ensures
        body_ops(*final(f)) == body_ops(*old(f)).push(WasmOp::I64Eqz),
        body_locals(*final(f)) == body_locals(*old(f)),
{
    f.instruction(&Instruction::I64Eqz);
}

/// Appends `i32.add` to a function body (`Function::instruction` with `Instruction::I32Add`).
#[verifier::external_body]
fn ins_i32_add(f: &mut WasmFunction)
    ensures
        body_ops(*final(f)) == body_ops(*old(f)).push(WasmOp::I32Add),
        body_locals(*final(f)) == body_locals(*old(f)),
{
    f.instruction(&Instruction::I32Add);
}

/// Appends `i64.add` to a function body (`Function::instruction` with `Instruction::I64Add`).
#[verifier::external_body]
fn ins_i64_add(f: &mut WasmFunction)
    ensures
        body_ops(*final(f)) == body_ops(*old(f)).push(WasmOp::I64Add),
        body_locals(*final(f)) == body_locals(*old(f)),
{
    f.instruction(&Instruction::I64Add);
}

/// Appends `i32.sub` to a function body (`Function::instruction` with `Instruction::I32Sub`).
#[verifier::external_body]
fn ins_i32_sub(f: &mut WasmFunction)
    ensures
        body_ops(*final(f)) == body_ops(*old(f)).push(WasmOp::I32Sub),
        body_locals(*final(f)) == body_locals(*old(f)),
{
    f.instruction(&Instruction::I32Sub);
}

/// Appends `i64.sub` to a function body (`Function::instruction` with `Instruction::I64Sub`).
#[verifier::external_body]
fn ins_i64_sub(f: &mut WasmFunction)
    ensures
        body_ops(*final(f)) == body_ops(*old(f)).push(WasmOp::I64Sub),
        body_locals(*final(f)) == body_locals(*old(f)),
{
    f.instruction(&Instruction::I64Sub);
}

/// Appends `i32.mul` to a function body (`Function::instruction` with `Instruction::I32Mul`).
#[verifier::external_body]
fn ins_i32_mul(f: &mut WasmFunction)
    ensures
        body_ops(*final(f)) == body_ops(*old(f)).push(WasmOp::I32Mul),
        body_locals(*final(f)) == body_locals(*old(f)),
{
    f.instruction(&Instruction::I32Mul);
}

/// Appends `i64.mul` to a function body (`Function::instruction` with `Instruction::I64Mul`).
#[verifier::external_body]
fn ins_i64_mul(f: &mut WasmFunction)
    ensures
        body_ops(*final(f)) == body_ops(*old(f)).push(WasmOp::I64Mul),
        body_locals(*final(f)) == body_locals(*old(f)),
{
    f.instruction(&Instruction::I64Mul);
}

/// Appends `i32.div_u` to a function body (`Function::instruction` with `Instruction::I32DivU`).
#[verifier::external_body]
fn ins_i32_div_u(f: &mut WasmFunction)
    ensures
        body_ops(*final(f)) == body_ops(*old(f)).push(WasmOp::I32DivU),
        body_locals(*final(f)) == body_locals(*old(f)),
{
    f.instruction(&Instruction::I32DivU);
}

/// Appends `i64.div_u` to a function body (`Function::instruction` with `Instruction::I64DivU`).
#[verifier::external_body]
fn ins_i64_div_u(f: &mut WasmFunction)
    ensures
        body_ops(*final(f)) == body_ops(*old(f)).push(WasmOp::I64DivU),
        body_locals(*final(f)) == body_locals(*old(f)),
{
    f.instruction(&Instruction::I64DivU);
}

/// Appends `i32.rem_u` to a function body (`Function::instruction` with `Instruction::I32RemU`).
#[verifier::external_body]
fn ins_i32_rem_u(f: &mut WasmFunction)
    ensures
        body_ops(*final(f)) == body_ops(*old(f)).push(WasmOp::I32RemU),
        body_locals(*final(f)) == body_locals(*old(f)),
{
    f.instruction(&Instruction::I32RemU);
}

/// Appends `i64.rem_u` to a function body (`Function::instruction` with `Instruction::I64RemU`).
#[verifier::external_body]
fn ins_i64_rem_u(f: &mut WasmFunction)
    ensures
        body_ops(*final(f)) == body_ops(*old(f)).push(WasmOp::I64RemU),
        body_locals(*final(f)) == body_locals(*old(f)),
{
    f.instruction(&Instruction::I64RemU);
}

/// Appends `i32.eq` to a function body (`Function::instruction` with `Instruction::I32Eq`).
#[verifier::external_body]
fn ins_i32_eq(f: &mut WasmFunction)
    ensures
        body_ops(*final(f)) == body_ops(*old(f)).push(WasmOp::I32Eq),
        body_locals(*final(f)) == body_locals(*old(f)),
{
    f.instruction(&Instruction::I32Eq);
}

/// Appends `i64.eq` to a function body (`Function::instruction` with `Instruction::I64Eq`).
#[verifier::external_body]
fn ins_i64_eq(f: &mut WasmFunction)
    ensures
        body_ops(*final(f)) == body_ops(*old(f)).push(WasmOp::I64Eq),
        body_locals(*final(f)) == body_locals(*old(f)),
{
    f.instruction(&Instruction::I64Eq);
}

/// Appends `i32.ne` to a function body (`Function::instruction` with `Instruction::I32Ne`).
#[verifier::external_body]
fn ins_i32_ne(f: &mut WasmFunction)
    ensures
        body_ops(*final(f)) == body_ops(*old(f)).push(WasmOp::I32Ne),
        body_locals(*final(f)) == body_locals(*old(f)),
{
    f.instruction(&Instruction::I32Ne);
}

/// Appends `i64.ne` to a function body (`Function::instruction` with `Instruction::I64Ne`).
#[verifier::external_body]
fn ins_i64_ne(f: &mut WasmFunction)
    ensures
        body_ops(*final(f)) == body_ops(*old(f)).push(WasmOp::I64Ne),
        body_locals(*final(f)) == body_locals(*old(f)),
{
    f.instruction(&Instruction::I64Ne);
}

/// Appends `i32.lt_s` to a function body (`Function::instruction` with `Instruction::I32LtS`).
#[verifier::external_body]
fn ins_i32_lt_s(f: &mut WasmFunction)
    ensures
        body_ops(*final(f)) == body_ops(*old(f)).push(WasmOp::I32LtS),
        body_locals(*final(f)) == body_locals(*old(f)),
{
    f.instruction(&Instruction::I32LtS);
}

/// Appends `i64.lt_s` to a function body (`Function::instruction` with `Instruction::I64LtS`).
#[verifier::external_body]
fn ins_i64_lt_s(f: &mut WasmFunction)
    ensures
        body_ops(*final(f)) == body_ops(*old(f)).push(WasmOp::I64LtS),
        body_locals(*final(f)) == body_locals(*old(f)),
{
    f.instruction(&Instruction::I64LtS);
}

/// Appends `i32.le_s` to a function body (`Function::instruction` with `Instruction::I32LeS`).
#[verifier::external_body]
fn ins_i32_le_s(f: &mut WasmFunction)
    ensures
        body_ops(*final(f)) == body_ops(*old(f)).push(WasmOp::I32LeS),
        body_locals(*final(f)) == body_locals(*old(f)),
{
    f.instruction(&Instruction::I32LeS);
}

/// Appends `i64.le_s` to a function body (`Function::instruction` with `Instruction::I64LeS`).
#[verifier::external_body]
fn ins_i64_le_s(f: &mut WasmFunction)
    ensures
        body_ops(*final(f)) == body_ops(*old(f)).push(WasmOp::I64LeS),
        body_locals(*final(f)) == body_locals(*old(f)),
{
    f.instruction(&Instruction::I64LeS);
}

/// Appends `i32.gt_s` to a function body (`Function::instruction` with `Instruction::I32GtS`).
#[verifier::external_body]
fn ins_i32_gt_s(f: &mut WasmFunction)
    ensures
        body_ops(*final(f)) == body_ops(*old(f)).push(WasmOp::I32GtS),
        body_locals(*final(f)) == body_locals(*old(f)),
{
    f.instruction(&Instruction::I32GtS);
}

/// Appends `i64.gt_s` to a function body (`Function::instruction` with `Instruction::I64GtS`).
#[verifier::external_body]
fn ins_i64_gt_s(f: &mut WasmFunction)
    ensures
        body_ops(*final(f)) == body_ops(*old(f)).push(WasmOp::I64GtS),
        body_locals(*final(f)) == body_locals(*old(f)),
{
    f.instruction(&Instruction::I64GtS);
}

/// Appends `i32.ge_s` to a function body (`Function::instruction` with `Instruction::I32GeS`).
#[verifier::external_body]
fn ins_i32_ge_s(f: &mut WasmFunction)
    ensures
        body_ops(*final(f)) == body_ops(*old(f)).push(WasmOp::I32GeS),
        body_locals(*final(f)) == body_locals(*old(f)),
{
    f.instruction(&Instruction::I32GeS);
}

/// Appends `i64.ge_s` to a function body (`Function::instruction` with `Instruction::I64GeS`).
#[verifier::external_body]
fn ins_i64_ge_s(f: &mut WasmFunction)
    ensures
        body_ops(*final(f)) == body_ops(*old(f)).push(WasmOp::I64GeS),
        body_locals(*final(f)) == body_locals(*old(f)),
{
    f.instruction(&Instruction::I64GeS);
}

/// Appends one instruction to a function body.
pub(crate) fn push_op(f: &mut WasmFunction, op: WasmOp)
    ensures
        body_ops(*final(f)) == body_ops(*old(f)).push(op),
        body_locals(*final(f)) == body_locals(*old(f)),
{
    match op {
        WasmOp::LocalGet(x) => ins_local_get(f, x),
        WasmOp::LocalSet(x) => ins_local_set(f, x),
        WasmOp::I32Const(x) => ins_i32_const(f, x),
        WasmOp::I64Const(x) => ins_i64_const(f, x),
        WasmOp::Call(x) => ins_call(f, x),
        WasmOp::Br(x) => ins_br(f, x),
        WasmOp::BrIf(x) => ins_br_if(f, x),
        WasmOp::I32Load => ins_i32_load(f),
        WasmOp::I32Load8U => ins_i32_load8_u(f),
        WasmOp::I64Load => ins_i64_load(f),
        WasmOp::I32Store8 => ins_i32_store8(f),
        WasmOp::I32Store16 => ins_i32_store16(f),
        WasmOp::I32Store => ins_i32_store(f),
        WasmOp::I64Store => ins_i64_store(f),
        WasmOp::Drop => ins_drop(f),
        WasmOp::Return => ins_return(f),
        WasmOp::If => ins_if(f),
        WasmOp::Else => ins_else(f),
        WasmOp::End => ins_end(f),
        WasmOp::Block => ins_block(f),
        WasmOp::Loop => ins_loop(f),
        WasmOp::Select => ins_select(f),
        WasmOp::I32Eqz => ins_i32_eqz(f),
        WasmOp::I64Eqz => ins_i64_eqz(f),
        WasmOp::I32Add => ins_i32_add(f),
        WasmOp::I64Add => ins_i64_add(f),
        WasmOp::I32Sub => ins_i32_sub(f),
        WasmOp::I64Sub => ins_i64_sub(f),
        WasmOp::I32Mul => ins_i32_mul(f),
        WasmOp::I64Mul => ins_i64_mul(f),
        WasmOp::I32DivU => ins_i32_div_u(f),
        WasmOp::I64DivU => ins_i64_div_u(f),
        WasmOp::I32RemU => ins_i32_rem_u(f),
        WasmOp::I64RemU => ins_i64_rem_u(f),
        WasmOp::I32Eq => ins_i32_eq(f),
        WasmOp::I64Eq => ins_i64_eq(f),
        WasmOp::I32Ne => ins_i32_ne(f),
        WasmOp::I64Ne => ins_i64_ne(f),
        WasmOp::I32LtS => ins_i32_lt_s(f),
        WasmOp::I64LtS => ins_i64_lt_s(f),
        WasmOp::I32LeS => ins_i32_le_s(f),
        WasmOp::I64LeS => ins_i64_le_s(f),
        WasmOp::I32GtS => ins_i32_gt_s(f),
        WasmOp::I64GtS => ins_i64_gt_s(f),
        WasmOp::I32GeS => ins_i32_ge_s(f),
        WasmOp::I64GeS => ins_i64_ge_s(f),
    }
}

/// A function body with the given locals and instructions.
pub(crate) fn encode_function(locals: &[ValueType], ops: &[WasmOp]) -> (r: WasmFunction)
    requires
        locals@.len() <= 0xffff_ffff,
    ensures
        body_locals(r) == locals@,
        body_ops(r) == ops@,
{
    let mut f = function_new(locals);
    let mut i: usize = 0;
    while i < ops.len()
        invariant
            i <= ops@.len(),
            body_locals(f) == locals@,
            body_ops(f) == ops@.subrange(0, i as int),
        decreases ops@.len() - i,
    {
        push_op(&mut f, ops[i]);
        i = i + 1;
        assert(body_ops(f) =~= ops@.subrange(0, i as int));
    }
    assert(ops@.subrange(0, ops@.len() as int) =~= ops@);
    f
}

} // verus!
