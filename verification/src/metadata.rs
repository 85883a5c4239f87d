//! Compilation metadata: what a compiled module defines, exports and imports, with the digest
//! of its WebAssembly bytes.

use vstd::prelude::*;
use sha2::{Digest, Sha256};
use crate::ir::{Field, HostFunction, Module, Param, ValueType};
use crate::codegen_wasm::{spec_used_hosts, used_host_functions};
use crate::text::{copy_string, from_chars, to_chars};

verus! {

/// The SHA-256 digest of a byte string.
pub uninterp spec fn sha256_digest(data: Seq<u8>) -> Seq<u8>;

/// `Sha256::digest` of `sha2`: the 32-byte SHA-256 digest of the data.
#[verifier::external_body]
fn sha256(data: &[u8]) -> (r: [u8; 32])
    ensures
        r@ == sha256_digest(data@),
{
    let digest = Sha256::digest(data);
    let mut out = [0u8; 32];
    out.copy_from_slice(&digest);
    out
}

/// `Utc::now().to_rfc3339()` of `chrono`: the current time in RFC 3339 form. The result
/// depends on the clock, so nothing is stated of it.
#[verifier::external_body]
fn now_rfc3339() -> (r: String) {
    chrono::Utc::now().to_rfc3339()
}

/// A parameter or field: name and machine type.
#[derive(Debug)]
pub struct FunctionParamMetadata {
    pub name: String,
    pub ty: String,
}

/// A storage field: name and machine type.
#[derive(Debug)]
pub struct StorageFieldMetadata {
    pub name: String,
    pub ty: String,
}

/// A contract method and the names it is called by.
#[derive(Debug)]
pub struct ContractMethodMetadata {
    pub name: String,
    pub selector: String,
    pub export: String,
    pub params: Vec<FunctionParamMetadata>,
    pub return_type: Option<String>,
}

/// A contract: constructor parameters, storage and methods.
#[derive(Debug)]
pub struct ContractMetadata {
    pub name: String,
    pub params: Vec<FunctionParamMetadata>,
    pub storage: Vec<StorageFieldMetadata>,
    pub methods: Vec<ContractMethodMetadata>,
}

/// A free function and its export name.
#[derive(Debug)]
pub struct FreeFunctionMetadata {
    pub name: String,
    pub export: String,
    pub params: Vec<FunctionParamMetadata>,
    pub return_type: Option<String>,
}

/// What a compilation produced.
#[derive(Debug)]
pub struct CompilationMetadata {
    pub metadata_version: String,
    pub compiler_version: String,
    pub generated_at: String,
    pub source_path: Option<String>,
    pub wasm_sha256: String,
    pub wasm_size_bytes: usize,
    pub contracts: Vec<ContractMetadata>,
    pub free_functions: Vec<FreeFunctionMetadata>,
    pub host_functions: Vec<String>,
}

/// The version of the metadata layout, `1.0`.
pub open spec fn spec_metadata_version() -> Seq<char> {
    seq!['1', '.', '0']
}

/// The compiler's version, `0.1.0`.
pub open spec fn spec_compiler_version() -> Seq<char> {
    seq!['0', '.', '1', '.', '0']
}

/// The name of a host function as `<module>::<field>`.
pub open spec fn spec_host_text(h: HostFunction) -> Seq<char> {
    h.spec_module() + seq![':', ':'] + h.spec_field()
}

/// The lowercase hexadecimal digit of a value below 16.
pub open spec fn spec_hex_digit(v: u8) -> char {
    if v < 10 {
        ((v + 48) as u8) as char
    } else {
        ((v + 87) as u8) as char
    }
}

/// Lowercase hexadecimal, two digits per byte, high digit first.
pub open spec fn spec_hex(bytes: Seq<u8>) -> Seq<char>
    decreases bytes.len(),
{
    if bytes.len() == 0 {
        Seq::empty()
    } else {
        spec_hex(bytes.drop_last()) + seq![spec_hex_digit(bytes.last() / 16), spec_hex_digit(bytes.last() % 16)]
    }
}

/// The version of the metadata layout.
fn metadata_version() -> (r: String)
    ensures
        r@ == spec_metadata_version(),
{
    let cs: Vec<char> = vec!['1', '.', '0'];
    from_chars(cs.as_slice())
}

/// The compiler's version.
pub fn compiler_version() -> (r: String)
    ensures
        r@ == spec_compiler_version(),
{
    let cs: Vec<char> = vec!['0', '.', '1', '.', '0'];
    from_chars(cs.as_slice())
}

/// The lowercase hexadecimal digit of a value below 16.
fn hex_digit(v: u8) -> (r: char)
    requires
        v < 16,
    ensures
        r == spec_hex_digit(v),
{
    if v < 10 {
        ((v + 48) as u8) as char
    } else {
        ((v + 87) as u8) as char
    }
}

/// Lowercase hexadecimal of a byte string.
pub fn hex_lower(bytes: &[u8]) -> (r: String)
    ensures
        r@ == spec_hex(bytes@),
{
    let mut cs: Vec<char> = Vec::new();
    let mut i: usize = 0;
    while i < bytes.len()
        invariant
            i <= bytes@.len(),
            cs@ == spec_hex(bytes@.subrange(0, i as int)),
        decreases bytes@.len() - i,
    {
        let b = bytes[i];
        cs.push(hex_digit(b / 16));
        cs.push(hex_digit(b % 16));
        proof {
            let sub = bytes@.subrange(0, i + 1);
            assert(sub.drop_last() =~= bytes@.subrange(0, i as int));
            assert(sub.last() == b);
        }
        i = i + 1;
    }
    assert(bytes@.subrange(0, bytes@.len() as int) =~= bytes@);
    from_chars(cs.as_slice())
}

/// The textual name of a machine type.
pub fn value_type_to_string(value_type: ValueType) -> (r: String)
    ensures
        r@ == value_type.spec_name(),
{
    value_type.name()
}

/// A host function as `<module>::<field>`.
pub fn format_host_function(function: &HostFunction) -> (r: String)
    ensures
        r@ == spec_host_text(*function),
{
    let mut cs = to_chars(function.module().as_str());
    cs.push(':');
    cs.push(':');
    let mut field = to_chars(function.field().as_str());
    cs.append(&mut field);
    assert(cs@ =~= spec_host_text(*function));
    from_chars(cs.as_slice())
}

/// The host functions the module imports, by name, in import order.
pub fn collect_host_functions(module: &Module) -> (r: Vec<String>)
    requires
        module.contracts@.len() < usize::MAX,
    ensures
        r@.len() == spec_used_hosts(*module).len(),
        forall|k: int| 0 <= k < r@.len() ==> #[trigger] r@[k]@ == spec_host_text(spec_used_hosts(*module)[k]),
{
    let hosts = used_host_functions(module);
    let mut r: Vec<String> = Vec::new();
    let mut i: usize = 0;
    while i < hosts.len()
        invariant
            i <= hosts@.len(),
            hosts@ == spec_used_hosts(*module),
            r@.len() == i,
            forall|k: int| 0 <= k < i ==> #[trigger] r@[k]@ == spec_host_text(hosts@[k]),
        decreases hosts@.len() - i,
    {
        r.push(format_host_function(&hosts[i]));
        i = i + 1;
    }
    r
}

impl FunctionParamMetadata {
    /// The metadata of a parameter.
    pub fn from_param(param: &Param) -> (r: Self)
        ensures
            r.name@ == param.name@,
            r.ty@ == param.ty.spec_name(),
    {
        FunctionParamMetadata { name: copy_string(&param.name), ty: value_type_to_string(param.ty) }
    }
}

impl StorageFieldMetadata {
    /// The metadata of a storage field.
    pub fn from_field(field: &Field) -> (r: Self)
        ensures
            r.name@ == field.name@,
            r.ty@ == field.ty.spec_name(),
    {
        StorageFieldMetadata { name: copy_string(&field.name), ty: value_type_to_string(field.ty) }
    }
}

/// Whether `ms` describes the parameters `ps`, one by one.
pub open spec fn params_described(ms: Seq<FunctionParamMetadata>, ps: Seq<Param>) -> bool {
    &&& ms.len() == ps.len()
    &&& forall|k: int| 0 <= k < ps.len() ==> (#[trigger] ms[k]).name@ == ps[k].name@ && ms[k].ty@ == ps[k].ty.spec_name()
}

/// Whether `ms` describes the storage fields `fs`, one by one.
pub open spec fn fields_described(ms: Seq<StorageFieldMetadata>, fs: Seq<Field>) -> bool {
    &&& ms.len() == fs.len()
    &&& forall|k: int| 0 <= k < fs.len() ==> (#[trigger] ms[k]).name@ == fs[k].name@ && ms[k].ty@ == fs[k].ty.spec_name()
}

/// Whether `r` is the textual name of the return type `t`.
pub open spec fn return_described(r: Option<String>, t: Option<ValueType>) -> bool {
    match t {
        Some(v) => r matches Some(s) && s@ == v.spec_name(),
        None => r is None,
    }
}

/// The metadata of a list of parameters.
fn params_metadata(ps: &Vec<Param>) -> (r: Vec<FunctionParamMetadata>)
    ensures
        params_described(r@, ps@),
{
    let mut r: Vec<FunctionParamMetadata> = Vec::new();
    let mut i: usize = 0;
    while i < ps.len()
        invariant
            i <= ps@.len(),
            r@.len() == i,
            forall|k: int| 0 <= k < i ==> (#[trigger] r@[k]).name@ == ps@[k].name@ && r@[k].ty@ == ps@[k].ty.spec_name(),
        decreases ps@.len() - i,
    {
        r.push(FunctionParamMetadata::from_param(&ps[i]));
        i = i + 1;
    }
    r
}

/// The metadata of a list of storage fields.
fn fields_metadata(fs: &Vec<Field>) -> (r: Vec<StorageFieldMetadata>)
    ensures
        fields_described(r@, fs@),
{
    let mut r: Vec<StorageFieldMetadata> = Vec::new();
    let mut i: usize = 0;
    while i < fs.len()
        invariant
            i <= fs@.len(),
            r@.len() == i,
            forall|k: int| 0 <= k < i ==> (#[trigger] r@[k]).name@ == fs@[k].name@ && r@[k].ty@ == fs@[k].ty.spec_name(),
        decreases fs@.len() - i,
    {
        r.push(StorageFieldMetadata::from_field(&fs[i]));
        i = i + 1;
    }
    r
}

/// The name of a return type, if there is one.
fn return_metadata(t: Option<ValueType>) -> (r: Option<String>)
    ensures
        return_described(r, t),
{
    match t {
        Some(v) => Some(value_type_to_string(v)),
        None => None,
    }
}

/// Whether `m` describes contract `c`: its name, parameters, storage, and each method with
/// its selector `<Contract>::<method>` and its runtime export.
pub open spec fn contract_described(m: ContractMetadata, c: crate::ir::Contract) -> bool {
    &&& m.name@ == c.name@
    &&& params_described(m.params@, c.params@)
    &&& fields_described(m.storage@, c.storage@)
    &&& m.methods@.len() == c.functions@.len()
    &&& forall|k: int| 0 <= k < c.functions@.len() ==> {
        let mm = #[trigger] m.methods@[k];
        let f = c.functions@[k];
        &&& mm.name@ == f.name@
        &&& mm.selector@ == crate::abi::spec_selector(c.name@, f.name@)
        &&& mm.export@ == crate::abi::spec_contract_export(c.name@, f.name@)
        &&& params_described(mm.params@, f.params@)
        &&& return_described(mm.return_type, f.return_type)
    }
}

/// Whether `m` describes free function `f`, exported under its own name.
pub open spec fn free_function_described(m: FreeFunctionMetadata, f: crate::ir::Function) -> bool {
    &&& m.name@ == f.name@
    &&& m.export@ == f.name@
    &&& params_described(m.params@, f.params@)
    &&& return_described(m.return_type, f.return_type)
}

/// The metadata of a contract.
fn contract_metadata(c: &crate::ir::Contract) -> (r: ContractMetadata)
    ensures
        contract_described(r, *c),
{
    let mut methods: Vec<ContractMethodMetadata> = Vec::new();
    let mut i: usize = 0;
    while i < c.functions.len()
        invariant
            i <= c.functions@.len(),
            methods@.len() == i,
            forall|k: int| 0 <= k < i ==> {
                let mm = #[trigger] methods@[k];
                let f = c.functions@[k];
                &&& mm.name@ == f.name@
                &&& mm.selector@ == crate::abi::spec_selector(c.name@, f.name@)
                &&& mm.export@ == crate::abi::spec_contract_export(c.name@, f.name@)
                &&& params_described(mm.params@, f.params@)
                &&& return_described(mm.return_type, f.return_type)
            },
        decreases c.functions@.len() - i,
    {
        let f = &c.functions[i];
        methods.push(ContractMethodMetadata {
            name: copy_string(&f.name),
            selector: crate::abi::selector(c.name.as_str(), f.name.as_str()),
            export: crate::abi::contract_export(c.name.as_str(), f.name.as_str()),
            params: params_metadata(&f.params),
            return_type: return_metadata(f.return_type),
        });
        i = i + 1;
    }
    ContractMetadata {
        name: copy_string(&c.name),
        params: params_metadata(&c.params),
        storage: fields_metadata(&c.storage),
        methods,
    }
}

/// The metadata of a free function.
fn free_function_metadata(f: &crate::ir::Function) -> (r: FreeFunctionMetadata)
    ensures
        free_function_described(r, *f),
{
    FreeFunctionMetadata {
        name: copy_string(&f.name),
        export: copy_string(&f.name),
        params: params_metadata(&f.params),
        return_type: return_metadata(f.return_type),
    }
}

/// Whether `r` is the metadata of compiling `module` to `wasm`, generated at `generated_at`
/// from the source at `source_path`.
pub open spec fn metadata_of(
    r: CompilationMetadata,
    module: Module,
    source_path: Option<String>,
    wasm: Seq<u8>,
    generated_at: Seq<char>,
) -> bool {
    &&& r.metadata_version@ == spec_metadata_version()
    &&& r.compiler_version@ == spec_compiler_version()
    &&& r.generated_at@ == generated_at
    &&& r.source_path == source_path
    &&& r.wasm_sha256@ == spec_hex(sha256_digest(wasm))
    &&& r.wasm_size_bytes == wasm.len()
    &&& r.contracts@.len() == module.contracts@.len()
    &&& forall|k: int| 0 <= k < module.contracts@.len() ==> contract_described(#[trigger] r.contracts@[k], module.contracts@[k])
    &&& r.free_functions@.len() == module.functions@.len()
    &&& forall|k: int| 0 <= k < module.functions@.len() ==> free_function_described(
        #[trigger] r.free_functions@[k],
        module.functions@[k],
    )
    &&& r.host_functions@.len() == spec_used_hosts(module).len()
    &&& forall|k: int| 0 <= k < r.host_functions@.len() ==> #[trigger] r.host_functions@[k]@ == spec_host_text(
        spec_used_hosts(module)[k],
    )
}

impl CompilationMetadata {
    /// The metadata of compiling `module` to `wasm`, stamped with the given time.
    pub fn from_ir_at(module: &Module, source_path: Option<String>, wasm: &[u8], generated_at: String) -> (r: Self)
        requires
            module.contracts@.len() < usize::MAX,
        ensures
            metadata_of(r, *module, source_path, wasm@, generated_at@),
    {
        let digest = sha256(wasm);
        let wasm_sha256 = hex_lower(&digest);
        let host_functions = collect_host_functions(module);
        let mut contracts: Vec<ContractMetadata> = Vec::new();
        let mut i: usize = 0;
        while i < module.contracts.len()
            invariant
                i <= module.contracts@.len(),
                contracts@.len() == i,
                forall|k: int| 0 <= k < i ==> contract_described(#[trigger] contracts@[k], module.contracts@[k]),
            decreases module.contracts@.len() - i,
        {
            contracts.push(contract_metadata(&module.contracts[i]));
            i = i + 1;
        }
        let mut free_functions: Vec<FreeFunctionMetadata> = Vec::new();
        let mut j: usize = 0;
        while j < module.functions.len()
            invariant
                j <= module.functions@.len(),
                free_functions@.len() == j,
                forall|k: int| 0 <= k < j ==> free_function_described(#[trigger] free_functions@[k], module.functions@[k]),
            decreases module.functions@.len() - j,
        {
            free_functions.push(free_function_metadata(&module.functions[j]));
            j = j + 1;
        }
        CompilationMetadata {
            metadata_version: metadata_version(),
            compiler_version: compiler_version(),
            generated_at,
            source_path,
            wasm_sha256,
            wasm_size_bytes: wasm.len(),
            contracts,
            free_functions,
            host_functions,
        }
    }

    /// The metadata of compiling `module` to `wasm`, stamped with the current time.
    pub fn from_ir(module: &Module, source_path: Option<String>, wasm: &[u8]) -> (r: Self)
        requires
            module.contracts@.len() < usize::MAX,
        ensures
            exists|t: Seq<char>| metadata_of(r, *module, source_path, wasm@, t),
    {
        let generated_at = now_rfc3339();
        let r = Self::from_ir_at(module, source_path, wasm, generated_at);
        assert(metadata_of(r, *module, source_path, wasm@, r.generated_at@));
        r
    }
}

/// The digest that signs compilation metadata: the SHA-256 of its canonical serialization.
pub fn canonical_metadata_digest(serialized: &[u8]) -> (r: [u8; 32])
    ensures
        r@ == sha256_digest(serialized@),
{
    sha256(serialized)
}

} // verus!
