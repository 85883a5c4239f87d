//! Semantic analysis for pysub programs.
//!
//! Names must be unique where they are declared together (contracts, storage
//! fields, functions, parameters), map keys must be addresses or bytes, the
//! reserved entry export name may not be defined, and the program must define
//! `main` with the runtime's entry signature.

use vstd::prelude::*;
use crate::ast::{
    spec_type_text, Contract, Function, Param, PrimitiveType,
    Program, Type,
};
use crate::text::{from_chars, str_eq, str_to_string, to_chars, chars_eq};

verus! {

/// Semantic errors.
#[derive(Debug)]
pub enum SemanticError {
    DuplicateContract(String),
    DuplicateStorage { contract: String, field: String },
    DuplicateFunction { contract: String, function: String },
    DuplicateParameter { function: String, param: String },
    UnknownType { ty: String, context: String },
    InvalidMapKeyType { ty: String, context: String },
    MissingEntry(String),
    InvalidEntrySignature { function: String, expected: String, found: String },
    ReservedFunctionName { function: String },
}

impl SemanticError {
    /// The message of the error.
    pub open spec fn spec_text(self) -> Seq<char> {
        match self {
            SemanticError::DuplicateContract(name) => "duplicate contract definition: "@ + name@,
            SemanticError::DuplicateStorage { contract, field } => "duplicate storage field `"@ + field@ + "` in contract `"@ + contract@ + "`"@,
            SemanticError::DuplicateFunction { contract, function } => "duplicate function `"@ + function@ + "` in contract `"@ + contract@ + "`"@,
            SemanticError::DuplicateParameter { function, param } => "duplicate parameter `"@ + param@ + "` in function `"@ + function@ + "`"@,
            SemanticError::UnknownType { ty, context } => "unknown type `"@ + ty@ + "` in "@ + context@,
            SemanticError::InvalidMapKeyType { ty, context } => "invalid map key type `"@ + ty@ + "` in "@ + context@,
            SemanticError::MissingEntry(name) => "missing required entry function `"@ + name@ + "`"@,
            SemanticError::InvalidEntrySignature { function, expected, found } => "invalid signature for entry `"@ + function@ + "`: expected `"@ + expected@ + "`, found `"@ + found@ + "`"@,
            SemanticError::ReservedFunctionName { function } => "`"@ + function@ + "` is a reserved function name"@,
        }
    }

    /// The message of the error, as its `Display` shows it.
    pub fn text(&self) -> (r: String)
        ensures
            r@ == self.spec_text(),
    {
        match self {
            SemanticError::DuplicateContract(name) => {
                let p1 = name.as_str();
                let parts = ["duplicate contract definition: ", p1];
                assert(parts@ == seq!["duplicate contract definition: ", p1]);
                proof {
                    reveal_with_fuel(crate::text::spec_concat, 3);
                }
                crate::text::message(&parts)
            },
            SemanticError::DuplicateStorage { contract, field } => {
                let p1 = field.as_str();
                let p3 = contract.as_str();
                let parts = ["duplicate storage field `", p1, "` in contract `", p3, "`"];
                assert(parts@ == seq!["duplicate storage field `", p1, "` in contract `", p3, "`"]);
                proof {
                    reveal_with_fuel(crate::text::spec_concat, 6);
                }
                crate::text::message(&parts)
            },
            SemanticError::DuplicateFunction { contract, function } => {
                let p1 = function.as_str();
                let p3 = contract.as_str();
                let parts = ["duplicate function `", p1, "` in contract `", p3, "`"];
                assert(parts@ == seq!["duplicate function `", p1, "` in contract `", p3, "`"]);
                proof {
                    reveal_with_fuel(crate::text::spec_concat, 6);
                }
                crate::text::message(&parts)
            },
            SemanticError::DuplicateParameter { function, param } => {
                let p1 = param.as_str();
                let p3 = function.as_str();
                let parts = ["duplicate parameter `", p1, "` in function `", p3, "`"];
                assert(parts@ == seq!["duplicate parameter `", p1, "` in function `", p3, "`"]);
                proof {
                    reveal_with_fuel(crate::text::spec_concat, 6);
                }
                crate::text::message(&parts)
            },
            SemanticError::UnknownType { ty, context } => {
                let p1 = ty.as_str();
                let p3 = context.as_str();
                let parts = ["unknown type `", p1, "` in ", p3];
                assert(parts@ == seq!["unknown type `", p1, "` in ", p3]);
                proof {
                    reveal_with_fuel(crate::text::spec_concat, 5);
                }
                crate::text::message(&parts)
            },
            SemanticError::InvalidMapKeyType { ty, context } => {
                let p1 = ty.as_str();
                let p3 = context.as_str();
                let parts = ["invalid map key type `", p1, "` in ", p3];
                assert(parts@ == seq!["invalid map key type `", p1, "` in ", p3]);
                proof {
                    reveal_with_fuel(crate::text::spec_concat, 5);
                }
                crate::text::message(&parts)
            },
            SemanticError::MissingEntry(name) => {
                let p1 = name.as_str();
                let parts = ["missing required entry function `", p1, "`"];
                assert(parts@ == seq!["missing required entry function `", p1, "`"]);
                proof {
                    reveal_with_fuel(crate::text::spec_concat, 4);
                }
                crate::text::message(&parts)
            },
            SemanticError::InvalidEntrySignature { function, expected, found } => {
                let p1 = function.as_str();
                let p3 = expected.as_str();
                let p5 = found.as_str();
                let parts = ["invalid signature for entry `", p1, "`: expected `", p3, "`, found `", p5, "`"];
                assert(parts@ == seq!["invalid signature for entry `", p1, "`: expected `", p3, "`, found `", p5, "`"]);
                proof {
                    reveal_with_fuel(crate::text::spec_concat, 8);
                }
                crate::text::message(&parts)
            },
            SemanticError::ReservedFunctionName { function } => {
                let p1 = function.as_str();
                let parts = ["`", p1, "` is a reserved function name"];
                assert(parts@ == seq!["`", p1, "` is a reserved function name"]);
                proof {
                    reveal_with_fuel(crate::text::spec_concat, 4);
                }
                crate::text::message(&parts)
            },
        }
    }
}

/// The value of a semantic error.
pub ghost enum SemanticFault {
    DuplicateContract(Seq<char>),
    DuplicateStorage { contract: Seq<char>, field: Seq<char> },
    DuplicateFunction { contract: Seq<char>, function: Seq<char> },
    DuplicateParameter { function: Seq<char>, param: Seq<char> },
    UnknownType { ty: Seq<char>, context: Seq<char> },
    InvalidMapKeyType { ty: Seq<char>, context: Seq<char> },
    MissingEntry(Seq<char>),
    InvalidEntrySignature { function: Seq<char>, expected: Seq<char>, found: Seq<char> },
    ReservedFunctionName { function: Seq<char> },
}

impl SemanticError {
    /// The value of the error.
    pub open spec fn fault(&self) -> SemanticFault {
        match self {
            SemanticError::DuplicateContract(n) => SemanticFault::DuplicateContract(n@),
            SemanticError::DuplicateStorage { contract, field } => SemanticFault::DuplicateStorage {
                contract: contract@,
                field: field@,
            },
            SemanticError::DuplicateFunction { contract, function } => SemanticFault::DuplicateFunction {
                contract: contract@,
                function: function@,
            },
            SemanticError::DuplicateParameter { function, param } => SemanticFault::DuplicateParameter {
                function: function@,
                param: param@,
            },
            SemanticError::UnknownType { ty, context } => SemanticFault::UnknownType { ty: ty@, context: context@ },
            SemanticError::InvalidMapKeyType { ty, context } => SemanticFault::InvalidMapKeyType {
                ty: ty@,
                context: context@,
            },
            SemanticError::MissingEntry(n) => SemanticFault::MissingEntry(n@),
            SemanticError::InvalidEntrySignature { function, expected, found } => SemanticFault::InvalidEntrySignature {
                function: function@,
                expected: expected@,
                found: found@,
            },
            SemanticError::ReservedFunctionName { function } => SemanticFault::ReservedFunctionName {
                function: function@,
            },
        }
    }
}

/// `` `text` ``
pub open spec fn quoted(t: Seq<char>) -> Seq<char> {
    seq!['`'] + t + seq!['`']
}

/// The name reserved for the runtime's entry export.
pub open spec fn reserved_entry() -> Seq<char> {
    crate::abi::spec_entry_export()
}

/// `main`
pub open spec fn main_name() -> Seq<char> {
    seq!['m', 'a', 'i', 'n']
}

/// The fault in a type, if any: a map whose key (at any depth of map values) is neither
/// `address` nor `bytes`.
pub open spec fn spec_type_fault(t: Type, context: Seq<char>) -> Option<SemanticFault>
    decreases t,
{
    match t {
        Type::Primitive(_) => None,
        Type::Mapping { key, value } => {
            if !(*key matches Type::Primitive(p) && (p == PrimitiveType::Address || p == PrimitiveType::Bytes)) {
                Some(SemanticFault::InvalidMapKeyType { ty: spec_type_text(*key), context })
            } else {
                spec_type_fault(*value, context)
            }
        },
    }
}

/// A map keyed by `address` or by `bytes` is a valid key type: the map has exactly the faults of
/// its value type. A map keyed by any other type has a key fault.
pub proof fn law_map_key_types(key: Type, value: Type, context: Seq<char>)
    ensures
        spec_type_fault(
            (Type::Mapping { key: Box::new(Type::Primitive(PrimitiveType::Address)), value: Box::new(value) }),
            context,
        ) == spec_type_fault(value, context),
        spec_type_fault(
            (Type::Mapping { key: Box::new(Type::Primitive(PrimitiveType::Bytes)), value: Box::new(value) }),
            context,
        ) == spec_type_fault(value, context),
        (key != Type::Primitive(PrimitiveType::Address) && key != Type::Primitive(PrimitiveType::Bytes)) ==> (spec_type_fault(
            (Type::Mapping { key: Box::new(key), value: Box::new(value) }),
            context,
        ) is Some),
{
}

/// A primitive type has no fault.
pub proof fn law_primitive_types_are_valid(p: PrimitiveType, context: Seq<char>)
    ensures
        spec_type_fault(Type::Primitive(p), context) is None,
{
}

/// The context of a parameter's type in messages.
pub open spec fn param_context(function: Seq<char>, param: Seq<char>) -> Seq<char> {
    seq!['f', 'u', 'n', 'c', 't', 'i', 'o', 'n', ' '] + quoted(function) + seq![' ', 'p', 'a', 'r', 'a', 'm', 'e', 't', 'e', 'r', ' ']
        + quoted(param)
}

/// The context of a return type in messages.
pub open spec fn return_context(function: Seq<char>) -> Seq<char> {
    seq!['f', 'u', 'n', 'c', 't', 'i', 'o', 'n', ' '] + quoted(function) + seq![' ', 'r', 'e', 't', 'u', 'r', 'n', ' ', 't', 'y', 'p', 'e']
}

/// The context of a storage field's type in messages.
pub open spec fn storage_context(contract: Seq<char>, field: Seq<char>) -> Seq<char> {
    seq!['c', 'o', 'n', 't', 'r', 'a', 'c', 't', ' '] + quoted(contract) + seq![' ', 's', 't', 'o', 'r', 'a', 'g', 'e', ' ']
        + quoted(field)
}

/// Whether parameter `k` repeats the name of an earlier one.
pub open spec fn param_repeats(ps: Seq<Param>, k: int) -> bool {
    exists|j: int| 0 <= j < k && (#[trigger] ps[j]).name.0@ == ps[k].name.0@
}

/// The first fault among the first `n` parameters: each parameter's type is checked, then
/// whether its name repeats.
pub open spec fn spec_params_fault(f: Function, n: int) -> Option<SemanticFault>
    decreases n,
{
    if n <= 0 || n > f.params@.len() {
        None
    } else {
        match spec_params_fault(f, n - 1) {
            Some(x) => Some(x),
            None => {
                let p = f.params@[n - 1];
                match spec_type_fault(p.ty, param_context(f.name.0@, p.name.0@)) {
                    Some(x) => Some(x),
                    None => if param_repeats(f.params@, n - 1) {
                        Some(SemanticFault::DuplicateParameter { function: f.name.0@, param: p.name.0@ })
                    } else {
                        None
                    },
                }
            },
        }
    }
}

/// The first fault of a function: in its parameters, then in its return type.
pub open spec fn spec_function_fault(f: Function) -> Option<SemanticFault> {
    match spec_params_fault(f, f.params@.len() as int) {
        Some(x) => Some(x),
        None => match f.return_type {
            Some(t) => spec_type_fault(t, return_context(f.name.0@)),
            None => None,
        },
    }
}

/// Whether storage field `k` repeats the name of an earlier one.
pub open spec fn storage_repeats(c: Contract, k: int) -> bool {
    exists|j: int| 0 <= j < k && (#[trigger] c.storage@[j]).name.0@ == c.storage@[k].name.0@
}

/// Whether function `k` repeats the name of an earlier one.
pub open spec fn function_repeats(fs: Seq<Function>, k: int) -> bool {
    exists|j: int| 0 <= j < k && (#[trigger] fs[j]).name.0@ == fs[k].name.0@
}

/// The first fault among the first `n` storage fields of a contract.
pub open spec fn spec_storage_fault(c: Contract, n: int) -> Option<SemanticFault>
    decreases n,
{
    if n <= 0 || n > c.storage@.len() {
        None
    } else {
        match spec_storage_fault(c, n - 1) {
            Some(x) => Some(x),
            None => {
                let s = c.storage@[n - 1];
                if storage_repeats(c, n - 1) {
                    Some(SemanticFault::DuplicateStorage { contract: c.name.0@, field: s.name.0@ })
                } else {
                    spec_type_fault(s.ty, storage_context(c.name.0@, s.name.0@))
                }
            },
        }
    }
}

/// The first fault among the first `n` functions of a group named `owner` (a contract, or
/// `<module>` for free functions): a repeated name, a fault of the function, or the
/// reserved entry name.
pub open spec fn spec_functions_fault(fs: Seq<Function>, owner: Seq<char>, n: int) -> Option<SemanticFault>
    decreases n,
{
    if n <= 0 || n > fs.len() {
        None
    } else {
        match spec_functions_fault(fs, owner, n - 1) {
            Some(x) => Some(x),
            None => {
                let f = fs[n - 1];
                if function_repeats(fs, n - 1) {
                    Some(SemanticFault::DuplicateFunction { contract: owner, function: f.name.0@ })
                } else {
                    match spec_function_fault(f) {
                        Some(x) => Some(x),
                        None => if f.name.0@ == reserved_entry() {
                            Some(SemanticFault::ReservedFunctionName { function: reserved_entry() })
                        } else {
                            None
                        },
                    }
                }
            },
        }
    }
}

/// The first fault of a contract: in its storage, then in its functions.
pub open spec fn spec_contract_fault(c: Contract) -> Option<SemanticFault> {
    match spec_storage_fault(c, c.storage@.len() as int) {
        Some(x) => Some(x),
        None => spec_functions_fault(c.functions@, c.name.0@, c.functions@.len() as int),
    }
}

/// Whether contract `k` repeats the name of an earlier one.
pub open spec fn contract_repeats(cs: Seq<Contract>, k: int) -> bool {
    exists|j: int| 0 <= j < k && (#[trigger] cs[j]).name.0@ == cs[k].name.0@
}

/// The first fault among the first `n` contracts.
pub open spec fn spec_contracts_fault(cs: Seq<Contract>, n: int) -> Option<SemanticFault>
    decreases n,
{
    if n <= 0 || n > cs.len() {
        None
    } else {
        match spec_contracts_fault(cs, n - 1) {
            Some(x) => Some(x),
            None => if contract_repeats(cs, n - 1) {
                Some(SemanticFault::DuplicateContract(cs[n - 1].name.0@))
            } else {
                spec_contract_fault(cs[n - 1])
            },
        }
    }
}

/// The parameters the runtime passes to `main`, in order.
pub open spec fn entry_params() -> Seq<(Seq<char>, PrimitiveType)> {
    seq![
        (seq!['s', 'e', 'n', 'd', 'e', 'r'], PrimitiveType::Address),
        (seq!['r', 'e', 'c', 'i', 'p', 'i', 'e', 'n', 't'], PrimitiveType::Address),
        (seq!['a', 'm', 'o', 'u', 'n', 't'], PrimitiveType::U128),
        (seq!['t', 'i', 'm', 'e', 's', 't', 'a', 'm', 'p'], PrimitiveType::U64),
        (seq!['m', 'e', 't', 'a', 'd', 'a', 't', 'a'], PrimitiveType::String),
        (seq!['n', 'o', 'n', 'c', 'e'], PrimitiveType::U64),
        (seq!['s', 'i', 'g', 'n', 'a', 't', 'u', 'r', 'e'], PrimitiveType::Bytes),
        (seq!['s', 'e', 'n', 'd', 'e', 'r', '_', 'p', 'u', 'b', 'k', 'e', 'y'], PrimitiveType::Bytes),
        (seq!['m', 'e', 'm', 'o'], PrimitiveType::String),
    ]
}

/// Whether `f` has an entry signature: no parameters, or exactly the entry parameters, returning `u128`.
pub open spec fn spec_valid_entry(f: Function) -> bool {
    &&& (f.params@.len() == 0 || {
        &&& f.params@.len() == entry_params().len()
        &&& forall|i: int| 0 <= i < entry_params().len() ==> (#[trigger] f.params@[i]).name.0@ == entry_params()[i].0
            && f.params@[i].ty == Type::Primitive(entry_params()[i].1)
    })
    &&& f.return_type == Some(Type::Primitive(PrimitiveType::U128))
}

/// `name: type` for each parameter, joined with `, `.
pub open spec fn spec_params_text(ps: Seq<Param>) -> Seq<char>
    decreases ps.len(),
{
    if ps.len() == 0 {
        Seq::empty()
    } else if ps.len() == 1 {
        ps[0].name.0@ + seq![':', ' '] + spec_type_text(ps[0].ty)
    } else {
        spec_params_text(ps.drop_last()) + seq![',', ' '] + ps.last().name.0@ + seq![':', ' ']
            + spec_type_text(ps.last().ty)
    }
}

/// `fn name(params)`, with ` -> type` when the function returns a value.
pub open spec fn spec_signature_text(f: Function) -> Seq<char> {
    seq!['f', 'n', ' '] + f.name.0@ + seq!['('] + spec_params_text(f.params@) + seq![')'] + match f.return_type {
        Some(t) => seq![' ', '-', '>', ' '] + spec_type_text(t),
        None => Seq::empty(),
    }
}

/// The last free function named `main`.
pub open spec fn spec_find_main(fs: Seq<Function>) -> Option<int>
    decreases fs.len(),
{
    if fs.len() == 0 {
        None
    } else if fs.last().name.0@ == main_name() {
        Some(fs.len() - 1)
    } else {
        spec_find_main(fs.drop_last())
    }
}

/// The first fault of a program: in its contracts, then in its free functions, then a
/// missing `main`, then a `main` without the entry signature.
pub open spec fn spec_program_fault(p: Program, expected: Seq<char>) -> Option<SemanticFault> {
    match spec_contracts_fault(p.contracts@, p.contracts@.len() as int) {
        Some(x) => Some(x),
        None => match spec_functions_fault(
            p.functions@,
            seq!['<', 'm', 'o', 'd', 'u', 'l', 'e', '>'],
            p.functions@.len() as int,
        ) {
            Some(x) => Some(x),
            None => match spec_find_main(p.functions@) {
                None => Some(SemanticFault::MissingEntry(main_name())),
                Some(k) => if spec_valid_entry(p.functions@[k]) {
                    None
                } else {
                    Some(SemanticFault::InvalidEntrySignature {
                        function: main_name(),
                        expected,
                        found: spec_signature_text(p.functions@[k]),
                    })
                },
            },
        },
    }
}


/// The text of the entry signature, for messages.
pub open spec fn expected_signature_text() -> Seq<char> {
    "fn main(sender: address, recipient: address, amount: u128, timestamp: u64, metadata: string, nonce: u64, signature: bytes, sender_pubkey: bytes, memo: string) -> u128"@
}

/// The text of the entry signature, for messages.
fn expected_entry_signature() -> (r: String)
    ensures
        r@ == expected_signature_text(),
{
    str_to_string("fn main(sender: address, recipient: address, amount: u128, timestamp: u64, metadata: string, nonce: u64, signature: bytes, sender_pubkey: bytes, memo: string) -> u128")
}

/// Characters of a string, owned.
fn chars_of(s: &String) -> (r: Vec<char>)
    ensures
        r@ == s@,
{
    to_chars(s.as_str())
}

/// `` `text` `` as characters.
fn quote(t: &[char]) -> (r: Vec<char>)
    ensures
        r@ == quoted(t@),
{
    let mut out: Vec<char> = vec!['`'];
    let mut i: usize = 0;
    while i < t.len()
        invariant
            i <= t@.len(),
            out@ == seq!['`'] + t@.subrange(0, i as int),
        decreases t@.len() - i,
    {
        out.push(t[i]);
        i = i + 1;
        assert(out@ == seq!['`'] + t@.subrange(0, i as int));
    }
    out.push('`');
    assert(t@.subrange(0, t@.len() as int) == t@);
    out
}

/// Appends characters.
fn append_chars(out: &mut Vec<char>, more: &[char])
    ensures
        final(out)@ == old(out)@ + more@,
{
    let mut i: usize = 0;
    while i < more.len()
        invariant
            i <= more@.len(),
            out@ == old(out)@ + more@.subrange(0, i as int),
        decreases more@.len() - i,
    {
        out.push(more[i]);
        i = i + 1;
        assert(out@ == old(out)@ + more@.subrange(0, i as int));
    }
    assert(more@.subrange(0, more@.len() as int) == more@);
}

/// The fault in a type, if any.
fn validate_type(ty: &Type, context: &[char]) -> (r: Result<(), SemanticError>)
    ensures
        match spec_type_fault(*ty, context@) {
            None => r is Ok,
            Some(f) => r matches Err(e) && e.fault() == f,
        },
    decreases ty,
{
    match ty {
        Type::Primitive(_) => Ok(()),
        Type::Mapping { key, value } => {
            let ok_key = match &**key {
                Type::Primitive(PrimitiveType::Address) | Type::Primitive(PrimitiveType::Bytes) => true,
                _ => false,
            };
            if !ok_key {
                let t = key.text();
                return Err(SemanticError::InvalidMapKeyType { ty: from_chars(t.as_slice()), context: from_chars(context) });
            }
            validate_type(value, context)
        },
    }
}

/// Whether an earlier parameter has the name of parameter `k`.
fn param_name_repeats(ps: &[Param], k: usize) -> (r: bool)
    requires
        k < ps@.len(),
    ensures
        r == param_repeats(ps@, k as int),
{
    let mut j: usize = 0;
    while j < k
        invariant
            j <= k < ps@.len(),
            forall|m: int| 0 <= m < j ==> (#[trigger] ps@[m]).name.0@ != ps@[k as int].name.0@,
        decreases k - j,
    {
        if str_eq(ps[j].name.0.as_str(), ps[k].name.0.as_str()) {
            return true;
        }
        j = j + 1;
    }
    false
}

/// The parameter types and names of a function, then its return type.
fn validate_function(function: &Function) -> (r: Result<(), SemanticError>)
    ensures
        match spec_function_fault(*function) {
            None => r is Ok,
            Some(f) => r matches Err(e) && e.fault() == f,
        },
{
    let fname = chars_of(&function.name.0);
    let mut i: usize = 0;
    while i < function.params.len()
        invariant
            i <= function.params@.len(),
            fname@ == function.name.0@,
            spec_params_fault(*function, i as int) is None,
        decreases function.params@.len() - i,
    {
        let p = &function.params[i];
        let pname = chars_of(&p.name.0);
        let mut ctx = vec!['f', 'u', 'n', 'c', 't', 'i', 'o', 'n', ' '];
        let q1 = quote(fname.as_slice());
        append_chars(&mut ctx, q1.as_slice());
        let mid = vec![' ', 'p', 'a', 'r', 'a', 'm', 'e', 't', 'e', 'r', ' '];
        append_chars(&mut ctx, mid.as_slice());
        let q2 = quote(pname.as_slice());
        append_chars(&mut ctx, q2.as_slice());
        assert(ctx@ =~= param_context(function.name.0@, p.name.0@));
        if let Err(e) = validate_type(&p.ty, ctx.as_slice()) {
            proof {
                lemma_params_fault_stays(*function, i as int + 1, function.params@.len() as int);
            }
            return Err(e);
        }
        if param_name_repeats(function.params.as_slice(), i) {
            proof {
                lemma_params_fault_stays(*function, i as int + 1, function.params@.len() as int);
            }
            return Err(SemanticError::DuplicateParameter {
                function: from_chars(fname.as_slice()),
                param: from_chars(pname.as_slice()),
            });
        }
        i = i + 1;
    }
    if let Some(ret) = &function.return_type {
        let mut ctx = vec!['f', 'u', 'n', 'c', 't', 'i', 'o', 'n', ' '];
        let q1 = quote(fname.as_slice());
        append_chars(&mut ctx, q1.as_slice());
        let tail = vec![' ', 'r', 'e', 't', 'u', 'r', 'n', ' ', 't', 'y', 'p', 'e'];
        append_chars(&mut ctx, tail.as_slice());
        assert(ctx@ =~= return_context(function.name.0@));
        return validate_type(ret, ctx.as_slice());
    }
    Ok(())
}

proof fn lemma_params_fault_stays(f: Function, k: int, m: int)
    requires
        0 <= k <= m <= f.params@.len(),
        spec_params_fault(f, k) is Some,
    ensures
        spec_params_fault(f, m) == spec_params_fault(f, k),
    decreases m - k,
{
    if m > k {
        lemma_params_fault_stays(f, k, m - 1);
    }
}

proof fn lemma_storage_fault_stays(c: Contract, k: int, m: int)
    requires
        0 <= k <= m <= c.storage@.len(),
        spec_storage_fault(c, k) is Some,
    ensures
        spec_storage_fault(c, m) == spec_storage_fault(c, k),
    decreases m - k,
{
    if m > k {
        lemma_storage_fault_stays(c, k, m - 1);
    }
}

proof fn lemma_functions_fault_stays(fs: Seq<Function>, owner: Seq<char>, k: int, m: int)
    requires
        0 <= k <= m <= fs.len(),
        spec_functions_fault(fs, owner, k) is Some,
    ensures
        spec_functions_fault(fs, owner, m) == spec_functions_fault(fs, owner, k),
    decreases m - k,
{
    if m > k {
        lemma_functions_fault_stays(fs, owner, k, m - 1);
    }
}

proof fn lemma_contracts_fault_stays(cs: Seq<Contract>, k: int, m: int)
    requires
        0 <= k <= m <= cs.len(),
        spec_contracts_fault(cs, k) is Some,
    ensures
        spec_contracts_fault(cs, m) == spec_contracts_fault(cs, k),
    decreases m - k,
{
    if m > k {
        lemma_contracts_fault_stays(cs, k, m - 1);
    }
}

/// Whether an earlier function has the name of function `k`.
fn function_name_repeats(fs: &[Function], k: usize) -> (r: bool)
    requires
        k < fs@.len(),
    ensures
        r == function_repeats(fs@, k as int),
{
    let mut j: usize = 0;
    while j < k
        invariant
            j <= k < fs@.len(),
            forall|m: int| 0 <= m < j ==> (#[trigger] fs@[m]).name.0@ != fs@[k as int].name.0@,
        decreases k - j,
    {
        if str_eq(fs[j].name.0.as_str(), fs[k].name.0.as_str()) {
            return true;
        }
        j = j + 1;
    }
    false
}

/// Whether the name is the reserved entry export.
fn is_reserved(name: &String) -> (r: bool)
    ensures
        r == (name@ == reserved_entry()),
{
    let reserved = crate::abi::entry_export();
    str_eq(name.as_str(), reserved.as_str())
}

/// The functions of a group, in order.
fn validate_functions(fs: &[Function], owner: &String) -> (r: Result<(), SemanticError>)
    ensures
        match spec_functions_fault(fs@, owner@, fs@.len() as int) {
            None => r is Ok,
            Some(f) => r matches Err(e) && e.fault() == f,
        },
{
    let mut j: usize = 0;
    while j < fs.len()
        invariant
            j <= fs@.len(),
            spec_functions_fault(fs@, owner@, j as int) is None,
        decreases fs@.len() - j,
    {
        if function_name_repeats(fs, j) {
            proof {
                lemma_functions_fault_stays(fs@, owner@, j as int + 1, fs@.len() as int);
            }
            return Err(SemanticError::DuplicateFunction {
                contract: owner.clone(),
                function: fs[j].name.0.clone(),
            });
        }
        if let Err(e) = validate_function(&fs[j]) {
            proof {
                lemma_functions_fault_stays(fs@, owner@, j as int + 1, fs@.len() as int);
            }
            return Err(e);
        }
        if is_reserved(&fs[j].name.0) {
            proof {
                lemma_functions_fault_stays(fs@, owner@, j as int + 1, fs@.len() as int);
            }
            return Err(SemanticError::ReservedFunctionName { function: crate::abi::entry_export() });
        }
        j = j + 1;
    }
    Ok(())
}

/// Whether an earlier storage field has the name of field `k`.
fn storage_name_repeats(c: &Contract, k: usize) -> (r: bool)
    requires
        k < c.storage@.len(),
    ensures
        r == storage_repeats(*c, k as int),
{
    let mut j: usize = 0;
    while j < k
        invariant
            j <= k < c.storage@.len(),
            forall|m: int| 0 <= m < j ==> (#[trigger] c.storage@[m]).name.0@ != c.storage@[k as int].name.0@,
        decreases k - j,
    {
        if str_eq(c.storage[j].name.0.as_str(), c.storage[k].name.0.as_str()) {
            return true;
        }
        j = j + 1;
    }
    false
}

/// A contract's storage fields, then its functions.
fn validate_contract(contract: &Contract) -> (r: Result<(), SemanticError>)
    ensures
        match spec_contract_fault(*contract) {
            None => r is Ok,
            Some(f) => r matches Err(e) && e.fault() == f,
        },
{
    let cname = chars_of(&contract.name.0);
    let mut i: usize = 0;
    while i < contract.storage.len()
        invariant
            i <= contract.storage@.len(),
            cname@ == contract.name.0@,
            spec_storage_fault(*contract, i as int) is None,
        decreases contract.storage@.len() - i,
    {
        let field = &contract.storage[i];
        if storage_name_repeats(contract, i) {
            proof {
                lemma_storage_fault_stays(*contract, i as int + 1, contract.storage@.len() as int);
            }
            return Err(SemanticError::DuplicateStorage {
                contract: contract.name.0.clone(),
                field: field.name.0.clone(),
            });
        }
        let fname = chars_of(&field.name.0);
        let mut ctx = vec!['c', 'o', 'n', 't', 'r', 'a', 'c', 't', ' '];
        let q1 = quote(cname.as_slice());
        append_chars(&mut ctx, q1.as_slice());
        let mid = vec![' ', 's', 't', 'o', 'r', 'a', 'g', 'e', ' '];
        append_chars(&mut ctx, mid.as_slice());
        let q2 = quote(fname.as_slice());
        append_chars(&mut ctx, q2.as_slice());
        assert(ctx@ =~= storage_context(contract.name.0@, field.name.0@));
        if let Err(e) = validate_type(&field.ty, ctx.as_slice()) {
            proof {
                lemma_storage_fault_stays(*contract, i as int + 1, contract.storage@.len() as int);
            }
            return Err(e);
        }
        i = i + 1;
    }
    validate_functions(contract.functions.as_slice(), &contract.name.0)
}

/// Whether an earlier contract has the name of contract `k`.
fn contract_name_repeats(cs: &[Contract], k: usize) -> (r: bool)
    requires
        k < cs@.len(),
    ensures
        r == contract_repeats(cs@, k as int),
{
    let mut j: usize = 0;
    while j < k
        invariant
            j <= k < cs@.len(),
            forall|m: int| 0 <= m < j ==> (#[trigger] cs@[m]).name.0@ != cs@[k as int].name.0@,
        decreases k - j,
    {
        if str_eq(cs[j].name.0.as_str(), cs[k].name.0.as_str()) {
            return true;
        }
        j = j + 1;
    }
    false
}

/// Whether `f` has the entry signature.
fn is_valid_entry_signature(f: &Function) -> (r: bool)
    ensures
        r == spec_valid_entry(*f),
{
    let names: Vec<&str> = vec!["sender", "recipient", "amount", "timestamp", "metadata", "nonce", "signature", "sender_pubkey", "memo"];
    let types: Vec<PrimitiveType> = vec![
        PrimitiveType::Address,
        PrimitiveType::Address,
        PrimitiveType::U128,
        PrimitiveType::U64,
        PrimitiveType::String,
        PrimitiveType::U64,
        PrimitiveType::Bytes,
        PrimitiveType::Bytes,
        PrimitiveType::String,
    ];
    proof {
        reveal_strlit("sender");
        reveal_strlit("recipient");
        reveal_strlit("amount");
        reveal_strlit("timestamp");
        reveal_strlit("metadata");
        reveal_strlit("nonce");
        reveal_strlit("signature");
        reveal_strlit("sender_pubkey");
        reveal_strlit("memo");
        assert forall|i: int| 0 <= i < 9 implies #[trigger] names@[i]@ == entry_params()[i].0
            && types@[i] == entry_params()[i].1 by {
            if i == 0 { assert(names@[0]@ =~= entry_params()[0].0); }
            if i == 1 { assert(names@[1]@ =~= entry_params()[1].0); }
            if i == 2 { assert(names@[2]@ =~= entry_params()[2].0); }
            if i == 3 { assert(names@[3]@ =~= entry_params()[3].0); }
            if i == 4 { assert(names@[4]@ =~= entry_params()[4].0); }
            if i == 5 { assert(names@[5]@ =~= entry_params()[5].0); }
            if i == 6 { assert(names@[6]@ =~= entry_params()[6].0); }
            if i == 7 { assert(names@[7]@ =~= entry_params()[7].0); }
            if i == 8 { assert(names@[8]@ =~= entry_params()[8].0); }
        }
    }
    if f.params.len() == 0 {
        return match &f.return_type {
            Some(Type::Primitive(PrimitiveType::U128)) => true,
            _ => false,
        };
    }
    if f.params.len() != 9 {
        return false;
    }
    let mut i: usize = 0;
    while i < 9
        invariant
            i <= 9,
            f.params@.len() == 9,
            names@.len() == 9,
            types@.len() == 9,
            forall|k: int| 0 <= k < 9 ==> #[trigger] names@[k]@ == entry_params()[k].0 && types@[k] == entry_params()[k].1,
            forall|k: int| 0 <= k < i ==> (#[trigger] f.params@[k]).name.0@ == entry_params()[k].0
                && f.params@[k].ty == Type::Primitive(entry_params()[k].1),
        decreases 9 - i,
    {
        if !str_eq(f.params[i].name.0.as_str(), names[i]) {
            return false;
        }
        let same = match &f.params[i].ty {
            Type::Primitive(p) => *p == types[i],
            _ => false,
        };
        if !same {
            return false;
        }
        i = i + 1;
    }
    match &f.return_type {
        Some(Type::Primitive(PrimitiveType::U128)) => true,
        _ => false,
    }
}

/// `name: type` for each parameter, joined with `, `.
fn params_text(ps: &[Param]) -> (r: Vec<char>)
    ensures
        r@ == spec_params_text(ps@),
{
    let mut out: Vec<char> = Vec::new();
    let mut i: usize = 0;
    while i < ps.len()
        invariant
            i <= ps@.len(),
            out@ == spec_params_text(ps@.subrange(0, i as int)),
        decreases ps@.len() - i,
    {
        let ghost prev = ps@.subrange(0, i as int);
        if i > 0 {
            out.push(',');
            out.push(' ');
        }
        let n = chars_of(&ps[i].name.0);
        append_chars(&mut out, n.as_slice());
        out.push(':');
        out.push(' ');
        let t = ps[i].ty.text();
        append_chars(&mut out, t.as_slice());
        proof {
            let next = ps@.subrange(0, i + 1);
            assert(next.drop_last() == prev);
            assert(next.last() == ps@[i as int]);
            if i == 0 {
                assert(next.len() == 1);
                assert(next[0] == ps@[0]);
            }
        }
        assert(out@ =~= spec_params_text(ps@.subrange(0, i + 1)));
        i = i + 1;
    }
    assert(ps@.subrange(0, ps@.len() as int) == ps@);
    out
}

/// The signature of a function as text.
fn signature_text(f: &Function) -> (r: String)
    ensures
        r@ == spec_signature_text(*f),
{
    let mut out = vec!['f', 'n', ' '];
    let n = chars_of(&f.name.0);
    append_chars(&mut out, n.as_slice());
    out.push('(');
    let p = params_text(f.params.as_slice());
    append_chars(&mut out, p.as_slice());
    out.push(')');
    if let Some(t) = &f.return_type {
        let arrow = vec![' ', '-', '>', ' '];
        append_chars(&mut out, arrow.as_slice());
        let tt = t.text();
        append_chars(&mut out, tt.as_slice());
    }
    assert(out@ =~= spec_signature_text(*f));
    from_chars(out.as_slice())
}

/// The position of the last free function named `main`.
fn find_main(fs: &[Function]) -> (r: Option<usize>)
    ensures
        match r {
            Some(k) => spec_find_main(fs@) == Some(k as int) && k < fs@.len(),
            None => spec_find_main(fs@) is None,
        },
{
    let mut i: usize = fs.len();
    assert(fs@.subrange(0, i as int) == fs@);
    while i > 0
        invariant
            i <= fs@.len(),
            spec_find_main(fs@) == spec_find_main(fs@.subrange(0, i as int)),
        decreases i,
    {
        let m: Vec<char> = vec!['m', 'a', 'i', 'n'];
        let n = chars_of(&fs[i - 1].name.0);
        if chars_eq(n.as_slice(), m.as_slice()) {
            return Some(i - 1);
        }
        assert(fs@.subrange(0, i as int).drop_last() == fs@.subrange(0, i - 1));
        i = i - 1;
    }
    None
}

/// Runs semantic validation on a program.
pub struct SemanticAnalyzer;

impl SemanticAnalyzer {
    /// Validates a program: contracts first (unique names, then each contract), then free
    /// functions (unique names, each function, no reserved name), then the entry `main`.
    pub fn validate(program: &Program) -> (r: Result<(), SemanticError>)
        ensures
            match spec_program_fault(*program, expected_signature_text()) {
                None => r is Ok,
                Some(f) => r matches Err(e) && e.fault() == f,
            },
    {
        let mut i: usize = 0;
        while i < program.contracts.len()
            invariant
                i <= program.contracts@.len(),
                spec_contracts_fault(program.contracts@, i as int) is None,
            decreases program.contracts@.len() - i,
        {
            if contract_name_repeats(program.contracts.as_slice(), i) {
                proof {
                    lemma_contracts_fault_stays(program.contracts@, i as int + 1, program.contracts@.len() as int);
                }
                return Err(SemanticError::DuplicateContract(program.contracts[i].name.0.clone()));
            }
            if let Err(e) = validate_contract(&program.contracts[i]) {
                proof {
                    lemma_contracts_fault_stays(program.contracts@, i as int + 1, program.contracts@.len() as int);
                }
                return Err(e);
            }
            i = i + 1;
        }
        let module_owner = str_to_string("<module>");
        proof {
            reveal_strlit("<module>");
            assert(module_owner@ =~= seq!['<', 'm', 'o', 'd', 'u', 'l', 'e', '>']);
        }
        validate_functions(program.functions.as_slice(), &module_owner)?;
        match find_main(program.functions.as_slice()) {
            None => Err(SemanticError::MissingEntry(from_chars(vec!['m', 'a', 'i', 'n'].as_slice()))),
            Some(k) => {
                if is_valid_entry_signature(&program.functions[k]) {
                    Ok(())
                } else {
                    Err(SemanticError::InvalidEntrySignature {
                        function: from_chars(vec!['m', 'a', 'i', 'n'].as_slice()),
                        expected: expected_entry_signature(),
                        found: signature_text(&program.functions[k]),
                    })
                }
            },
        }
    }
}

/// Runs semantic validation on a program.
pub fn validate_program(program: &Program) -> (r: Result<(), SemanticError>)
    ensures
        match spec_program_fault(*program, expected_signature_text()) {
            None => r is Ok,
            Some(f) => r matches Err(e) && e.fault() == f,
        },
{
    SemanticAnalyzer::validate(program)
}

} // verus!
