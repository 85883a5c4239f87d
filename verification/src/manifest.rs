//! Lowering of DSL modules, as listed by a contract manifest, into the IR.
//!
//! Every module is lowered function by function. State fields are read and
//! written through the host's storage functions, with their keys placed in
//! static data segments handed out by a [`DataAllocator`].

use vstd::prelude::*;
use crate::dsl::{
    DslBinaryOp, DslCallArg, DslExpr, DslFunction, DslLiteral, DslModule, DslParam, DslStateField,
    DslStmt, DslStruct, DslType, DslUnaryOp, TypeView,
};
use crate::ir::{
    BinaryOp, Contract, DataSegment, Expr, ExprView, Function, FunctionBody, HostFunction, Local,
    Module, Param, Stmt, StmtView, StoreWidth, ValueType, exprs_view, stmts_view,
    lemma_exprs_view_index, lemma_exprs_view_push, lemma_stmts_view_append, lemma_stmts_view_index,
    lemma_stmts_view_push,
};
use crate::serialize::{
    encode_bool, encode_bytes, encode_i64, encode_list, encode_map, encode_optional, encode_string,
    spec_encode_bytes, spec_encode_list, spec_encode_map, spec_encode_optional, entries_view,
    byte_vecs_view, EntryView,
};
use crate::text::{
    parse_i64, spec_parse_i64, from_chars, message, starts_with, str_eq, str_to_string, to_chars, trim, lines, spec_trim,
    spec_starts_with, spec_lines, copy_string, copy_range,
};
use vstd::string::StringSliceAdditionalSpecFns;

verus! {

/// Errors of the manifest lowering.
#[derive(Debug)]
pub enum ManifestCompileError {
    MissingModule { module: String },
    MissingEntrypoint { module: String, entrypoint: String },
    InvalidSignature { module: String, signature: String, reason: String },
    UnsupportedType { module: String, ty: String },
    UnsupportedStatement { module: String, statement: String },
    UnsupportedExpression { module: String, expression: String },
    UnknownIdentifier { module: String, identifier: String },
    TypeMismatch { module: String, expected: ValueType, found: ValueType },
}

impl ManifestCompileError {
    /// The message of the error.
    pub open spec fn spec_text(self) -> Seq<char> {
        match self {
            ManifestCompileError::MissingModule { module } => "module `"@ + module@ + "` not found in manifest"@,
            ManifestCompileError::MissingEntrypoint { module, entrypoint } => "entrypoint `"@ + entrypoint@ + "` not found in module `"@ + module@ + "`"@,
            ManifestCompileError::InvalidSignature { module, signature, reason } => "invalid function signature `"@ + signature@ + "` in module `"@ + module@ + "`: "@ + reason@,
            ManifestCompileError::UnsupportedType { module, ty } => "unsupported type `"@ + ty@ + "` in module `"@ + module@ + "`"@,
            ManifestCompileError::UnsupportedStatement { module, statement } => "unsupported statement `"@ + statement@ + "` in module `"@ + module@ + "`"@,
            ManifestCompileError::UnsupportedExpression { module, expression } => "unsupported expression `"@ + expression@ + "` in module `"@ + module@ + "`"@,
            ManifestCompileError::UnknownIdentifier { module, identifier } => "unknown identifier `"@ + identifier@ + "` in module `"@ + module@ + "`"@,
            ManifestCompileError::TypeMismatch { module, expected, found } => "type mismatch in module `"@ + module@ + "`: expected `"@ + expected.spec_name() + "`, found `"@ + found.spec_name() + "`"@,
        }
    }

    /// The message of the error, as its `Display` shows it.
    pub fn text(&self) -> (r: String)
        ensures
            r@ == self.spec_text(),
    {
        match self {
            ManifestCompileError::MissingModule { module } => {
                let p1 = module.as_str();
                let parts = ["module `", p1, "` not found in manifest"];
                assert(parts@ == seq!["module `", p1, "` not found in manifest"]);
                proof {
                    reveal_with_fuel(crate::text::spec_concat, 4);
                }
                crate::text::message(&parts)
            },
            ManifestCompileError::MissingEntrypoint { module, entrypoint } => {
                let p1 = entrypoint.as_str();
                let p3 = module.as_str();
                let parts = ["entrypoint `", p1, "` not found in module `", p3, "`"];
                assert(parts@ == seq!["entrypoint `", p1, "` not found in module `", p3, "`"]);
                proof {
                    reveal_with_fuel(crate::text::spec_concat, 6);
                }
                crate::text::message(&parts)
            },
            ManifestCompileError::InvalidSignature { module, signature, reason } => {
                let p1 = signature.as_str();
                let p3 = module.as_str();
                let p5 = reason.as_str();
                let parts = ["invalid function signature `", p1, "` in module `", p3, "`: ", p5];
                assert(parts@ == seq!["invalid function signature `", p1, "` in module `", p3, "`: ", p5]);
                proof {
                    reveal_with_fuel(crate::text::spec_concat, 7);
                }
                crate::text::message(&parts)
            },
            ManifestCompileError::UnsupportedType { module, ty } => {
                let p1 = ty.as_str();
                let p3 = module.as_str();
                let parts = ["unsupported type `", p1, "` in module `", p3, "`"];
                assert(parts@ == seq!["unsupported type `", p1, "` in module `", p3, "`"]);
                proof {
                    reveal_with_fuel(crate::text::spec_concat, 6);
                }
                crate::text::message(&parts)
            },
            ManifestCompileError::UnsupportedStatement { module, statement } => {
                let p1 = statement.as_str();
                let p3 = module.as_str();
                let parts = ["unsupported statement `", p1, "` in module `", p3, "`"];
                assert(parts@ == seq!["unsupported statement `", p1, "` in module `", p3, "`"]);
                proof {
                    reveal_with_fuel(crate::text::spec_concat, 6);
                }
                crate::text::message(&parts)
            },
            ManifestCompileError::UnsupportedExpression { module, expression } => {
                let p1 = expression.as_str();
                let p3 = module.as_str();
                let parts = ["unsupported expression `", p1, "` in module `", p3, "`"];
                assert(parts@ == seq!["unsupported expression `", p1, "` in module `", p3, "`"]);
                proof {
                    reveal_with_fuel(crate::text::spec_concat, 6);
                }
                crate::text::message(&parts)
            },
            ManifestCompileError::UnknownIdentifier { module, identifier } => {
                let p1 = identifier.as_str();
                let p3 = module.as_str();
                let parts = ["unknown identifier `", p1, "` in module `", p3, "`"];
                assert(parts@ == seq!["unknown identifier `", p1, "` in module `", p3, "`"]);
                proof {
                    reveal_with_fuel(crate::text::spec_concat, 6);
                }
                crate::text::message(&parts)
            },
            ManifestCompileError::TypeMismatch { module, expected, found } => {
                let p1 = module.as_str();
                let p3s = expected.name();
                let p3 = p3s.as_str();
                let p5s = found.name();
                let p5 = p5s.as_str();
                let parts = ["type mismatch in module `", p1, "`: expected `", p3, "`, found `", p5, "`"];
                assert(parts@ == seq!["type mismatch in module `", p1, "`: expected `", p3, "`, found `", p5, "`"]);
                proof {
                    reveal_with_fuel(crate::text::spec_concat, 8);
                }
                crate::text::message(&parts)
            },
        }
    }
}

// ---------------------------------------------------------------------------
// Name maps
// ---------------------------------------------------------------------------

/// What a list of `(name, value)` entries maps `k` to: the value of the last entry named `k`.
pub open spec fn spec_lookup<V>(s: Seq<(String, V)>, k: Seq<char>) -> Option<V>
    decreases s.len(),
{
    if s.len() == 0 {
        None
    } else if s.last().0@ == k {
        Some(s.last().1)
    } else {
        spec_lookup(s.drop_last(), k)
    }
}

/// After an insert, the map holds the inserted value for the inserted name and what it
/// held before for every other name: the last insert of a name wins.
pub proof fn law_lookup_after_insert<V>(entries: Seq<(String, V)>, k: String, v: V, q: Seq<char>)
    ensures
        spec_lookup(entries.push((k, v)), q) == if q == k@ {
            Some(v)
        } else {
            spec_lookup(entries, q)
        },
{
    assert(entries.push((k, v)).drop_last() == entries);
}

/// The number of distinct names among the entries.
pub open spec fn spec_distinct_names<V>(s: Seq<(String, V)>) -> nat
    decreases s.len(),
{
    if s.len() == 0 {
        0
    } else if spec_lookup(s.drop_last(), s.last().0@) is Some {
        spec_distinct_names(s.drop_last())
    } else {
        spec_distinct_names(s.drop_last()) + 1
    }
}

/// A map from names to values; a later insertion under a name hides the earlier ones.
pub struct NameMap<V> {
    pub entries: Vec<(String, V)>,
}

impl<V> NameMap<V> {
    /// The value the map holds for `k`.
    pub open spec fn lookup(&self, k: Seq<char>) -> Option<V> {
        spec_lookup(self.entries@, k)
    }

    /// An empty map.
    pub fn new() -> (r: Self)
        ensures
            r.entries@ == Seq::<(String, V)>::empty(),
    {
        NameMap { entries: Vec::new() }
    }

    /// Maps `k` to `v`.
    pub fn insert(&mut self, k: String, v: V)
        ensures
            final(self).entries@ == old(self).entries@.push((k, v)),
    {
        self.entries.push((k, v));
    }

    /// The position of the entry that holds the value for `k`.
    pub fn position(&self, k: &str) -> (r: Option<usize>)
        ensures
            match r {
                Some(i) => {
                    &&& i < self.entries@.len()
                    &&& self.entries@[i as int].0@ == k@
                    &&& self.lookup(k@) == Some(self.entries@[i as int].1)
                },
                None => self.lookup(k@) is None,
            },
    {
        let mut i: usize = self.entries.len();
        assert(self.entries@.subrange(0, i as int) == self.entries@);
        while i > 0
            invariant
                i <= self.entries@.len(),
                spec_lookup(self.entries@, k@) == spec_lookup(self.entries@.subrange(0, i as int), k@),
            decreases i,
        {
            let ghost s = self.entries@.subrange(0, i as int);
            if str_eq(self.entries[i - 1].0.as_str(), k) {
                return Some(i - 1);
            }
            assert(s.drop_last() == self.entries@.subrange(0, i - 1));
            i = i - 1;
        }
        None
    }

    /// Whether the map holds a value for `k`.
    pub fn contains(&self, k: &str) -> (r: bool)
        ensures
            r == self.lookup(k@) is Some,
    {
        self.position(k).is_some()
    }
}

impl NameMap<(u32, ValueType)> {
    /// The slot and type held for `k`.
    pub fn get_slot(&self, k: &str) -> (r: Option<(u32, ValueType)>)
        ensures
            r == self.lookup(k@),
    {
        match self.position(k) {
            Some(i) => Some(self.entries[i].1),
            None => None,
        }
    }
}

impl NameMap<DslType> {
    /// A copy of the type held for `k`.
    pub fn get_type(&self, k: &str) -> (r: Option<DslType>)
        ensures
            match r {
                Some(t) => self.lookup(k@) matches Some(u) && t@ == u@,
                None => self.lookup(k@) is None,
            },
    {
        match self.position(k) {
            Some(i) => Some(self.entries[i].1.copy()),
            None => None,
        }
    }
}

// ---------------------------------------------------------------------------
// Static data
// ---------------------------------------------------------------------------

/// `value` rounded up to a multiple of `align` (unchanged when `align` is zero).
pub open spec fn spec_align(value: int, align: int) -> int {
    if align == 0 || value % align == 0 {
        value
    } else {
        value + (align - value % align)
    }
}

/// Rounds `value` up to a multiple of `align`.
pub fn align_u32(value: u32, align: u32) -> (r: u32)
    requires
        spec_align(value as int, align as int) <= u32::MAX,
    ensures
        r == spec_align(value as int, align as int),
{
    if align == 0 {
        return value;
    }
    let remainder = value % align;
    if remainder == 0 {
        value
    } else {
        value + (align - remainder)
    }
}

/// The first offset a segment may take after `next`: the next multiple of four, or the top
/// of the 32-bit range when no aligned offset is left there.
pub open spec fn spec_segment_offset(next: u32) -> u32 {
    if next <= u32::MAX - 3 {
        spec_align(next as int, 4) as u32
    } else {
        u32::MAX
    }
}

/// `a + b`, held at the top of the 32-bit range.
pub open spec fn spec_saturating_add(a: int, b: int) -> u32 {
    if a + b >= u32::MAX {
        u32::MAX
    } else {
        (a + b) as u32
    }
}

/// The static data handed out: each segment's offset and bytes, and the next free offset.
pub ghost struct DataV {
    pub segs: Seq<(u32, Seq<u8>)>,
    pub next: u32,
}

/// `d` once `bytes` is placed at the next 4-aligned offset.
pub open spec fn spec_alloc(d: DataV, bytes: Seq<u8>) -> DataV {
    let off = spec_segment_offset(d.next);
    DataV { segs: d.segs.push((off, bytes)), next: spec_saturating_add(off as int, bytes.len() as int) }
}

/// Hands out 4-aligned offsets for static data, one after another.
pub struct DataAllocator {
    pub next_offset: u32,
    pub segments: Vec<DataSegment>,
}

impl DataAllocator {
    /// The data handed out, as a value.
    pub open spec fn dv(&self) -> DataV {
        DataV { segs: self.segments@.map_values(|g: DataSegment| (g.offset, g.bytes@)), next: self.next_offset }
    }

    /// Every segment starts on a multiple of four, lies below `next_offset`, and comes after
    /// the segments handed out before it.
    pub open spec fn layout_ok(&self) -> bool {
        &&& forall|i: int| 0 <= i < self.segments@.len() ==> #[trigger] self.segments@[i].offset % 4 == 0
        &&& forall|i: int| 0 <= i < self.segments@.len()
            ==> #[trigger] self.segments@[i].offset + self.segments@[i].bytes@.len() <= self.next_offset
        &&& forall|i: int, j: int|
            #![trigger self.segments@[i], self.segments@[j]]
            0 <= i < j < self.segments@.len()
            ==> self.segments@[i].offset + self.segments@[i].bytes@.len() <= self.segments@[j].offset
    }

    /// `self` was reached from `prev` by allocations alone: the earlier segments are kept,
    /// the offset only grows, and the layout stays sound while the data fits below the top
    /// of the 32-bit range.
    pub open spec fn extends(&self, prev: &DataAllocator) -> bool {
        &&& prev.segments@.len() <= self.segments@.len()
        &&& forall|i: int| 0 <= i < prev.segments@.len()
            ==> #[trigger] self.segments@[i].offset == prev.segments@[i].offset
            && self.segments@[i].bytes@ == prev.segments@[i].bytes@
        &&& prev.next_offset <= self.next_offset
        &&& (prev.layout_ok() && self.next_offset < u32::MAX ==> self.layout_ok())
    }

    /// Allocation sequences compose.
    pub proof fn lemma_extends_trans(a: &DataAllocator, b: &DataAllocator, c: &DataAllocator)
        requires
            b.extends(a),
            c.extends(b),
        ensures
            c.extends(a),
    {
        assert forall|i: int| 0 <= i < a.segments@.len() implies
            #[trigger] c.segments@[i].offset == a.segments@[i].offset
            && c.segments@[i].bytes@ == a.segments@[i].bytes@ by {
            assert(c.segments@[i].offset == b.segments@[i].offset);
        }
    }

    /// An allocator that has handed out nothing.
    pub fn new() -> (r: Self)
        ensures
            r.next_offset == 0,
            r.segments@.len() == 0,
            r.layout_ok(),
    {
        DataAllocator { next_offset: 0, segments: Vec::new() }
    }

    /// Places `bytes` at the next 4-aligned offset and returns that offset.
    pub fn allocate(&mut self, bytes: Vec<u8>) -> (r: u32)
        ensures
            r == spec_segment_offset(old(self).next_offset),
            final(self).segments@.len() == old(self).segments@.len() + 1,
            forall|i: int| 0 <= i < old(self).segments@.len()
                ==> #[trigger] final(self).segments@[i] == old(self).segments@[i],
            final(self).segments@.last().offset == r,
            final(self).segments@.last().bytes@ == bytes@,
            final(self).next_offset == spec_saturating_add(r as int, bytes@.len() as int),
            final(self).extends(old(self)),
            final(self).dv() == spec_alloc(old(self).dv(), bytes@),
    {
        let offset = if self.next_offset <= u32::MAX - 3 {
            align_u32(self.next_offset, 4)
        } else {
            u32::MAX
        };
        let len = bytes.len();
        let ghost before = *self;
        self.next_offset = if len >= (u32::MAX - offset) as usize {
            u32::MAX
        } else {
            offset + len as u32
        };
        self.segments.push(DataSegment { offset, bytes });
        assert(self.dv().segs =~= before.dv().segs.push((offset, self.segments@.last().bytes@)));
        proof {
            if before.layout_ok() && self.next_offset < u32::MAX {
                let n = before.segments@.len() as int;
                assert forall|i: int, j: int|
                    #![trigger self.segments@[i], self.segments@[j]]
                    0 <= i < j < self.segments@.len() implies
                    self.segments@[i].offset + self.segments@[i].bytes@.len() <= self.segments@[j].offset by {
                    if j < n {
                        assert(self.segments@[j] == before.segments@[j]);
                        assert(self.segments@[i] == before.segments@[i]);
                    } else {
                        assert(self.segments@[i] == before.segments@[i]);
                        assert(before.segments@[i].offset + before.segments@[i].bytes@.len()
                            <= before.next_offset);
                    }
                }
                assert forall|i: int| 0 <= i < self.segments@.len() implies
                    #[trigger] self.segments@[i].offset + self.segments@[i].bytes@.len() <= self.next_offset by {
                    if i < n {
                        assert(self.segments@[i] == before.segments@[i]);
                    }
                }
                assert forall|i: int| 0 <= i < self.segments@.len() implies
                    #[trigger] self.segments@[i].offset % 4 == 0 by {
                    if i < n {
                        assert(self.segments@[i] == before.segments@[i]);
                    }
                }
            }
        }
        offset
    }

    /// The segments handed out, in order.
    pub fn finish(self) -> (r: Vec<DataSegment>)
        ensures
            r@ == self.segments@,
    {
        self.segments
    }
}


// ---------------------------------------------------------------------------
// Types
// ---------------------------------------------------------------------------

/// The machine type a DSL type is lowered to: integers are `i64`, everything else `i32`
/// (a boolean, or a pointer to an encoded value).
pub open spec fn spec_map_type(t: TypeView) -> ValueType {
    match t {
        TypeView::Uint(_) | TypeView::Int(_) => ValueType::I64,
        _ => ValueType::I32,
    }
}

/// Integer types are 64-bit machine values; booleans, byte strings, addresses and every value
/// held in memory are 32-bit ones (a truth value or a pointer).
pub proof fn law_dsl_value_mapping(t: TypeView)
    ensures
        (t is Uint || t is Int) ==> spec_map_type(t) == ValueType::I64,
        !(t is Uint || t is Int) ==> spec_map_type(t) == ValueType::I32,
{
}

/// Whether values of the type live in memory and are handled through a pointer.
pub open spec fn spec_is_pointer(t: TypeView) -> bool {
    match t {
        TypeView::Bool | TypeView::Uint(_) | TypeView::Int(_) => false,
        _ => true,
    }
}

/// Whether the type is an integer type.
pub open spec fn spec_is_integer(t: TypeView) -> bool {
    t is Uint || t is Int
}

/// Whether the type is bytes, a string or an address: a length-prefixed byte string.
pub open spec fn spec_is_byte_string(t: TypeView) -> bool {
    t is Bytes || t is String || t is Address
}

/// The machine type of a DSL type.
fn map_type(_module: &str, ty: &DslType) -> (r: Result<ValueType, ManifestCompileError>)
    ensures
        r == Ok::<ValueType, ManifestCompileError>(spec_map_type(ty@)),
{
    match ty {
        DslType::Uint { .. } | DslType::Int { .. } => Ok(ValueType::I64),
        _ => Ok(ValueType::I32),
    }
}

/// Whether values of the type are handled through a pointer.
fn is_pointer_type(ty: &DslType) -> (r: bool)
    ensures
        r == spec_is_pointer(ty@),
{
    match ty {
        DslType::Bool | DslType::Uint { .. } | DslType::Int { .. } => false,
        _ => true,
    }
}

/// The error for a type the lowering cannot handle at that place.
pub open spec fn is_unsupported_type(e: ManifestCompileError, module: Seq<char>, t: TypeView) -> bool {
    e matches ManifestCompileError::UnsupportedType { module: m, ty } && m@ == module
        && ty@ == crate::dsl::spec_type_text(t)
}

/// The error for a type the lowering cannot handle at that place.
fn unsupported_type(module: &str, ty: &DslType) -> (r: ManifestCompileError)
    ensures
        is_unsupported_type(r, module@, ty@),
{
    let text = ty.type_text();
    ManifestCompileError::UnsupportedType { module: str_to_string(module), ty: from_chars(text.as_slice()) }
}

/// The error for an expression the lowering cannot handle.
pub open spec fn is_unsupported_expression(e: ManifestCompileError, module: Seq<char>) -> bool {
    e matches ManifestCompileError::UnsupportedExpression { module: m, .. } && m@ == module
}

/// The error for an expression the lowering cannot handle, with a description.
fn unsupported_expression(module: &str, what: String) -> (r: ManifestCompileError)
    ensures
        r matches ManifestCompileError::UnsupportedExpression { module: m, expression: x }
            && m@ == module@ && x@ == what@,
{
    ManifestCompileError::UnsupportedExpression { module: str_to_string(module), expression: what }
}

/// The error for a statement the lowering cannot handle.
pub open spec fn is_unsupported_statement(e: ManifestCompileError, module: Seq<char>) -> bool {
    e matches ManifestCompileError::UnsupportedStatement { module: m, .. } && m@ == module
}

/// The error for a statement the lowering cannot handle, with a description.
fn unsupported_statement(module: &str, what: String) -> (r: ManifestCompileError)
    ensures
        r matches ManifestCompileError::UnsupportedStatement { module: m, statement: x }
            && m@ == module@ && x@ == what@,
{
    ManifestCompileError::UnsupportedStatement { module: str_to_string(module), statement: what }
}

/// The error for a name that is neither a local, a parameter nor a state field.
pub open spec fn is_unknown_identifier(e: ManifestCompileError, module: Seq<char>, name: Seq<char>) -> bool {
    e matches ManifestCompileError::UnknownIdentifier { module: m, identifier: i } && m@ == module
        && i@ == name
}

/// The error for a name that is neither a local, a parameter nor a state field.
fn unknown_identifier(module: &str, name: &str) -> (r: ManifestCompileError)
    ensures
        is_unknown_identifier(r, module@, name@),
{
    ManifestCompileError::UnknownIdentifier { module: str_to_string(module), identifier: str_to_string(name) }
}

/// The error for two machine types that should agree.
pub open spec fn is_type_mismatch(
    e: ManifestCompileError,
    module: Seq<char>,
    expected: ValueType,
    found: ValueType,
) -> bool {
    e matches ManifestCompileError::TypeMismatch { module: m, expected: x, found: y } && m@ == module
        && x == expected && y == found
}

/// The error for two machine types that should agree.
fn type_mismatch(module: &str, expected: ValueType, found: ValueType) -> (r: ManifestCompileError)
    ensures
        is_type_mismatch(r, module@, expected, found),
{
    ManifestCompileError::TypeMismatch { module: str_to_string(module), expected, found }
}

/// The `Debug` form of an expression (`format!("{:?}")`), for error messages. Nothing is
/// stated of the text.
#[verifier::external_body]
fn expr_debug(e: &DslExpr) -> String {
    format!("{:?}", e)
}

// ---------------------------------------------------------------------------
// Expression builders
// ---------------------------------------------------------------------------

/// `left + right` on 32-bit values.
pub open spec fn v_add(left: ExprView, right: ExprView) -> ExprView {
    ExprView::Binary { op: BinaryOp::Add, left: Box::new(left), right: Box::new(right), ty: ValueType::I32 }
}

/// The 32-bit constant `v`.
pub open spec fn v_i32(v: i32) -> ExprView {
    ExprView::ConstI32(v)
}

/// The 32-bit local `index`.
pub open spec fn v_local(index: u32) -> ExprView {
    ExprView::Local { index, ty: ValueType::I32 }
}

/// The 32-bit word at `address`.
pub open spec fn v_load_i32(address: ExprView) -> ExprView {
    ExprView::LoadI32(Box::new(address))
}

/// The 64-bit word at `address`.
pub open spec fn v_load_i64(address: ExprView) -> ExprView {
    ExprView::LoadI64(Box::new(address))
}

/// The full length of the length-prefixed value at `ptr`: its prefix plus four.
pub open spec fn v_prefixed_len(ptr: ExprView) -> ExprView {
    v_add(v_load_i32(ptr), v_i32(4))
}

/// Whether the optional at `ptr` holds a value: its tag byte is not zero.
pub open spec fn v_is_some(ptr: ExprView) -> ExprView {
    ExprView::Binary {
        op: BinaryOp::NotEqual,
        left: Box::new(ExprView::LoadI8(Box::new(ptr))),
        right: Box::new(v_i32(0)),
        ty: ValueType::I32,
    }
}

/// Whether the optional at `ptr` is empty: its tag byte is zero.
pub open spec fn v_is_none(ptr: ExprView) -> ExprView {
    ExprView::Binary {
        op: BinaryOp::Equal,
        left: Box::new(ExprView::LoadI8(Box::new(ptr))),
        right: Box::new(v_i32(0)),
        ty: ValueType::I32,
    }
}

/// `e != 0`, as a 32-bit truth value.
pub open spec fn v_boolify(e: ExprView) -> ExprView {
    ExprView::Binary {
        op: BinaryOp::NotEqual,
        left: Box::new(e),
        right: Box::new(
            match e.value_type() {
                ValueType::I32 => ExprView::ConstI32(0),
                ValueType::I64 => ExprView::ConstI64(0),
            },
        ),
        ty: ValueType::I32,
    }
}

/// `left + right` on 32-bit values.
fn add_i32(left: Expr, right: Expr) -> (r: Expr)
    ensures
        r@ == v_add(left@, right@),
{
    Expr::Binary { op: BinaryOp::Add, left: Box::new(left), right: Box::new(right), ty: ValueType::I32 }
}

/// The 32-bit local `index`.
fn local_i32(index: u32) -> (r: Expr)
    ensures
        r@ == v_local(index),
{
    Expr::Local { index, ty: ValueType::I32 }
}

/// The 32-bit word at `address`.
fn load_i32(address: Expr) -> (r: Expr)
    ensures
        r@ == v_load_i32(address@),
{
    Expr::LoadI32 { address: Box::new(address) }
}

/// The 64-bit word at `address`.
fn load_i64(address: Expr) -> (r: Expr)
    ensures
        r@ == v_load_i64(address@),
{
    Expr::LoadI64 { address: Box::new(address) }
}

/// The full length of the length-prefixed value at `ptr`.
fn length_prefixed_len_expr(ptr: Expr) -> (r: Expr)
    ensures
        r@ == v_prefixed_len(ptr@),
{
    add_i32(load_i32(ptr), Expr::ConstI32(4))
}

/// Whether the optional at `base` holds a value.
fn optional_is_some_expr(base: Expr) -> (r: Expr)
    ensures
        r@ == v_is_some(base@),
{
    let tag = Expr::LoadI8 { address: Box::new(base) };
    let zero = Expr::ConstI32(0);
    assert(tag@ == ExprView::LoadI8(Box::new(base@)));
    assert(zero@ == v_i32(0));
    Expr::Binary { op: BinaryOp::NotEqual, left: Box::new(tag), right: Box::new(zero), ty: ValueType::I32 }
}

/// Whether the optional at `base` is empty.
fn optional_is_none_expr(base: Expr) -> (r: Expr)
    ensures
        r@ == v_is_none(base@),
{
    let tag = Expr::LoadI8 { address: Box::new(base) };
    let zero = Expr::ConstI32(0);
    assert(tag@ == ExprView::LoadI8(Box::new(base@)));
    assert(zero@ == v_i32(0));
    Expr::Binary { op: BinaryOp::Equal, left: Box::new(tag), right: Box::new(zero), ty: ValueType::I32 }
}

/// `e != 0`, as a 32-bit truth value.
fn boolify(e: Expr) -> (r: Expr)
    ensures
        r@ == v_boolify(e@),
{
    let zero = match e.value_type() {
        ValueType::I32 => Expr::ConstI32(0),
        ValueType::I64 => Expr::ConstI64(0),
    };
    assert(zero@ == (match e@.value_type() {
        ValueType::I32 => ExprView::ConstI32(0),
        ValueType::I64 => ExprView::ConstI64(0),
    }));
    Expr::Binary { op: BinaryOp::NotEqual, left: Box::new(e), right: Box::new(zero), ty: ValueType::I32 }
}

/// The payload of the optional at `base`, read as a value of type `inner`.
pub open spec fn v_unwrap(inner: TypeView, base: ExprView) -> ExprView {
    let payload = v_add(base, v_i32(1));
    if spec_is_integer(inner) {
        v_load_i64(payload)
    } else if inner is Bool {
        ExprView::LoadI8(Box::new(payload))
    } else {
        payload
    }
}

/// The payload of the optional at `base`.
fn optional_unwrap_expr(_module: &str, inner: &DslType, base: Expr) -> (r: Result<Expr, ManifestCompileError>)
    ensures
        r matches Ok(e) && e@ == v_unwrap(inner@, base@),
{
    let payload = add_i32(base, Expr::ConstI32(1));
    match inner {
        DslType::Uint { .. } | DslType::Int { .. } => Ok(load_i64(payload)),
        DslType::Bool => Ok(Expr::LoadI8 { address: Box::new(payload) }),
        _ => Ok(payload),
    }
}

/// The encoded length of the optional at `ptr` holding a value of type `inner`.
pub open spec fn v_optional_len(inner: TypeView, ptr: ExprView) -> ExprView {
    let payload_len = if spec_is_integer(inner) {
        v_i32(8)
    } else if inner is Bool {
        v_i32(1)
    } else {
        v_prefixed_len(v_add(ptr, v_i32(1)))
    };
    ExprView::Select {
        condition: Box::new(v_is_some(ptr)),
        if_true: Box::new(v_add(payload_len, v_i32(1))),
        if_false: Box::new(v_i32(1)),
        ty: ValueType::I32,
    }
}

/// The encoded length of the optional at `ptr`.
fn optional_len_expr(_module: &str, inner: &DslType, ptr: Expr) -> (r: Result<Expr, ManifestCompileError>)
    ensures
        r matches Ok(e) && e@ == v_optional_len(inner@, ptr@),
{
    let payload_len = match inner {
        DslType::Uint { .. } | DslType::Int { .. } => Expr::ConstI32(8),
        DslType::Bool => Expr::ConstI32(1),
        _ => {
            let p = ptr.copy();
            length_prefixed_len_expr(add_i32(p, Expr::ConstI32(1)))
        },
    };
    let some_len = add_i32(payload_len, Expr::ConstI32(1));
    Ok(Expr::Select {
        condition: Box::new(optional_is_some_expr(ptr)),
        if_true: Box::new(some_len),
        if_false: Box::new(Expr::ConstI32(1)),
        ty: ValueType::I32,
    })
}

/// The element of a list at `cursor` and the cursor of the next element, for lists of
/// integers (eight bytes each) and of byte strings (length-prefixed).
fn list_element_expr(module: &str, element_type: &DslType, cursor: Expr) -> (r: Result<
    (Expr, Expr),
    ManifestCompileError,
>)
    ensures
        spec_is_integer(element_type@) ==> (r matches Ok((v, n)) && v@ == v_load_i64(cursor@)
            && n@ == v_add(cursor@, v_i32(8))),
        spec_is_byte_string(element_type@) ==> (r matches Ok((v, n)) && v@ == cursor@
            && n@ == v_add(v_add(cursor@, v_i32(4)), v_load_i32(cursor@))),
        !spec_is_integer(element_type@) && !spec_is_byte_string(element_type@) ==> (r matches Err(e)
            && is_unsupported_type(e, module@, element_type@)),
{
    match element_type {
        DslType::Uint { .. } | DslType::Int { .. } => {
            let c = cursor.copy();
            Ok((load_i64(c), add_i32(cursor, Expr::ConstI32(8))))
        },
        DslType::Bytes | DslType::String | DslType::Address => {
            let len = load_i32(cursor.copy());
            let next = add_i32(add_i32(cursor.copy(), Expr::ConstI32(4)), len);
            Ok((cursor, next))
        },
        _ => Err(unsupported_type(module, element_type)),
    }
}

/// The key or value of a map entry whose length-prefixed encoding starts at `ptr`.
fn map_element_expr(module: &str, element_type: &DslType, ptr: Expr) -> (r: Result<Expr, ManifestCompileError>)
    ensures
        spec_is_integer(element_type@) ==> (r matches Ok(v) && v@ == v_load_i64(v_add(ptr@, v_i32(4)))),
        element_type@ is Bool ==> (r matches Err(e) && is_unsupported_type(e, module@, element_type@)),
        spec_is_pointer(element_type@) ==> (r matches Ok(v) && v@ == ptr@),
{
    match element_type {
        DslType::Uint { .. } | DslType::Int { .. } => Ok(load_i64(add_i32(ptr, Expr::ConstI32(4)))),
        DslType::Bool => Err(unsupported_type(module, element_type)),
        _ => Ok(ptr),
    }
}


// ---------------------------------------------------------------------------
// Function scope
// ---------------------------------------------------------------------------

/// The local slot number `n`, as the IR's 32-bit index.
pub open spec fn spec_slot(n: int) -> u32 {
    (n % 0x1_0000_0000) as u32
}

/// `spec_slot(a + b)`.
pub(crate) fn slot(a: usize, b: usize) -> (r: u32)
    ensures
        r == spec_slot(a + b),
{
    let x: u64 = (a as u64) % 0x1_0000_0000;
    let y: u64 = (b as u64) % 0x1_0000_0000;
    let z: u64 = (x + y) % 0x1_0000_0000;
    proof {
        vstd::arithmetic::div_mod::lemma_add_mod_noop(a as int, b as int, 0x1_0000_0000);
    }
    z as u32
}

/// What the lowering of one function knows of its names and slots.
pub struct Scope {
    /// Parameters: slot and machine type, by name.
    pub params: NameMap<(u32, ValueType)>,
    /// The number of distinct parameter names; locals are numbered after them.
    pub param_count: usize,
    /// Declared DSL types of parameters, by name.
    pub param_types: NameMap<DslType>,
    /// Locals: slot and machine type, by name.
    pub locals: NameMap<(u32, ValueType)>,
    /// DSL types of locals, by name, where they are known.
    pub local_types: NameMap<DslType>,
    /// The locals declared so far, in slot order.
    pub local_defs: Vec<Local>,
}

impl Scope {
    /// The slot the next declared local gets.
    pub open spec fn next_slot(&self) -> u32 {
        spec_slot(self.param_count + self.local_defs@.len())
    }

    /// `self` was reached from `prev` by declaring locals: the parameters are unchanged
    /// and the locals declared before keep their slots.
    pub open spec fn grows(&self, prev: &Scope) -> bool {
        &&& self.params == prev.params
        &&& self.param_count == prev.param_count
        &&& self.param_types == prev.param_types
        &&& prev.local_defs@.len() <= self.local_defs@.len()
        &&& forall|i: int| 0 <= i < prev.local_defs@.len()
            ==> #[trigger] self.local_defs@[i] == prev.local_defs@[i]
    }

    /// `grows`, with the name maps of locals unchanged.
    pub open spec fn grows_hidden(&self, prev: &Scope) -> bool {
        &&& self.grows(prev)
        &&& self.locals == prev.locals
        &&& self.local_types == prev.local_types
    }
}

/// Declares a compiler-generated local of type `ty` and returns its slot.
fn add_temp_local(scope: &mut Scope, ty: ValueType, name: &str) -> (r: u32)
    ensures
        r == old(scope).next_slot(),
        final(scope).grows_hidden(old(scope)),
        final(scope).local_defs@.len() == old(scope).local_defs@.len() + 1,
        final(scope).local_defs@.last().name@ == name@,
        final(scope).local_defs@.last().ty == ty,
{
    let index = slot(scope.param_count, scope.local_defs.len());
    scope.local_defs.push(Local { name: str_to_string(name), ty });
    index
}

/// An empty statement list.
fn new_stmts() -> (r: Vec<Stmt>)
    ensures
        r@.len() == 0,
        stmts_view(r@) == Seq::<StmtView>::empty(),
{
    let r: Vec<Stmt> = Vec::new();
    assert(stmts_view(r@) == Seq::<StmtView>::empty());
    r
}

/// Appends one statement.
fn push_stmt(out: &mut Vec<Stmt>, st: Stmt)
    ensures
        stmts_view(final(out)@) == stmts_view(old(out)@).push(st@),
        final(out)@ == old(out)@.push(st),
{
    proof {
        lemma_stmts_view_push(old(out)@, st);
    }
    out.push(st);
}

/// Appends statements.
fn append_stmts(out: &mut Vec<Stmt>, more: Vec<Stmt>)
    ensures
        stmts_view(final(out)@) == stmts_view(old(out)@) + stmts_view(more@),
        final(out)@ == old(out)@ + more@,
{
    let mut more = more;
    proof {
        lemma_stmts_view_append(old(out)@, more@);
    }
    out.append(&mut more);
}

/// `local = value` for a fresh local.
pub open spec fn v_let(local: u32, value: ExprView) -> StmtView {
    StmtView::Let { local, value }
}

/// `local = value` for a declared local.
pub open spec fn v_assign(local: u32, value: ExprView) -> StmtView {
    StmtView::Assign { local, value }
}

/// `left < right` on 32-bit values.
pub open spec fn v_less(left: ExprView, right: ExprView) -> ExprView {
    ExprView::Binary { op: BinaryOp::Less, left: Box::new(left), right: Box::new(right), ty: ValueType::I32 }
}

/// `left < right` on 32-bit values.
fn less_i32(left: Expr, right: Expr) -> (r: Expr)
    ensures
        r@ == v_less(left@, right@),
{
    Expr::Binary { op: BinaryOp::Less, left: Box::new(left), right: Box::new(right), ty: ValueType::I32 }
}

/// The loop that copies `len` bytes from `src` to `dest`, counting in local `idx`.
pub open spec fn v_copy_bytes(idx: u32, src: ExprView, dest: ExprView, len: ExprView) -> Seq<StmtView> {
    let offset = v_local(idx);
    seq![
        v_let(idx, v_i32(0)),
        StmtView::While {
            condition: v_less(offset, len),
            body: seq![
                StmtView::Store {
                    address: v_add(dest, offset),
                    value: ExprView::LoadI8(Box::new(v_add(src, offset))),
                    width: StoreWidth::I8,
                },
                v_assign(idx, v_add(offset, v_i32(1))),
            ],
        },
    ]
}

/// Statements that copy `len` bytes from `src` to `dest`, byte by byte.
fn emit_copy_bytes(scope: &mut Scope, src: Expr, dest: Expr, len: Expr) -> (r: Vec<Stmt>)
    ensures
        final(scope).grows_hidden(old(scope)),
        final(scope).local_defs@.len() == old(scope).local_defs@.len() + 1,
        stmts_view(r@) == v_copy_bytes(old(scope).next_slot(), src@, dest@, len@),
{
    let mut stmts = new_stmts();
    let idx = add_temp_local(scope, ValueType::I32, "__copy_idx");
    push_stmt(&mut stmts, Stmt::Let { local: idx, value: Expr::ConstI32(0) });
    let condition = less_i32(local_i32(idx), len);
    let mut body = new_stmts();
    let byte = Expr::LoadI8 { address: Box::new(add_i32(src, local_i32(idx))) };
    push_stmt(&mut body, Stmt::Store { address: add_i32(dest, local_i32(idx)), value: byte, width: StoreWidth::I8 });
    push_stmt(&mut body, Stmt::Assign { local: idx, value: add_i32(local_i32(idx), Expr::ConstI32(1)) });
    let ghost bv = stmts_view(body@);
    let ghost cv = condition@;
    push_stmt(&mut stmts, Stmt::While { condition, body });
    assert(bv[0] == StmtView::Store {
        address: v_add(dest@, v_local(idx)),
        value: ExprView::LoadI8(Box::new(v_add(src@, v_local(idx)))),
        width: StoreWidth::I8,
    });
    assert(bv[1] == v_assign(idx, v_add(v_local(idx), v_i32(1))));
    assert(cv == v_less(v_local(idx), len@));
    assert(bv =~= seq![
        StmtView::Store {
            address: v_add(dest@, v_local(idx)),
            value: ExprView::LoadI8(Box::new(v_add(src@, v_local(idx)))),
            width: StoreWidth::I8,
        },
        v_assign(idx, v_add(v_local(idx), v_i32(1))),
    ]);
    assert(stmts_view(stmts@)[0] == v_let(idx, v_i32(0)));
    assert(stmts_view(stmts@)[1] == StmtView::While { condition: cv, body: bv });
    assert(stmts_view(stmts@) =~~= v_copy_bytes(idx, src@, dest@, len@));
    stmts
}

/// The statements that sum the encoded lengths of a list's elements into local `total`,
/// stepping `step` bytes per element, and the slots they use.
pub open spec fn v_list_total_length(
    count: u32,
    total: u32,
    cursor: u32,
    idx: u32,
    list_ptr: ExprView,
    step: ExprView,
) -> Seq<StmtView> {
    seq![
        v_let(count, v_load_i32(list_ptr)),
        v_let(total, v_i32(4)),
        v_let(cursor, v_add(list_ptr, v_i32(4))),
        v_let(idx, v_i32(0)),
        StmtView::While {
            condition: v_less(v_local(idx), v_local(count)),
            body: seq![
                v_assign(total, v_add(v_local(total), step)),
                v_assign(cursor, v_add(v_local(cursor), step)),
                v_assign(idx, v_add(v_local(idx), v_i32(1))),
            ],
        },
    ]
}

/// The size of one list element of type `t`, read at the cursor in local `cursor`.
pub open spec fn v_list_step(t: TypeView, cursor: u32) -> Option<ExprView> {
    if spec_is_integer(t) {
        Some(v_i32(8))
    } else if t is Bool {
        Some(v_i32(1))
    } else if t is Optional {
        None
    } else {
        Some(v_prefixed_len(v_local(cursor)))
    }
}

/// Statements that compute the encoded length of the list at `list_ptr`, and the local
/// holding it.
fn list_total_length(module: &str, list_ptr: Expr, element_type: &DslType, scope: &mut Scope) -> (r: Result<
    (Vec<Stmt>, Expr),
    ManifestCompileError,
>)
    ensures
        final(scope).grows_hidden(old(scope)),
        ({
            let n = old(scope).param_count + old(scope).local_defs@.len();
            match v_list_step(element_type@, spec_slot(n + 2)) {
                Some(step) => r matches Ok((stmts, total)) && stmts_view(stmts@) == v_list_total_length(
                    spec_slot(n),
                    spec_slot(n + 1),
                    spec_slot(n + 2),
                    spec_slot(n + 3),
                    list_ptr@,
                    step,
                ) && total@ == v_local(spec_slot(n + 1)) && final(scope).local_defs@.len()
                    == old(scope).local_defs@.len() + 4,
                None => r matches Err(e) && is_unsupported_type(e, module@, element_type@),
            }
        }),
{
    let mut stmts = new_stmts();
    let ghost lp = list_ptr@;
    let count = add_temp_local(scope, ValueType::I32, "__list_count");
    push_stmt(&mut stmts, Stmt::Let { local: count, value: load_i32(list_ptr.copy()) });
    let total = add_temp_local(scope, ValueType::I32, "__list_len");
    push_stmt(&mut stmts, Stmt::Let { local: total, value: Expr::ConstI32(4) });
    let cursor = add_temp_local(scope, ValueType::I32, "__list_cursor");
    push_stmt(&mut stmts, Stmt::Let { local: cursor, value: add_i32(list_ptr, Expr::ConstI32(4)) });
    let idx = add_temp_local(scope, ValueType::I32, "__list_index");
    push_stmt(&mut stmts, Stmt::Let { local: idx, value: Expr::ConstI32(0) });
    let step = match element_type {
        DslType::Uint { .. } | DslType::Int { .. } => Expr::ConstI32(8),
        DslType::Bool => Expr::ConstI32(1),
        DslType::Optional(_) => {
            return Err(unsupported_type(module, element_type));
        },
        _ => length_prefixed_len_expr(local_i32(cursor)),
    };
    let ghost sv = step@;
    let condition = less_i32(local_i32(idx), local_i32(count));
    let mut body = new_stmts();
    push_stmt(&mut body, Stmt::Assign { local: total, value: add_i32(local_i32(total), step.copy()) });
    push_stmt(&mut body, Stmt::Assign { local: cursor, value: add_i32(local_i32(cursor), step) });
    push_stmt(&mut body, Stmt::Assign { local: idx, value: add_i32(local_i32(idx), Expr::ConstI32(1)) });
    assert(stmts_view(body@) =~= seq![
        v_assign(total, v_add(v_local(total), sv)),
        v_assign(cursor, v_add(v_local(cursor), sv)),
        v_assign(idx, v_add(v_local(idx), v_i32(1))),
    ]);
    push_stmt(&mut stmts, Stmt::While { condition, body });
    assert(stmts_view(stmts@) =~~= v_list_total_length(count, total, cursor, idx, lp, sv));
    Ok((stmts, local_i32(total)))
}

/// A fresh one-byte buffer holding the empty optional: the statements that fill it, and
/// its pointer (local `ptr`).
pub open spec fn v_none_buffer(ptr: u32) -> Seq<StmtView> {
    seq![
        v_let(ptr, ExprView::HostCall { function: HostFunction::MemoryDeterministicMalloc, args: seq![v_i32(1)] }),
        StmtView::Store { address: v_local(ptr), value: v_i32(0), width: StoreWidth::I8 },
    ]
}

/// Builds the empty optional in fresh memory: statements, pointer and length.
fn lower_optional_none_buffer(_module: &str, scope: &mut Scope) -> (r: Result<
    (Vec<Stmt>, Expr, Expr),
    ManifestCompileError,
>)
    ensures
        final(scope).grows_hidden(old(scope)),
        final(scope).local_defs@.len() == old(scope).local_defs@.len() + 1,
        r matches Ok((stmts, ptr, len)) && stmts_view(stmts@) == v_none_buffer(old(scope).next_slot())
            && ptr@ == v_local(old(scope).next_slot()) && len@ == v_i32(1),
{
    let mut stmts = new_stmts();
    let ptr = add_temp_local(scope, ValueType::I32, "__opt_ptr");
    let mut args: Vec<Expr> = Vec::new();
    let one = Expr::ConstI32(1);
    proof {
        lemma_exprs_view_push(args@, one);
    }
    args.push(one);
    let call = Expr::HostCall { function: HostFunction::MemoryDeterministicMalloc, args };
    push_stmt(&mut stmts, Stmt::Let { local: ptr, value: call });
    push_stmt(&mut stmts, Stmt::Store { address: local_i32(ptr), value: Expr::ConstI32(0), width: StoreWidth::I8 });
    Ok((stmts, local_i32(ptr), Expr::ConstI32(1)))
}


// ---------------------------------------------------------------------------
// Declarations of the module
// ---------------------------------------------------------------------------

/// The position of the last struct declared under `name`.
pub open spec fn spec_find_struct(structs: Seq<DslStruct>, name: Seq<char>) -> Option<int>
    decreases structs.len(),
{
    if structs.len() == 0 {
        None
    } else if structs.last().name@ == name {
        Some(structs.len() - 1)
    } else {
        spec_find_struct(structs.drop_last(), name)
    }
}

/// The position of the last struct declared under `name`.
fn find_struct(structs: &[DslStruct], name: &str) -> (r: Option<usize>)
    ensures
        match r {
            Some(k) => spec_find_struct(structs@, name@) == Some(k as int) && k < structs@.len(),
            None => spec_find_struct(structs@, name@) is None,
        },
{
    let mut i: usize = structs.len();
    assert(structs@.subrange(0, i as int) == structs@);
    while i > 0
        invariant
            i <= structs@.len(),
            spec_find_struct(structs@, name@) == spec_find_struct(structs@.subrange(0, i as int), name@),
            forall|k: int| 0 <= k < i ==> structs@.subrange(0, i as int)[k] == structs@[k],
        decreases i,
    {
        if str_eq(structs[i - 1].name.as_str(), name) {
            return Some(i - 1);
        }
        assert(structs@.subrange(0, i as int).drop_last() == structs@.subrange(0, i - 1));
        i = i - 1;
    }
    None
}

/// The position of the last state field declared under `name`.
pub open spec fn spec_find_field(fields: Seq<DslStateField>, name: Seq<char>) -> Option<int>
    decreases fields.len(),
{
    if fields.len() == 0 {
        None
    } else if fields.last().name@ == name {
        Some(fields.len() - 1)
    } else {
        spec_find_field(fields.drop_last(), name)
    }
}

/// The position of the last state field declared under `name`.
fn find_field(fields: &[DslStateField], name: &str) -> (r: Option<usize>)
    ensures
        match r {
            Some(k) => spec_find_field(fields@, name@) == Some(k as int) && k < fields@.len(),
            None => spec_find_field(fields@, name@) is None,
        },
{
    let mut i: usize = fields.len();
    assert(fields@.subrange(0, i as int) == fields@);
    while i > 0
        invariant
            i <= fields@.len(),
            spec_find_field(fields@, name@) == spec_find_field(fields@.subrange(0, i as int), name@),
        decreases i,
    {
        if str_eq(fields[i - 1].name.as_str(), name) {
            return Some(i - 1);
        }
        assert(fields@.subrange(0, i as int).drop_last() == fields@.subrange(0, i - 1));
        i = i - 1;
    }
    None
}

/// The position of the last named argument called `name`.
pub open spec fn spec_last_named(args: Seq<DslCallArg>, name: Seq<char>) -> Option<int>
    decreases args.len(),
{
    if args.len() == 0 {
        None
    } else if args.last() matches DslCallArg::Named { name: n, .. } && n@ == name {
        Some(args.len() - 1)
    } else {
        spec_last_named(args.drop_last(), name)
    }
}

/// Where `spec_last_named` points, there is a named argument of that name.
proof fn lemma_last_named(args: Seq<DslCallArg>, name: Seq<char>)
    ensures
        spec_last_named(args, name) matches Some(j) ==> (0 <= j < args.len()
            && (args[j] matches DslCallArg::Named { name: n, .. } && n@ == name)),
        spec_last_named(args, name) is None ==> forall|j: int| 0 <= j < args.len()
            ==> !(#[trigger] args[j] matches DslCallArg::Named { name: n, .. } && n@ == name),
    decreases args.len(),
{
    if args.len() > 0 {
        lemma_last_named(args.drop_last(), name);
        if spec_last_named(args, name) is None {
            assert forall|j: int| 0 <= j < args.len() implies
                !(#[trigger] args[j] matches DslCallArg::Named { name: n, .. } && n@ == name) by {
                if j < args.len() - 1 {
                    assert(args.drop_last()[j] == args[j]);
                }
            }
        }
    }
}

/// The position of the last named argument called `name`.
fn last_named(args: &[DslCallArg], name: &str) -> (r: Option<usize>)
    ensures
        match r {
            Some(k) => spec_last_named(args@, name@) == Some(k as int) && k < args@.len(),
            None => spec_last_named(args@, name@) is None,
        },
{
    let mut i: usize = args.len();
    assert(args@.subrange(0, i as int) == args@);
    while i > 0
        invariant
            i <= args@.len(),
            spec_last_named(args@, name@) == spec_last_named(args@.subrange(0, i as int), name@),
        decreases i,
    {
        let hit = match &args[i - 1] {
            DslCallArg::Named { name: n, .. } => str_eq(n.as_str(), name),
            DslCallArg::Positional(_) => false,
        };
        if hit {
            return Some(i - 1);
        }
        assert(args@.subrange(0, i as int).drop_last() == args@.subrange(0, i - 1));
        i = i - 1;
    }
    None
}

/// Whether every argument is named.
pub open spec fn spec_all_named(args: Seq<DslCallArg>) -> bool {
    forall|j: int| 0 <= j < args.len() ==> #[trigger] args[j] is Named
}

/// Whether every argument is positional.
pub open spec fn spec_all_positional(args: Seq<DslCallArg>) -> bool {
    forall|j: int| 0 <= j < args.len() ==> #[trigger] args[j] is Positional
}

/// Whether a field of the struct has the name of every named argument.
pub open spec fn spec_names_covered(args: Seq<DslCallArg>, fields: Seq<crate::dsl::DslStructField>) -> bool {
    forall|j: int| 0 <= j < args.len() ==> (#[trigger] args[j] matches DslCallArg::Named { name: n, .. }
        ==> exists|k: int| 0 <= k < fields.len() && (#[trigger] fields[k]).name@ == n@)
}

/// Whether field `i` repeats the name of an earlier field.
pub open spec fn spec_repeats_name(fields: Seq<crate::dsl::DslStructField>, i: int) -> bool {
    exists|k: int| 0 <= k < i && (#[trigger] fields[k]).name@ == fields[i].name@
}

// ---------------------------------------------------------------------------
// Literal values
// ---------------------------------------------------------------------------

/// The storage encoding of a literal expression: strings and bytes are length-prefixed,
/// numbers are 64-bit little-endian, booleans one byte, lists and maps as the storage
/// format has them, `Some(x)` and `None` as optionals, and a call of a declared struct as
/// the length-prefixed concatenation of its length-prefixed fields in declaration order.
/// `None` where the expression is not such a literal.
pub open spec fn spec_literal_bytes(e: DslExpr, structs: Seq<DslStruct>) -> Option<Seq<u8>>
    decreases e, 0int,
{
    match e {
        DslExpr::Literal(DslLiteral::String(v)) => Some(spec_encode_bytes(vstd::utf8::encode_utf8(v@))),
        DslExpr::Literal(DslLiteral::Bytes(v)) => Some(spec_encode_bytes(v@)),
        DslExpr::Literal(DslLiteral::Bool(b)) => Some(seq![if b { 1u8 } else { 0u8 }]),
        DslExpr::Literal(DslLiteral::Number(v)) => match spec_parse_i64(v@, 10) {
            Some(n) => Some(vstd::bytes::spec_u64_to_le_bytes(n as u64)),
            None => None,
        },
        DslExpr::Literal(DslLiteral::Null) => Some(seq![0u8]),
        DslExpr::ListLiteral(items) => {
            proof {
                assert(decreases_to!(e => items));
                assert(decreases_to!(items => items@));
            }
            match spec_list_bytes(items@, structs, items@.len() as int) {
                Some(encs) => Some(spec_encode_list(encs)),
                None => None,
            }
        },
        DslExpr::MapLiteral(entries) => {
            proof {
                assert(decreases_to!(e => entries));
                assert(decreases_to!(entries => entries@));
            }
            match spec_map_bytes(entries@, structs, entries@.len() as int) {
                Some(encs) => Some(spec_encode_map(encs)),
                None => None,
            }
        },
        DslExpr::Call { callee, args } => {
            proof {
                assert(decreases_to!(e => args));
                assert(decreases_to!(args => args@));
            }
            match *callee {
                DslExpr::Identifier(name) => {
                    if name@ == seq!['S', 'o', 'm', 'e'] {
                        if args@.len() == 1 && args@[0] is Positional {
                            proof {
                                assert(decreases_to!(args@ => args@[0]));
                            }
                            match spec_literal_bytes(args@[0]->Positional_0, structs) {
                                Some(inner) => Some(spec_encode_optional(Some(inner))),
                                None => None,
                            }
                        } else {
                            None
                        }
                    } else {
                        match spec_find_struct(structs, name@) {
                            Some(k) => {
                                let fields = structs[k].fields@;
                                if !spec_all_named(args@) || !spec_names_covered(args@, fields) {
                                    None
                                } else {
                                    match spec_field_bytes(fields, args@, structs, fields.len() as int) {
                                        Some(encs) => Some(spec_encode_bytes(spec_encode_fields(encs))),
                                        None => None,
                                    }
                                }
                            },
                            None => None,
                        }
                    }
                },
                _ => None,
            }
        },
        _ => None,
    }
}

/// The encodings of the first `n` list items, if all are literals.
pub open spec fn spec_list_bytes(items: Seq<DslExpr>, structs: Seq<DslStruct>, n: int) -> Option<Seq<Seq<u8>>>
    decreases items, n,
{
    if n <= 0 || n > items.len() {
        if n <= 0 {
            Some(Seq::empty())
        } else {
            None
        }
    } else {
        proof {
            assert(decreases_to!(items => items[n - 1]));
        }
        match spec_list_bytes(items, structs, n - 1) {
            Some(prev) => match spec_literal_bytes(items[n - 1], structs) {
                Some(b) => Some(prev.push(b)),
                None => None,
            },
            None => None,
        }
    }
}

/// The encodings of the first `n` map entries, if all keys and values are literals.
pub open spec fn spec_map_bytes(
    entries: Seq<(DslExpr, DslExpr)>,
    structs: Seq<DslStruct>,
    n: int,
) -> Option<Seq<EntryView>>
    decreases entries, n,
{
    if n <= 0 || n > entries.len() {
        if n <= 0 {
            Some(Seq::empty())
        } else {
            None
        }
    } else {
        proof {
            assert(decreases_to!(entries => entries[n - 1]));
            assert(decreases_to!(entries[n - 1] => entries[n - 1].0));
            assert(decreases_to!(entries[n - 1] => entries[n - 1].1));
        }
        match spec_map_bytes(entries, structs, n - 1) {
            Some(prev) => match spec_literal_bytes(entries[n - 1].0, structs) {
                Some(k) => match spec_literal_bytes(entries[n - 1].1, structs) {
                    Some(v) => Some(prev.push((k, v))),
                    None => None,
                },
                None => None,
            },
            None => None,
        }
    }
}

/// The encodings of the values given for the first `n` fields of a struct, if every such
/// field gets exactly one literal value (the last argument named after it).
pub open spec fn spec_field_bytes(
    fields: Seq<crate::dsl::DslStructField>,
    args: Seq<DslCallArg>,
    structs: Seq<DslStruct>,
    n: int,
) -> Option<Seq<Seq<u8>>>
    decreases args, n,
{
    if n <= 0 || n > fields.len() {
        if n <= 0 {
            Some(Seq::empty())
        } else {
            None
        }
    } else {
        match spec_field_bytes(fields, args, structs, n - 1) {
            Some(prev) => {
                if spec_repeats_name(fields, n - 1) {
                    None
                } else {
                    match spec_last_named(args, fields[n - 1].name@) {
                        Some(j) => {
                            if 0 <= j < args.len() && args[j] is Named {
                                proof {
                                    assert(decreases_to!(args => args[j]));
                                }
                                match spec_literal_bytes(args[j]->Named_value, structs) {
                                    Some(b) => Some(prev.push(b)),
                                    None => None,
                                }
                            } else {
                                None
                            }
                        },
                        None => None,
                    }
                }
            },
            None => None,
        }
    }
}


/// The fields of a struct value, each length-prefixed, in order.
pub open spec fn spec_encode_fields(encs: Seq<Seq<u8>>) -> Seq<u8> {
    crate::serialize::spec_concat(encs.map_values(|b: Seq<u8>| spec_encode_bytes(b)))
}

/// The encoding of a call of a struct with fields `fields` on `args`, if the call is a
/// literal: every argument is named after a field, every field gets a literal value.
pub open spec fn spec_struct_bytes(
    fields: Seq<crate::dsl::DslStructField>,
    args: Seq<DslCallArg>,
    structs: Seq<DslStruct>,
) -> Option<Seq<u8>> {
    if !spec_all_named(args) || !spec_names_covered(args, fields) {
        None
    } else {
        match spec_field_bytes(fields, args, structs, fields.len() as int) {
            Some(encs) => Some(spec_encode_bytes(spec_encode_fields(encs))),
            None => None,
        }
    }
}

proof fn lemma_list_bytes_none(items: Seq<DslExpr>, structs: Seq<DslStruct>, k: int, m: int)
    requires
        0 <= k <= m <= items.len(),
        spec_list_bytes(items, structs, k) is None,
    ensures
        spec_list_bytes(items, structs, m) is None,
    decreases m - k,
{
    if m > k {
        lemma_list_bytes_none(items, structs, k, m - 1);
    }
}

proof fn lemma_map_bytes_none(entries: Seq<(DslExpr, DslExpr)>, structs: Seq<DslStruct>, k: int, m: int)
    requires
        0 <= k <= m <= entries.len(),
        spec_map_bytes(entries, structs, k) is None,
    ensures
        spec_map_bytes(entries, structs, m) is None,
    decreases m - k,
{
    if m > k {
        lemma_map_bytes_none(entries, structs, k, m - 1);
    }
}

proof fn lemma_field_bytes_none(
    fields: Seq<crate::dsl::DslStructField>,
    args: Seq<DslCallArg>,
    structs: Seq<DslStruct>,
    k: int,
    m: int,
)
    requires
        0 <= k <= m <= fields.len(),
        spec_field_bytes(fields, args, structs, k) is None,
    ensures
        spec_field_bytes(fields, args, structs, m) is None,
    decreases m - k,
{
    if m > k {
        lemma_field_bytes_none(fields, args, structs, k, m - 1);
    }
}

/// The positional arguments of a call, in order; an error if any argument is named.
fn call_args_to_positional<'a>(module: &str, args: &'a [DslCallArg]) -> (r: Result<
    Vec<&'a DslExpr>,
    ManifestCompileError,
>)
    ensures
        spec_all_positional(args@) ==> (r matches Ok(v) && v@.len() == args@.len() && forall|k: int|
            0 <= k < args@.len() ==> *v@[k] == #[trigger] args@[k]->Positional_0),
        !spec_all_positional(args@) ==> (r matches Err(e) && is_unsupported_expression(e, module@)),
{
    let mut positional: Vec<&'a DslExpr> = Vec::new();
    let mut i: usize = 0;
    while i < args.len()
        invariant
            i <= args@.len(),
            positional@.len() == i,
            forall|k: int| 0 <= k < i ==> *positional@[k] == #[trigger] args@[k]->Positional_0,
            forall|k: int| 0 <= k < i ==> #[trigger] args@[k] is Positional,
        decreases args@.len() - i,
    {
        match &args[i] {
            DslCallArg::Positional(e) => {
                positional.push(e);
            },
            DslCallArg::Named { .. } => {
                return Err(unsupported_expression(module, str_to_string("named args not supported here")));
            },
        }
        i = i + 1;
    }
    Ok(positional)
}

/// Whether field `i` repeats the name of an earlier field.
fn repeats_name(fields: &[crate::dsl::DslStructField], i: usize) -> (r: bool)
    requires
        i < fields@.len(),
    ensures
        r == spec_repeats_name(fields@, i as int),
{
    let mut k: usize = 0;
    while k < i
        invariant
            k <= i < fields@.len(),
            forall|m: int| 0 <= m < k ==> (#[trigger] fields@[m]).name@ != fields@[i as int].name@,
        decreases i - k,
    {
        if str_eq(fields[k].name.as_str(), fields[i].name.as_str()) {
            return true;
        }
        k = k + 1;
    }
    false
}

/// Whether every named argument is named after a field.
fn names_covered(args: &[DslCallArg], fields: &[crate::dsl::DslStructField]) -> (r: bool)
    ensures
        r == spec_names_covered(args@, fields@),
{
    let mut j: usize = 0;
    while j < args.len()
        invariant
            j <= args@.len(),
            forall|m: int| 0 <= m < j ==> (#[trigger] args@[m] matches DslCallArg::Named { name: n, .. }
                ==> exists|k: int| 0 <= k < fields@.len() && (#[trigger] fields@[k]).name@ == n@),
        decreases args@.len() - j,
    {
        if let DslCallArg::Named { name, .. } = &args[j] {
            let mut k: usize = 0;
            let mut found = false;
            while k < fields.len()
                invariant
                    k <= fields@.len(),
                    found ==> exists|m: int| 0 <= m < fields@.len() && (#[trigger] fields@[m]).name@ == name@,
                    !found ==> forall|m: int| 0 <= m < k ==> (#[trigger] fields@[m]).name@ != name@,
                decreases fields@.len() - k,
            {
                if str_eq(fields[k].name.as_str(), name.as_str()) {
                    found = true;
                }
                k = k + 1;
            }
            if !found {
                assert(!spec_names_covered(args@, fields@)) by {
                    assert(args@[j as int] matches DslCallArg::Named { name: n, .. } && n@ == name@);
                }
                return false;
            }
        }
        j = j + 1;
    }
    true
}

/// The u32 little-endian length prefix of `n` bytes.
fn u32_prefix(n: usize) -> (r: Vec<u8>)
    ensures
        r@ == crate::serialize::spec_len_prefix(n as nat),
{
    vstd::bytes::u32_to_le_bytes(n as u32)
}

/// The storage encoding of a literal expression.
#[verifier::loop_isolation(false)]
fn literal_to_bytes(module: &str, expr: &DslExpr, structs: &[DslStruct]) -> (r: Result<
    Vec<u8>,
    ManifestCompileError,
>)
    ensures
        match spec_literal_bytes(*expr, structs@) {
            Some(b) => r matches Ok(v) && v@ == b,
            None => r matches Err(e) && is_unsupported_expression(e, module@),
        },
    decreases expr, 0int,
{
    match expr {
        DslExpr::Literal(DslLiteral::String(v)) => Ok(encode_string(v.as_str())),
        DslExpr::Literal(DslLiteral::Bytes(v)) => Ok(encode_bytes(v.as_slice())),
        DslExpr::Literal(DslLiteral::Bool(b)) => Ok(encode_bool(*b)),
        DslExpr::Literal(DslLiteral::Number(v)) => {
            let cs = to_chars(v.as_str());
            match parse_i64(cs.as_slice(), 10) {
                Some(n) => Ok(encode_i64(n)),
                None => Err(unsupported_expression(module, copy_string(v))),
            }
        },
        DslExpr::Literal(DslLiteral::Null) => Ok(encode_optional(None)),
        DslExpr::ListLiteral(items) => {
            let mut encoded: Vec<Vec<u8>> = Vec::new();
            let mut i: usize = 0;
            while i < items.len()
                invariant
                    i <= items@.len(),
                    spec_list_bytes(items@, structs@, i as int) == Some(
                        crate::serialize::byte_vecs_view(encoded@),
                    ),
                decreases items@.len() - i,
            {
                proof {
                    assert(decreases_to!(expr => *items));
                    assert(decreases_to!(*items => items@));
                    assert(decreases_to!(items@ => items@[i as int]));
                }
                let b = match literal_to_bytes(module, &items[i], structs) {
                    Ok(b) => b,
                    Err(e) => {
                        proof {
                            lemma_list_bytes_none(items@, structs@, i + 1, items@.len() as int);
                        }
                        return Err(e);
                    },
                };
                proof {
                    assert(crate::serialize::byte_vecs_view(encoded@.push(b))
                        == crate::serialize::byte_vecs_view(encoded@).push(b@));
                }
                encoded.push(b);
                i = i + 1;
            }
            Ok(encode_list(encoded.as_slice()))
        },
        DslExpr::MapLiteral(entries) => {
            let mut encoded: Vec<(Vec<u8>, Vec<u8>)> = Vec::new();
            let mut i: usize = 0;
            while i < entries.len()
                invariant
                    i <= entries@.len(),
                    spec_map_bytes(entries@, structs@, i as int) == Some(entries_view(encoded@)),
                decreases entries@.len() - i,
            {
                proof {
                    assert(decreases_to!(expr => *entries));
                    assert(decreases_to!(*entries => entries@));
                    assert(decreases_to!(entries@ => entries@[i as int]));
                    assert(decreases_to!(entries@[i as int] => entries@[i as int].0));
                    assert(decreases_to!(entries@[i as int] => entries@[i as int].1));
                }
                let k = match literal_to_bytes(module, &entries[i].0, structs) {
                    Ok(b) => b,
                    Err(e) => {
                        proof {
                            lemma_map_bytes_none(entries@, structs@, i + 1, entries@.len() as int);
                        }
                        return Err(e);
                    },
                };
                let v = match literal_to_bytes(module, &entries[i].1, structs) {
                    Ok(b) => b,
                    Err(e) => {
                        proof {
                            lemma_map_bytes_none(entries@, structs@, i + 1, entries@.len() as int);
                        }
                        return Err(e);
                    },
                };
                proof {
                    assert(entries_view(encoded@.push((k, v))) == entries_view(encoded@).push((k@, v@)));
                }
                encoded.push((k, v));
                i = i + 1;
            }
            Ok(encode_map(encoded.as_slice()))
        },
        DslExpr::Call { callee, args } => {
            proof {
                reveal_strlit("Some");
                assert("Some"@ =~= seq!['S', 'o', 'm', 'e']);
            }
            match &**callee {
                DslExpr::Identifier(name) => {
                    if str_eq(name.as_str(), "Some") {
                        assert(name@ == seq!['S', 'o', 'm', 'e']);
                        assert(spec_literal_bytes(*expr, structs@) == (if args@.len() == 1 && args@[0] is Positional {
                            match spec_literal_bytes(args@[0]->Positional_0, structs@) {
                                Some(inner) => Some(spec_encode_optional(Some(inner))),
                                None => None,
                            }
                        } else {
                            None
                        }));
                        let positional = match call_args_to_positional(module, args.as_slice()) {
                            Ok(p) => p,
                            Err(e) => {
                                return Err(e);
                            },
                        };
                        if positional.len() != 1 {
                            return Err(unsupported_expression(module, str_to_string("Some arity")));
                        }
                        proof {
                            assert(decreases_to!(expr => *args));
                            assert(decreases_to!(*args => args@));
                            assert(decreases_to!(args@ => args@[0]));
                        }
                        let inner = match literal_to_bytes(module, positional[0], structs) {
                            Ok(b) => b,
                            Err(e) => {
                                return Err(e);
                            },
                        };
                        return Ok(encode_optional(Some(inner.as_slice())));
                    }
                    match find_struct(structs, name.as_str()) {
                        Some(k) => {
                            proof {
                                assert(decreases_to!(expr => *args));
                                assert(decreases_to!(*args => args@));
                                assert(name@ != seq!['S', 'o', 'm', 'e']);
                                assert(spec_find_struct(structs@, name@) == Some(k as int));
                                assert(**callee == DslExpr::Identifier(*name));
                                assert(*expr == DslExpr::Call { callee: *callee, args: *args });
                                assert(spec_literal_bytes(*expr, structs@) == spec_struct_bytes(
                                    structs@[k as int].fields@,
                                    args@,
                                    structs@,
                                ));
                            }
                            encode_struct_literal(module, &structs[k], args.as_slice(), structs)
                        },
                        None => {
                            let d = expr_debug(expr);
                            Err(unsupported_expression(module, message(&["non-literal state value ", d.as_str()])))
                        },
                    }
                },
                _ => {
                    let d = expr_debug(expr);
                    Err(unsupported_expression(module, message(&["non-literal state value ", d.as_str()])))
                },
            }
        },
        _ => {
            let d = expr_debug(expr);
            Err(unsupported_expression(module, message(&["non-literal state value ", d.as_str()])))
        },
    }
}

/// The encoding of a call of the struct `def`: each field in declaration order as
/// length-prefixed bytes, and the whole payload length-prefixed.
#[verifier::loop_isolation(false)]
fn encode_struct_literal(module: &str, def: &DslStruct, args: &[DslCallArg], structs: &[DslStruct]) -> (r: Result<
    Vec<u8>,
    ManifestCompileError,
>)
    ensures
        match spec_struct_bytes(def.fields@, args@, structs@) {
            Some(b) => r matches Ok(v) && v@ == b,
            None => r matches Err(e) && is_unsupported_expression(e, module@),
        },
    decreases args@, 1int,
{
    let mut j: usize = 0;
    while j < args.len()
        invariant
            j <= args@.len(),
            forall|m: int| 0 <= m < j ==> #[trigger] args@[m] is Named,
        decreases args@.len() - j,
    {
        if let DslCallArg::Positional(_) = &args[j] {
            return Err(unsupported_expression(module, message(&["positional args in ", def.name.as_str()])));
        }
        j = j + 1;
    }
    let fields = def.fields.as_slice();
    let mut payload: Vec<u8> = Vec::new();
    let ghost mut encs: Seq<Seq<u8>> = Seq::empty();
    let mut i: usize = 0;
    while i < fields.len()
        invariant
            i <= fields@.len(),
            fields@ == def.fields@,
            spec_all_named(args@),
            spec_field_bytes(fields@, args@, structs@, i as int) == Some(encs),
            payload@ == spec_encode_fields(encs),
        decreases fields@.len() - i,
    {
        proof {
            lemma_last_named(args@, fields@[i as int].name@);
        }
        let missing = repeats_name(fields, i);
        let found = if missing { None } else { last_named(args, fields[i].name.as_str()) };
        let value = match found {
            Some(jj) => match &args[jj] {
                DslCallArg::Named { value, .. } => value,
                DslCallArg::Positional(_) => {
                    return Err(unsupported_expression(module, str_to_string("positional args")));
                },
            },
            None => {
                proof {
                    lemma_field_bytes_none(fields@, args@, structs@, i + 1, fields@.len() as int);
                }
                return Err(unsupported_expression(
                    module,
                    message(&["missing field ", fields[i].name.as_str(), " in ", def.name.as_str()]),
                ));
            },
        };
        proof {
            lemma_last_named(args@, fields@[i as int].name@);
            let jj = spec_last_named(args@, fields@[i as int].name@)->Some_0;
            assert(decreases_to!(args@ => args@[jj]));
        }
        let encoded = match literal_to_bytes(module, value, structs) {
            Ok(b) => b,
            Err(e) => {
                proof {
                    lemma_field_bytes_none(fields@, args@, structs@, i + 1, fields@.len() as int);
                }
                return Err(e);
            },
        };
        let prefix = u32_prefix(encoded.len());
        crate::serialize::append_bytes(&mut payload, prefix.as_slice());
        crate::serialize::append_bytes(&mut payload, encoded.as_slice());
        proof {
            let f = |b: Seq<u8>| spec_encode_bytes(b);
            let m = encs.push(encoded@).map_values(f);
            assert(m.drop_last() == encs.map_values(f));
            assert(m.last() == spec_encode_bytes(encoded@));
            assert(spec_encode_fields(encs.push(encoded@)) == crate::serialize::spec_concat(m));
            encs = encs.push(encoded@);
        }
        i = i + 1;
    }
    if !names_covered(args, fields) {
        return Err(unsupported_expression(module, message(&["extra fields in ", def.name.as_str()])));
    }
    let mut out = u32_prefix(payload.len());
    crate::serialize::append_bytes(&mut out, payload.as_slice());
    Ok(out)
}


// ---------------------------------------------------------------------------
// Names, literals and state keys
// ---------------------------------------------------------------------------

/// The pieces of `s` between commas, as `str::split(',')` gives them.
pub open spec fn spec_comma_pieces(s: Seq<char>) -> Seq<Seq<char>>
    decreases s.len(),
{
    if s.len() == 0 {
        seq![Seq::empty()]
    } else {
        let p = spec_comma_pieces(s.drop_last());
        if s.last() == ',' {
            p.push(Seq::empty())
        } else {
            p.update(p.len() - 1, p.last().push(s.last()))
        }
    }
}

/// The pieces, trimmed, without the empty ones.
pub open spec fn spec_nonempty_trimmed(ps: Seq<Seq<char>>) -> Seq<Seq<char>>
    decreases ps.len(),
{
    if ps.len() == 0 {
        Seq::empty()
    } else {
        let rest = spec_nonempty_trimmed(ps.drop_last());
        if spec_trim(ps.last()).len() > 0 {
            rest.push(spec_trim(ps.last()))
        } else {
            rest
        }
    }
}

/// The names bound by a `for` loop: the comma-separated, trimmed, non-empty names.
pub open spec fn spec_binding_names(s: Seq<char>) -> Seq<Seq<char>> {
    spec_nonempty_trimmed(spec_comma_pieces(s))
}

proof fn lemma_comma_pieces_nonempty(s: Seq<char>)
    ensures
        spec_comma_pieces(s).len() >= 1,
    decreases s.len(),
{
    if s.len() > 0 {
        lemma_comma_pieces_nonempty(s.drop_last());
    }
}

/// The views of a vector of strings.
pub open spec fn strings_view(v: Seq<String>) -> Seq<Seq<char>> {
    v.map_values(|x: String| x@)
}

/// The names a `for` loop binds, split at commas; an error if there is none.
fn split_binding_names(module: &str, binding: &str) -> (r: Result<Vec<String>, ManifestCompileError>)
    ensures
        spec_binding_names(binding@).len() > 0 ==> (r matches Ok(v) && strings_view(v@)
            == spec_binding_names(binding@)),
        spec_binding_names(binding@).len() == 0 ==> (r matches Err(e) && is_unsupported_statement(e, module@)),
{
    let cs = to_chars(binding);
    let mut names: Vec<String> = Vec::new();
    let mut current: Vec<char> = Vec::new();
    let mut i: usize = 0;
    while i < cs.len()
        invariant
            i <= cs@.len(),
            cs@ == binding@,
            ({
                let p = spec_comma_pieces(cs@.subrange(0, i as int));
                &&& p.len() >= 1
                &&& current@ == p.last()
                &&& strings_view(names@) == spec_nonempty_trimmed(p.drop_last())
            }),
        decreases cs@.len() - i,
    {
        let ghost before = cs@.subrange(0, i as int);
        proof {
            assert(cs@.subrange(0, i + 1).drop_last() == before);
            lemma_comma_pieces_nonempty(before);
        }
        if cs[i] == ',' {
            let t = trim(current.as_slice());
            if t.len() > 0 {
                let name = from_chars(t.as_slice());
                proof {
                    assert(strings_view(names@.push(name)) == strings_view(names@).push(name@));
                }
                names.push(name);
            }
            proof {
                let p = spec_comma_pieces(before);
                assert(spec_comma_pieces(cs@.subrange(0, i + 1)) == p.push(Seq::<char>::empty()));
                assert(p.push(Seq::<char>::empty()).drop_last() == p);
                assert(p == p.drop_last().push(p.last()));
            }
            current = Vec::new();
        } else {
            current.push(cs[i]);
            proof {
                let p = spec_comma_pieces(before);
                let q = p.update(p.len() - 1, p.last().push(cs@[i as int]));
                assert(q.drop_last() == p.drop_last());
            }
        }
        i = i + 1;
    }
    let t = trim(current.as_slice());
    if t.len() > 0 {
        let name = from_chars(t.as_slice());
        proof {
            assert(strings_view(names@.push(name)) == strings_view(names@).push(name@));
        }
        names.push(name);
    }
    proof {
        let p = spec_comma_pieces(cs@.subrange(0, i as int));
        assert(cs@.subrange(0, i as int) == binding@);
        assert(p == p.drop_last().push(p.last()));
    }
    if names.len() == 0 {
        return Err(unsupported_statement(module, str_to_string("for binding missing")));
    }
    Ok(names)
}

/// The value of a number literal: hexadecimal after `0x`, else decimal.
pub open spec fn spec_number_literal(raw: Seq<char>) -> Option<i64> {
    if spec_starts_with(raw, seq!['0', 'x']) {
        spec_parse_i64(raw.subrange(2, raw.len() as int), 16)
    } else {
        spec_parse_i64(raw, 10)
    }
}

/// The value of a number literal.
pub(crate) fn number_literal(raw: &str) -> (r: Option<i64>)
    ensures
        r == spec_number_literal(raw@),
{
    let cs = to_chars(raw);
    let prefix: Vec<char> = vec!['0', 'x'];
    if starts_with(cs.as_slice(), prefix.as_slice()) {
        let rest = copy_range(cs.as_slice(), 2, cs.len());
        parse_i64(rest.as_slice(), 16)
    } else {
        parse_i64(cs.as_slice(), 10)
    }
}

/// The bytes a string literal is stored as.
pub open spec fn spec_string_bytes(v: Seq<char>) -> Seq<u8> {
    spec_encode_bytes(vstd::utf8::encode_utf8(v))
}

/// The value of a literal: numbers and booleans are constants, strings and byte strings are
/// placed in static data and stand for their offset.
fn lower_literal(module: &str, literal: &DslLiteral, data: &mut DataAllocator) -> (r: Result<
    Expr,
    ManifestCompileError,
>)
    ensures
        final(data).extends(old(data)),
        match literal {
            DslLiteral::Bool(b) => r matches Ok(e) && e@ == v_i32(if *b { 1 } else { 0 })
                && *final(data) == *old(data),
            DslLiteral::Number(raw) => *final(data) == *old(data) && match spec_number_literal(raw@) {
                Some(n) => r matches Ok(e) && e@ == ExprView::ConstI64(n),
                None => r matches Err(e) && is_unsupported_expression(e, module@),
            },
            DslLiteral::String(v) => r matches Ok(e) && e@ == v_i32(
                spec_segment_offset(old(data).next_offset) as i32,
            ) && final(data).segments@.len() == old(data).segments@.len() + 1
                && final(data).segments@.last().bytes@ == spec_string_bytes(v@),
            DslLiteral::Bytes(v) => r matches Ok(e) && e@ == v_i32(
                spec_segment_offset(old(data).next_offset) as i32,
            ) && final(data).segments@.len() == old(data).segments@.len() + 1
                && final(data).segments@.last().bytes@ == spec_encode_bytes(v@),
            DslLiteral::Null => r matches Err(e) && is_unsupported_expression(e, module@)
                && *final(data) == *old(data),
        },
        lowered_as(r, module@, spec_lower_literal(*literal, old(data).dv()), final(data).dv()),
{
    match literal {
        DslLiteral::Bool(b) => Ok(Expr::ConstI32(if *b { 1 } else { 0 })),
        DslLiteral::Number(raw) => match number_literal(raw.as_str()) {
            Some(n) => Ok(Expr::ConstI64(n)),
            None => Err(unsupported_expression(module, copy_string(raw))),
        },
        DslLiteral::String(v) => {
            let bytes = encode_string(v.as_str());
            let offset = data.allocate(bytes);
            Ok(Expr::ConstI32(offset as i32))
        },
        DslLiteral::Bytes(v) => {
            let bytes = encode_bytes(v.as_slice());
            let offset = data.allocate(bytes);
            Ok(Expr::ConstI32(offset as i32))
        },
        DslLiteral::Null => Err(unsupported_expression(module, str_to_string("None"))),
    }
}

/// Places the storage key of state field `name` and a four-byte length slot in static data.
/// Returns the key's offset, the key's length and the slot's offset.
fn alloc_state_key(data: &mut DataAllocator, name: &str) -> (r: (u32, u32, u32))
    ensures
        final(data).extends(old(data)),
        final(data).segments@.len() == old(data).segments@.len() + 2,
        final(data).segments@[old(data).segments@.len() as int].bytes@ == spec_string_bytes(name@),
        final(data).segments@[old(data).segments@.len() + 1int].bytes@ == seq![0u8, 0u8, 0u8, 0u8],
        r.0 == spec_segment_offset(old(data).next_offset),
        r.0 == final(data).segments@[old(data).segments@.len() as int].offset,
        r.1 == spec_string_bytes(name@).len() as u32,
        r.2 == final(data).segments@[old(data).segments@.len() + 1int].offset,
        (final(data).dv(), r.0, r.1, r.2) == spec_state_key(old(data).dv(), name@),
{
    let key = encode_string(name);
    let key_len = key.len() as u32;
    let ghost mid_len = data.segments@.len();
    let key_ptr = data.allocate(key);
    let ghost mid = *data;
    let out_len_ptr = data.allocate(vec![0u8, 0u8, 0u8, 0u8]);
    assert(data.segments@[mid_len as int] == mid.segments@[mid_len as int]);
    (key_ptr, key_len, out_len_ptr)
}

/// A read of the state value whose key is the literal argument, as a 64-bit integer.
fn lower_state_read(module: &str, args: &[DslCallArg], data: &mut DataAllocator, structs: &[DslStruct]) -> (r: Result<
    Expr,
    ManifestCompileError,
>)
    ensures
        final(data).extends(old(data)),
        ({
            let key = if spec_all_positional(args@) && args@.len() == 1 {
                spec_literal_bytes(args@[0]->Positional_0, structs@)
            } else {
                None
            };
            match key {
                Some(k) => r matches Ok(e) && final(data).segments@.len() == old(data).segments@.len() + 2
                    && final(data).segments@[old(data).segments@.len() as int].bytes@ == k
                    && e@ == ExprView::StateRead {
                    key_ptr: spec_segment_offset(old(data).next_offset),
                    key_len: k.len() as u32,
                    out_len_ptr: final(data).segments@[old(data).segments@.len() + 1int].offset,
                    ty: ValueType::I64,
                },
                None => r matches Err(e) && is_unsupported_expression(e, module@),
            }
        }),
        lowered_as(r, module@, spec_lower_state_read(args@, structs@, old(data).dv()), final(data).dv()),
{
    let positional = match call_args_to_positional(module, args) {
        Ok(p) => p,
        Err(e) => {
            return Err(e);
        },
    };
    if positional.len() != 1 {
        return Err(unsupported_expression(module, str_to_string("state_read arity")));
    }
    let key_bytes = match literal_to_bytes(module, positional[0], structs) {
        Ok(b) => b,
        Err(e) => {
            return Err(e);
        },
    };
    let key_len = key_bytes.len() as u32;
    let ghost n = data.segments@.len();
    let key_ptr = data.allocate(crate::dsl::copy_bytes(&key_bytes));
    let ghost mid = *data;
    let out_len_ptr = data.allocate(vec![0u8, 0u8, 0u8, 0u8]);
    assert(data.segments@[n as int] == mid.segments@[n as int]);
    Ok(Expr::StateRead { key_ptr, key_len, out_len_ptr, ty: ValueType::I64 })
}


// ---------------------------------------------------------------------------
// Struct fields and named values
// ---------------------------------------------------------------------------

/// The cursor at the length prefix of field `k` of the struct value at `base`: the fields
/// follow a four-byte total length, each as a four-byte length and its bytes.
pub open spec fn v_field_cursor(base: ExprView, k: nat) -> ExprView
    decreases k,
{
    if k == 0 {
        v_add(base, v_i32(4))
    } else {
        let c = v_field_cursor(base, (k - 1) as nat);
        v_add(v_add(c, v_i32(4)), v_load_i32(c))
    }
}

/// The position of the first field named `name`.
pub open spec fn spec_first_field(fields: Seq<crate::dsl::DslStructField>, name: Seq<char>) -> Option<int> {
    if exists|k: int| 0 <= k < fields.len() && (#[trigger] fields[k]).name@ == name {
        let k = choose|k: int|
            0 <= k < fields.len() && (#[trigger] fields[k]).name@ == name && forall|m: int|
                0 <= m < k ==> (#[trigger] fields[m]).name@ != name;
        Some(k)
    } else {
        None
    }
}

/// The first field named `name` is at `k` when no field before `k` has that name.
proof fn lemma_first_field(fields: Seq<crate::dsl::DslStructField>, name: Seq<char>, k: int)
    requires
        0 <= k < fields.len(),
        fields[k].name@ == name,
        forall|m: int| 0 <= m < k ==> (#[trigger] fields[m]).name@ != name,
    ensures
        spec_first_field(fields, name) == Some(k),
{
    assert(exists|j: int|
        0 <= j < fields.len() && (#[trigger] fields[j]).name@ == name && forall|m: int|
            0 <= m < j ==> (#[trigger] fields[m]).name@ != name);
    let c = spec_first_field(fields, name)->Some_0;
    assert(0 <= c < fields.len() && fields[c].name@ == name);
    if c < k {
        assert(fields[c].name@ != name);
    } else if c > k {
        assert(fields[k].name@ != name);
    }
}

/// The type of field `field_name` of the struct value at `base`, and a pointer to its bytes.
fn resolve_struct_field_expr(module: &str, base: Expr, def: &DslStruct, field_name: &str) -> (r: Result<
    (DslType, Expr),
    ManifestCompileError,
>)
    ensures
        match spec_first_field(def.fields@, field_name@) {
            Some(k) => r matches Ok((t, p)) && t@ == def.fields@[k].ty@ && p@ == v_add(
                v_field_cursor(base@, k as nat),
                v_i32(4),
            ),
            None => r matches Err(e) && is_unsupported_expression(e, module@),
        },
{
    let ghost b = base@;
    let mut cursor = add_i32(base, Expr::ConstI32(4));
    let mut k: usize = 0;
    while k < def.fields.len()
        invariant
            k <= def.fields@.len(),
            cursor@ == v_field_cursor(b, k as nat),
            b == base@,
            forall|m: int| 0 <= m < k ==> (#[trigger] def.fields@[m]).name@ != field_name@,
        decreases def.fields@.len() - k,
    {
        let field_len = load_i32(cursor.copy());
        let field_ptr = add_i32(cursor.copy(), Expr::ConstI32(4));
        if str_eq(def.fields[k].name.as_str(), field_name) {
            proof {
                lemma_first_field(def.fields@, field_name@, k as int);
            }
            let t = def.fields[k].ty.copy();
            assert(t@ == def.fields@[k as int].ty@);
            assert(field_ptr@ == v_add(v_field_cursor(b, k as nat), v_i32(4)));
            return Ok((def.fields[k].ty.copy(), field_ptr));
        }
        cursor = add_i32(field_ptr, field_len);
        k = k + 1;
    }
    Err(unsupported_expression(
        module,
        message(&["unknown field ", field_name, " in ", def.name.as_str()]),
    ))
}

/// The value of field `field_name` of the struct value at `base`: integers are loaded as
/// 64-bit words, booleans as a byte, everything else is left as a pointer.
fn lower_struct_field_expr(module: &str, base: Expr, def: &DslStruct, field_name: &str) -> (r: Result<
    Expr,
    ManifestCompileError,
>)
    ensures
        match spec_first_field(def.fields@, field_name@) {
            Some(k) => r matches Ok(e) && ({
                let t = def.fields@[k].ty@;
                let p = v_add(v_field_cursor(base@, k as nat), v_i32(4));
                e@ == if spec_is_integer(t) {
                    v_load_i64(p)
                } else if t is Bool {
                    ExprView::LoadI8(Box::new(p))
                } else {
                    p
                }
            }),
            None => r matches Err(e) && is_unsupported_expression(e, module@),
        },
{
    let (field_ty, field_ptr) = match resolve_struct_field_expr(module, base, def, field_name) {
        Ok(x) => x,
        Err(e) => {
            return Err(e);
        },
    };
    match field_ty {
        DslType::Uint { .. } | DslType::Int { .. } => Ok(load_i64(field_ptr)),
        DslType::Bool => Ok(Expr::LoadI8 { address: Box::new(field_ptr) }),
        _ => Ok(field_ptr),
    }
}

/// The declared DSL type of a name: a local's, else a parameter's, else a state field's.
pub open spec fn spec_lookup_dsl_type(scope: &Scope, fields: Seq<DslStateField>, name: Seq<char>) -> Option<TypeView> {
    match scope.local_types.lookup(name) {
        Some(t) => Some(t@),
        None => match scope.param_types.lookup(name) {
            Some(t) => Some(t@),
            None => match spec_find_field(fields, name) {
                Some(k) => Some(fields[k].ty@),
                None => None,
            },
        },
    }
}

/// The declared DSL type of a name.
fn lookup_dsl_type(name: &str, scope: &Scope, fields: &[DslStateField]) -> (r: Option<DslType>)
    ensures
        match r {
            Some(t) => spec_lookup_dsl_type(scope, fields@, name@) == Some(t@),
            None => spec_lookup_dsl_type(scope, fields@, name@) is None,
        },
{
    if let Some(t) = scope.local_types.get_type(name) {
        return Some(t);
    }
    if let Some(t) = scope.param_types.get_type(name) {
        return Some(t);
    }
    match find_field(fields, name) {
        Some(k) => Some(fields[k].ty.copy()),
        None => None,
    }
}

/// The local a loop binds to `name`: the existing local of that name, which must have the
/// machine type of `dsl_type`, or a new local declared with it. Also whether it is new.
fn ensure_binding_local(module: &str, name: &str, dsl_type: &DslType, scope: &mut Scope) -> (r: Result<
    (u32, bool),
    ManifestCompileError,
>)
    ensures
        final(scope).grows(old(scope)),
        match old(scope).locals.lookup(name@) {
            Some((index, ty)) => *final(scope) == *old(scope) && if ty == spec_map_type(dsl_type@) {
                r == Ok::<(u32, bool), ManifestCompileError>((index, false))
            } else {
                r matches Err(e) && is_type_mismatch(e, module@, ty, spec_map_type(dsl_type@))
            },
            None => {
                &&& r == Ok::<(u32, bool), ManifestCompileError>((old(scope).next_slot(), true))
                &&& final(scope).local_defs@ == old(scope).local_defs@.push(
                    final(scope).local_defs@.last(),
                )
                &&& final(scope).local_defs@.last().name@ == name@
                &&& final(scope).local_defs@.last().ty == spec_map_type(dsl_type@)
                &&& final(scope).locals.lookup(name@) == Some(
                    (old(scope).next_slot(), spec_map_type(dsl_type@)),
                )
                &&& final(scope).local_types.lookup(name@) matches Some(t) && t@ == dsl_type@
                &&& forall|q: Seq<char>| q != name@ ==> #[trigger] final(scope).locals.lookup(q) == old(scope).locals.lookup(q)
            },
        },
{
    let value_type = match map_type(module, dsl_type) {
        Ok(t) => t,
        Err(e) => {
            return Err(e);
        },
    };
    if let Some((index, ty)) = scope.locals.get_slot(name) {
        if ty != value_type {
            return Err(type_mismatch(module, ty, value_type));
        }
        return Ok((index, false));
    }
    let index = slot(scope.param_count, scope.local_defs.len());
    scope.local_defs.push(Local { name: str_to_string(name), ty: value_type });
    let key = str_to_string(name);
    let ghost before = scope.locals.entries@;
    scope.locals.insert(key, (index, value_type));
    proof {
        assert forall|q: Seq<char>| q != name@ implies #[trigger] scope.locals.lookup(q) == spec_lookup(before, q) by {
            law_lookup_after_insert(before, key, (index, value_type), q);
        }
    }
    scope.local_types.insert(str_to_string(name), dsl_type.copy());
    Ok((index, true))
}

/// What a failed lowering reports.
pub ghost enum LowerErr {
    UnknownIdentifier(Seq<char>),
    TypeMismatch(ValueType, ValueType),
    UnsupportedExpression,
    UnsupportedStatement,
    UnsupportedType(Seq<char>),
}

/// Whether `e` is the error of module `module` that `k` describes.
pub open spec fn err_is(e: ManifestCompileError, module: Seq<char>, k: LowerErr) -> bool {
    match k {
        LowerErr::UnknownIdentifier(n) => is_unknown_identifier(e, module, n),
        LowerErr::TypeMismatch(x, y) => is_type_mismatch(e, module, x, y),
        LowerErr::UnsupportedExpression => is_unsupported_expression(e, module),
        LowerErr::UnsupportedStatement => is_unsupported_statement(e, module),
        LowerErr::UnsupportedType(t) => e matches ManifestCompileError::UnsupportedType { module: m, ty } && m@
            == module && ty@ == t,
    }
}

/// Whether `r`, with `after` the data once it was computed, is the outcome `s` describes.
pub open spec fn lowered_as(
    r: Result<Expr, ManifestCompileError>,
    module: Seq<char>,
    s: Result<(ExprView, DataV), LowerErr>,
    after: DataV,
) -> bool {
    match s {
        Ok((e, d)) => r matches Ok(x) && x@ == e && after == d,
        Err(k) => r matches Err(x) && err_is(x, module, k),
    }
}

/// Whether `r`, with `after` the data once it was computed, is the value and type `s`
/// describes.
pub open spec fn resolved_as(
    r: Result<(Expr, DslType), ManifestCompileError>,
    module: Seq<char>,
    s: Result<(ExprView, TypeView, DataV), LowerErr>,
    after: DataV,
) -> bool {
    match s {
        Ok((e, t, d)) => r matches Ok((x, u)) && x@ == e && u@ == t && after == d,
        Err(k) => r matches Err(x) && err_is(x, module, k),
    }
}

/// Placing the key of state field `name` and a four-byte length slot: the data after, the
/// key's offset and length, and the slot's offset.
pub open spec fn spec_state_key(d: DataV, name: Seq<char>) -> (DataV, u32, u32, u32) {
    let key = spec_string_bytes(name);
    let d1 = spec_alloc(d, key);
    let d2 = spec_alloc(d1, seq![0u8, 0u8, 0u8, 0u8]);
    (d2, spec_segment_offset(d.next), key.len() as u32, spec_segment_offset(d1.next))
}

/// A read of state field `name` of type `t`, and the data after placing its key.
pub open spec fn spec_state_field_read(d: DataV, name: Seq<char>, t: TypeView) -> (ExprView, DataV) {
    let (d2, kp, kl, ol) = spec_state_key(d, name);
    (
        if spec_is_pointer(t) {
            ExprView::StateReadRaw { key_ptr: kp, key_len: kl, out_len_ptr: ol }
        } else {
            ExprView::StateRead { key_ptr: kp, key_len: kl, out_len_ptr: ol, ty: spec_map_type(t) }
        },
        d2,
    )
}

/// A literal: booleans and numbers are constants; strings and bytes go to static data, as
/// their offset; `None` is refused here.
pub open spec fn spec_lower_literal(lit: DslLiteral, d: DataV) -> Result<(ExprView, DataV), LowerErr> {
    match lit {
        DslLiteral::Bool(b) => Ok((v_i32(if b { 1 } else { 0 }), d)),
        DslLiteral::Number(raw) => match spec_number_literal(raw@) {
            Some(n) => Ok((ExprView::ConstI64(n), d)),
            None => Err(LowerErr::UnsupportedExpression),
        },
        DslLiteral::String(v) => Ok((v_i32(spec_segment_offset(d.next) as i32), spec_alloc(d, spec_string_bytes(v@)))),
        DslLiteral::Bytes(v) => Ok((v_i32(spec_segment_offset(d.next) as i32), spec_alloc(d, spec_encode_bytes(v@)))),
        DslLiteral::Null => Err(LowerErr::UnsupportedExpression),
    }
}

/// A name read as a value: a local, else a parameter, else a state field.
pub open spec fn spec_lower_name(name: Seq<char>, scope: &Scope, fields: Seq<DslStateField>, d: DataV) -> Result<
    (ExprView, DataV),
    LowerErr,
> {
    match scope.locals.lookup(name) {
        Some((index, ty)) => Ok((ExprView::Local { index, ty }, d)),
        None => match scope.params.lookup(name) {
            Some((index, ty)) => Ok((ExprView::Param { index, ty }, d)),
            None => match spec_find_field(fields, name) {
                Some(k) => Ok(spec_state_field_read(d, name, fields[k].ty@)),
                None => Err(LowerErr::UnknownIdentifier(name)),
            },
        },
    }
}

/// A name read as a value together with its declared DSL type; other expressions are
/// refused.
pub open spec fn spec_resolve_value(expr: DslExpr, scope: &Scope, fields: Seq<DslStateField>, d: DataV) -> Result<
    (ExprView, TypeView, DataV),
    LowerErr,
> {
    match expr {
        DslExpr::Identifier(name) => match scope.locals.lookup(name@) {
            Some((index, ty)) => match scope.local_types.lookup(name@) {
                Some(t) => Ok((ExprView::Local { index, ty }, t@, d)),
                None => Err(LowerErr::UnsupportedExpression),
            },
            None => match scope.params.lookup(name@) {
                Some((index, ty)) => match scope.param_types.lookup(name@) {
                    Some(t) => Ok((ExprView::Param { index, ty }, t@, d)),
                    None => Err(LowerErr::UnsupportedExpression),
                },
                None => match spec_find_field(fields, name@) {
                    Some(k) => {
                        let (e, d2) = spec_state_field_read(d, name@, fields[k].ty@);
                        Ok((e, fields[k].ty@, d2))
                    },
                    None => Err(LowerErr::UnknownIdentifier(name@)),
                },
            },
        },
        _ => Err(LowerErr::UnsupportedExpression),
    }
}

/// The value of field `k`, of type `t`, of the struct at `base`: integers and booleans are
/// loaded, other fields are used through their pointer.
pub open spec fn spec_field_value(base: ExprView, t: TypeView, k: int) -> ExprView {
    let p = v_add(v_field_cursor(base, k as nat), v_i32(4));
    if spec_is_integer(t) {
        v_load_i64(p)
    } else if t is Bool {
        ExprView::LoadI8(Box::new(p))
    } else {
        p
    }
}

/// An attribute `target.attribute`: `is_some`/`is_none` of an optional, or a field of a
/// declared struct.
pub open spec fn spec_lower_attribute(
    target: DslExpr,
    attribute: Seq<char>,
    scope: &Scope,
    fields: Seq<DslStateField>,
    structs: Seq<DslStruct>,
    d: DataV,
) -> Result<(ExprView, DataV), LowerErr> {
    match spec_resolve_value(target, scope, fields, d) {
        Err(k) => Err(k),
        Ok((base, bt, d1)) => match bt {
            TypeView::Optional(_) => if attribute == seq!['i', 's', '_', 's', 'o', 'm', 'e'] {
                Ok((v_is_some(base), d1))
            } else if attribute == seq!['i', 's', '_', 'n', 'o', 'n', 'e'] {
                Ok((v_is_none(base), d1))
            } else {
                Err(LowerErr::UnsupportedExpression)
            },
            TypeView::Custom(name) => match spec_find_struct(structs, name) {
                None => Err(LowerErr::UnsupportedType(name)),
                Some(k) => match spec_first_field(structs[k].fields@, attribute) {
                    None => Err(LowerErr::UnsupportedExpression),
                    Some(j) => Ok((spec_field_value(base, structs[k].fields@[j].ty@, j), d1)),
                },
            },
            _ => Err(LowerErr::UnsupportedExpression),
        },
    }
}

/// `state_read(key)`: a 64-bit read of the state value whose key is the literal argument.
pub open spec fn spec_lower_state_read(args: Seq<DslCallArg>, structs: Seq<DslStruct>, d: DataV) -> Result<
    (ExprView, DataV),
    LowerErr,
> {
    if !(spec_all_positional(args) && args.len() == 1) {
        Err(LowerErr::UnsupportedExpression)
    } else {
        match spec_literal_bytes(args[0]->Positional_0, structs) {
            None => Err(LowerErr::UnsupportedExpression),
            Some(k) => {
                let d1 = spec_alloc(d, k);
                Ok(
                    (
                        ExprView::StateRead {
                            key_ptr: spec_segment_offset(d.next),
                            key_len: k.len() as u32,
                            out_len_ptr: spec_segment_offset(d1.next),
                            ty: ValueType::I64,
                        },
                        spec_alloc(d1, seq![0u8, 0u8, 0u8, 0u8]),
                    ),
                )
            },
        }
    }
}

/// The lowering of an expression from data `d`: the IR value and the data after, or the
/// error. Names, literals, attributes, arithmetic and comparisons (both sides of one machine
/// type), negation and `not`, `state_read`, host calls (arguments of the declared types) and
/// method calls on optionals are lowered; the rest is refused.
pub open spec fn spec_lower_expr(
    expr: DslExpr,
    scope: &Scope,
    fields: Seq<DslStateField>,
    structs: Seq<DslStruct>,
    d: DataV,
) -> Result<(ExprView, DataV), LowerErr>
    decreases expr, 0int,
{
    match expr {
        DslExpr::Identifier(name) => spec_lower_name(name@, scope, fields, d),
        DslExpr::Literal(lit) => spec_lower_literal(lit, d),
        DslExpr::Attribute { target, attribute } => spec_lower_attribute(*target, attribute@, scope, fields, structs, d),
        DslExpr::Binary { left, op, right } => match spec_lower_expr(*left, scope, fields, structs, d) {
            Err(k) => Err(k),
            Ok((l, d1)) => match spec_lower_expr(*right, scope, fields, structs, d1) {
                Err(k) => Err(k),
                Ok((r, d2)) => if l.value_type() != r.value_type() {
                    Err(LowerErr::TypeMismatch(l.value_type(), r.value_type()))
                } else {
                    Ok((v_binary(op, l, r), d2))
                },
            },
        },
        DslExpr::Unary { op, expr: inner } => match spec_lower_expr(*inner, scope, fields, structs, d) {
            Err(k) => Err(k),
            Ok((e, d1)) => Ok(
                (
                    match op {
                        DslUnaryOp::Neg => ExprView::Binary {
                            op: BinaryOp::Sub,
                            left: Box::new(ExprView::ConstI64(0)),
                            right: Box::new(e),
                            ty: ValueType::I64,
                        },
                        DslUnaryOp::Not => v_boolify(e),
                    },
                    d1,
                ),
            ),
        },
        DslExpr::Call { callee, args } => {
            proof {
                assert(decreases_to!(expr => args));
                assert(decreases_to!(args => args@));
            }
            match *callee {
                DslExpr::Attribute { target, attribute } => spec_lower_attr_call(
                    attribute@,
                    *target,
                    args@,
                    scope,
                    fields,
                    structs,
                    d,
                ),
                DslExpr::Identifier(name) => if name@ == seq!['s', 't', 'a', 't', 'e', '_', 'r', 'e', 'a', 'd'] {
                    spec_lower_state_read(args@, structs, d)
                } else {
                    match HostFunction::spec_from_identifier(name@) {
                        Some(host) => if !spec_all_positional(args@) || args@.len() != host.spec_params().len() {
                            Err(LowerErr::UnsupportedExpression)
                        } else {
                            match spec_lower_args(args@, 0, host.spec_params(), scope, fields, structs, d, Seq::empty()) {
                                Err(k) => Err(k),
                                Ok((xs, d1)) => Ok((ExprView::HostCall { function: host, args: xs }, d1)),
                            }
                        },
                        None => Err(LowerErr::UnsupportedExpression),
                    }
                },
                _ => Err(LowerErr::UnsupportedExpression),
            }
        },
        _ => Err(LowerErr::UnsupportedExpression),
    }
}

/// The positional arguments from `i` on, each lowered in turn and of the expected machine
/// type, after `acc`.
pub open spec fn spec_lower_args(
    args: Seq<DslCallArg>,
    i: int,
    expected: Seq<ValueType>,
    scope: &Scope,
    fields: Seq<DslStateField>,
    structs: Seq<DslStruct>,
    d: DataV,
    acc: Seq<ExprView>,
) -> Result<(Seq<ExprView>, DataV), LowerErr>
    decreases args, args.len() - i,
{
    if i < 0 || i >= args.len() {
        Ok((acc, d))
    } else {
        proof {
            assert(decreases_to!(args => args[i]));
        }
        match args[i] {
            DslCallArg::Positional(x) => match spec_lower_expr(x, scope, fields, structs, d) {
                Err(k) => Err(k),
                Ok((a, d1)) => if a.value_type() != expected[i] {
                    Err(LowerErr::TypeMismatch(expected[i], a.value_type()))
                } else {
                    spec_lower_args(args, i + 1, expected, scope, fields, structs, d1, acc.push(a))
                },
            },
            _ => Err(LowerErr::UnsupportedExpression),
        }
    }
}

/// `base.unwrap_or(default)` for an optional of `inner` at `base`, given the lowered default:
/// a select on `is_some`, the default having the inner type's machine type.
pub open spec fn spec_unwrap_or(base: ExprView, inner: TypeView, dflt: Result<(ExprView, DataV), LowerErr>) -> Result<
    (ExprView, DataV),
    LowerErr,
> {
    match dflt {
        Err(k) => Err(k),
        Ok((x, d2)) => {
            let expected = spec_map_type(inner);
            if x.value_type() != expected {
                Err(LowerErr::TypeMismatch(expected, x.value_type()))
            } else {
                Ok(
                    (
                        ExprView::Select {
                            condition: Box::new(v_is_some(base)),
                            if_true: Box::new(v_unwrap(inner, base)),
                            if_false: Box::new(x),
                            ty: expected,
                        },
                        d2,
                    ),
                )
            }
        },
    }
}

/// A method call `target.attribute(args)` on an optional: `is_some()`, `unwrap()` or
/// `unwrap_or(default)`, the default of the inner type's machine type.
pub open spec fn spec_lower_attr_call(
    attribute: Seq<char>,
    target: DslExpr,
    args: Seq<DslCallArg>,
    scope: &Scope,
    fields: Seq<DslStateField>,
    structs: Seq<DslStruct>,
    d: DataV,
) -> Result<(ExprView, DataV), LowerErr>
    decreases args, 0int,
{
    match spec_resolve_value(target, scope, fields, d) {
        Err(k) => Err(k),
        Ok((base, bt, d1)) => match bt {
            TypeView::Optional(inner) => if !spec_all_positional(args) {
                Err(LowerErr::UnsupportedExpression)
            } else if attribute == seq!['i', 's', '_', 's', 'o', 'm', 'e'] {
                if args.len() != 0 {
                    Err(LowerErr::UnsupportedExpression)
                } else {
                    Ok((v_is_some(base), d1))
                }
            } else if attribute == seq!['u', 'n', 'w', 'r', 'a', 'p'] {
                if args.len() != 0 {
                    Err(LowerErr::UnsupportedExpression)
                } else {
                    Ok((v_unwrap(*inner, base), d1))
                }
            } else if attribute == seq!['u', 'n', 'w', 'r', 'a', 'p', '_', 'o', 'r'] {
                if args.len() != 1 {
                    Err(LowerErr::UnsupportedExpression)
                } else {
                    proof {
                        assert(decreases_to!(args => args[0]));
                    }
                    match args[0] {
                        DslCallArg::Positional(x) => spec_unwrap_or(
                            base,
                            *inner,
                            spec_lower_expr(x, scope, fields, structs, d1),
                        ),
                        _ => Err(LowerErr::UnsupportedExpression),
                    }
                }
            } else {
                Err(LowerErr::UnsupportedExpression)
            },
            _ => Err(LowerErr::UnsupportedExpression),
        },
    }
}

/// What a named value resolves to, with its DSL type: a local or parameter with a known
/// type, or a read of a state field (raw, as a pointer, for pointer types).
fn resolve_value_expr(
    module: &str,
    expr: &DslExpr,
    scope: &Scope,
    data: &mut DataAllocator,
    fields: &[DslStateField],
) -> (r: Result<(Expr, DslType), ManifestCompileError>)
    ensures
        final(data).extends(old(data)),
        match expr {
            DslExpr::Identifier(name) => match scope.locals.lookup(name@) {
                Some((index, ty)) => *final(data) == *old(data) && match scope.local_types.lookup(name@) {
                    Some(t) => r matches Ok((e, u)) && e@ == ExprView::Local { index, ty } && u@ == t@,
                    None => r matches Err(e) && is_unsupported_expression(e, module@),
                },
                None => match scope.params.lookup(name@) {
                    Some((index, ty)) => *final(data) == *old(data) && match scope.param_types.lookup(name@) {
                        Some(t) => r matches Ok((e, u)) && e@ == ExprView::Param { index, ty } && u@ == t@,
                        None => r matches Err(e) && is_unsupported_expression(e, module@),
                    },
                    None => match spec_find_field(fields@, name@) {
                        Some(k) => r matches Ok((e, u)) && u@ == fields@[k].ty@
                            && final(data).segments@.len() == old(data).segments@.len() + 2
                            && final(data).segments@[old(data).segments@.len() as int].bytes@
                            == spec_string_bytes(name@) && e@ == (if spec_is_pointer(u@) {
                            ExprView::StateReadRaw {
                                key_ptr: spec_segment_offset(old(data).next_offset),
                                key_len: spec_string_bytes(name@).len() as u32,
                                out_len_ptr: final(data).segments@[old(data).segments@.len() + 1int].offset,
                            }
                        } else {
                            ExprView::StateRead {
                                key_ptr: spec_segment_offset(old(data).next_offset),
                                key_len: spec_string_bytes(name@).len() as u32,
                                out_len_ptr: final(data).segments@[old(data).segments@.len() + 1int].offset,
                                ty: spec_map_type(u@),
                            }
                        }),
                        None => r matches Err(e) && is_unknown_identifier(e, module@, name@),
                    },
                },
            },
            _ => r matches Err(e) && is_unsupported_expression(e, module@),
        },
    resolved_as(r, module@, spec_resolve_value(*expr, scope, fields@, old(data).dv()), final(data).dv()),
{
    let name = match expr {
        DslExpr::Identifier(name) => name,
        _ => {
            let d = expr_debug(expr);
            return Err(unsupported_expression(module, message(&["unsupported target ", d.as_str()])));
        },
    };
    if let Some((index, ty)) = scope.locals.get_slot(name.as_str()) {
        return match scope.local_types.get_type(name.as_str()) {
            Some(t) => Ok((Expr::Local { index, ty }, t)),
            None => Err(unsupported_expression(module, message(&["missing type for ", name.as_str()]))),
        };
    }
    if let Some((index, ty)) = scope.params.get_slot(name.as_str()) {
        return match scope.param_types.get_type(name.as_str()) {
            Some(t) => Ok((Expr::Param { index, ty }, t)),
            None => Err(unsupported_expression(module, message(&["missing type for ", name.as_str()]))),
        };
    }
    if let Some(k) = find_field(fields, name.as_str()) {
        let field_ty = fields[k].ty.copy();
        let (key_ptr, key_len, out_len_ptr) = alloc_state_key(data, name.as_str());
        if is_pointer_type(&field_ty) {
            return Ok((Expr::StateReadRaw { key_ptr, key_len, out_len_ptr }, field_ty));
        }
        let ty = match map_type(module, &field_ty) {
            Ok(t) => t,
            Err(e) => {
                return Err(e);
            },
        };
        return Ok((Expr::StateRead { key_ptr, key_len, out_len_ptr, ty }, field_ty));
    }
    Err(unknown_identifier(module, name.as_str()))
}


// ---------------------------------------------------------------------------
// Values in memory
// ---------------------------------------------------------------------------

/// What a name holds in the function: the local or parameter it names, with its DSL type
/// where one is known.
pub open spec fn spec_named_value(scope: &Scope, name: Seq<char>) -> Option<(ExprView, Option<TypeView>)> {
    match scope.locals.lookup(name) {
        Some((index, ty)) => Some((ExprView::Local { index, ty }, match scope.local_types.lookup(name) {
            Some(t) => Some(t@),
            None => None,
        })),
        None => match scope.params.lookup(name) {
            Some((index, ty)) => Some((ExprView::Param { index, ty }, match scope.param_types.lookup(name) {
                Some(t) => Some(t@),
                None => None,
            })),
            None => None,
        },
    }
}

/// Whether `e` calls `Some` or a declared struct: a value built in fresh memory.
pub open spec fn spec_is_constructor(e: DslExpr, structs: Seq<DslStruct>) -> bool {
    e matches DslExpr::Call { callee, .. } && (*callee matches DslExpr::Identifier(name) && (
        name@ == seq!['S', 'o', 'm', 'e'] || spec_find_struct(structs, name@) is Some))
}

/// The name maps of a scope: what a name means does not change while temporaries are
/// declared.
pub ghost struct NamesV {
    pub params: NameMap<(u32, ValueType)>,
    pub param_types: NameMap<DslType>,
    pub locals: NameMap<(u32, ValueType)>,
    pub local_types: NameMap<DslType>,
}

impl Scope {
    /// The name maps of the scope.
    pub open spec fn names(&self) -> NamesV {
        NamesV {
            params: self.params,
            param_types: self.param_types,
            locals: self.locals,
            local_types: self.local_types,
        }
    }

    /// The number of slots taken: parameters, then locals.
    pub open spec fn taken(&self) -> int {
        self.param_count + self.local_defs@.len()
    }
}

/// `spec_named_value` over name maps.
pub open spec fn spec_named_value_n(names: NamesV, name: Seq<char>) -> Option<(ExprView, Option<TypeView>)> {
    match names.locals.lookup(name) {
        Some((index, ty)) => Some((ExprView::Local { index, ty }, match names.local_types.lookup(name) {
            Some(t) => Some(t@),
            None => None,
        })),
        None => match names.params.lookup(name) {
            Some((index, ty)) => Some((ExprView::Param { index, ty }, match names.param_types.lookup(name) {
                Some(t) => Some(t@),
                None => None,
            })),
            None => None,
        },
    }
}

/// A buffer: the statements that fill it, its pointer and its length, the number of
/// temporary locals the statements declare, and the static data after.
pub ghost struct BufV {
    pub stmts: Seq<StmtView>,
    pub ptr: ExprView,
    pub len: ExprView,
    pub temps: nat,
    pub data: DataV,
}

/// The buffer of a scalar value `v`: a fresh static slot of four or eight zero bytes, and the
/// store of the value into it.
pub open spec fn spec_scalar_buf(v: ExprView, d: DataV) -> BufV {
    let size: int = if v.value_type() == ValueType::I64 { 8 } else { 4 };
    let ptr = spec_segment_offset(d.next);
    BufV {
        stmts: seq![StmtView::Store {
            address: v_i32(ptr as i32),
            value: v,
            width: if size == 8 { StoreWidth::I64 } else { StoreWidth::I32 },
        }],
        ptr: v_i32(ptr as i32),
        len: v_i32(size as i32),
        temps: 0,
        data: spec_alloc(d, Seq::new(size as nat, |i: int| 0u8)),
    }
}

/// The buffer of a named value `v` of DSL type `t` (if known), `n` slots being taken:
/// encoded values are used in place, lists get their length computed, scalars are stored.
pub open spec fn spec_named_buffer(t: Option<TypeView>, v: ExprView, n: int, d: DataV) -> Result<BufV, LowerErr> {
    match t {
        Some(t) => if spec_is_byte_string(t) || t is Custom || t is Any {
            Ok(BufV { stmts: Seq::empty(), ptr: v, len: v_prefixed_len(v), temps: 0, data: d })
        } else if t is Optional {
            Ok(BufV { stmts: Seq::empty(), ptr: v, len: v_optional_len(*t->Optional_0, v), temps: 0, data: d })
        } else if t is List {
            match v_list_step(*t->List_0, spec_slot(n + 2)) {
                Some(step) => Ok(
                    BufV {
                        stmts: v_list_total_length(
                            spec_slot(n),
                            spec_slot(n + 1),
                            spec_slot(n + 2),
                            spec_slot(n + 3),
                            v,
                            step,
                        ),
                        ptr: v,
                        len: v_local(spec_slot(n + 1)),
                        temps: 4,
                        data: d,
                    },
                ),
                None => Err(LowerErr::UnsupportedType(crate::dsl::spec_type_text(*t->List_0))),
            }
        } else if t is Mapping {
            Err(LowerErr::UnsupportedExpression)
        } else {
            Ok(spec_scalar_buf(v, d))
        },
        None => Ok(spec_scalar_buf(v, d)),
    }
}

/// The buffer of the encoded value of `expr`, `n` slots being taken: literals go to static
/// data, `Some(..)` and struct calls are built in fresh memory, names are used as
/// `spec_named_buffer` says; the rest is refused.
pub open spec fn spec_value_buffer(expr: DslExpr, names: NamesV, n: int, structs: Seq<DslStruct>, d: DataV) -> Result<
    BufV,
    LowerErr,
>
    decreases expr, 0int,
{
    match spec_literal_bytes(expr, structs) {
        Some(b) => Ok(
            BufV {
                stmts: Seq::empty(),
                ptr: v_i32(spec_segment_offset(d.next) as i32),
                len: v_i32(b.len() as i32),
                temps: 0,
                data: spec_alloc(d, b),
            },
        ),
        None => match expr {
            DslExpr::Call { callee, args } => {
                proof {
                    assert(decreases_to!(expr => args));
                    assert(decreases_to!(args => args@));
                }
                match *callee {
                    DslExpr::Identifier(name) => if name@ == seq!['S', 'o', 'm', 'e'] {
                        spec_optional_buffer(args@, names, n, structs, d)
                    } else {
                        match spec_find_struct(structs, name@) {
                            Some(k) => spec_struct_buffer(structs[k], args@, names, n, structs, d),
                            None => Err(LowerErr::UnsupportedExpression),
                        }
                    },
                    _ => Err(LowerErr::UnsupportedExpression),
                }
            },
            DslExpr::Identifier(name) => match spec_named_value_n(names, name@) {
                None => Err(LowerErr::UnknownIdentifier(name@)),
                Some((v, t)) => spec_named_buffer(t, v, n, d),
            },
            _ => Err(LowerErr::UnsupportedExpression),
        },
    }
}

/// `Some(x)` around the buffer `inner` of `x`, `n` slots having been taken before it: a tag
/// byte of one followed by a copy of the inner bytes, in fresh memory.
pub open spec fn spec_wrap_some(inner: BufV, n: int) -> BufV {
    let m = n + inner.temps;
    let ip = spec_slot(m);
    let il = spec_slot(m + 1);
    let pp = spec_slot(m + 2);
    let total = v_add(v_local(il), v_i32(1));
    BufV {
        stmts: inner.stmts + seq![
            v_let(ip, inner.ptr),
            v_let(il, inner.len),
            v_let(pp, ExprView::HostCall { function: HostFunction::MemoryDeterministicMalloc, args: seq![total] }),
            StmtView::Store { address: v_local(pp), value: v_i32(1), width: StoreWidth::I8 },
        ] + v_copy_bytes(spec_slot(m + 3), v_local(ip), v_add(v_local(pp), v_i32(1)), v_local(il)),
        ptr: v_local(pp),
        len: total,
        temps: inner.temps + 4,
        data: inner.data,
    }
}

/// The buffer of `Some(args)`.
pub open spec fn spec_optional_buffer(args: Seq<DslCallArg>, names: NamesV, n: int, structs: Seq<DslStruct>, d: DataV) -> Result<
    BufV,
    LowerErr,
>
    decreases args, 0int,
{
    if !(spec_all_positional(args) && args.len() == 1) {
        Err(LowerErr::UnsupportedExpression)
    } else {
        proof {
            assert(decreases_to!(args => args[0]));
        }
        match args[0] {
            DslCallArg::Positional(x) => match spec_value_buffer(x, names, n, structs, d) {
                Err(k) => Err(k),
                Ok(inner) => Ok(spec_wrap_some(inner, n)),
            },
            _ => Err(LowerErr::UnsupportedExpression),
        }
    }
}

/// The fields of a struct value from field `i` on, `m` slots being taken: each field's
/// value buffer, its length and pointer kept in two fresh locals and its size added to the
/// payload length in local `payload`. Returns the statements after `acc`, the (length,
/// pointer) locals after `info`, the slots taken and the data after.
pub open spec fn spec_struct_fields(
    fs: Seq<crate::dsl::DslStructField>,
    args: Seq<DslCallArg>,
    i: int,
    payload: u32,
    names: NamesV,
    m: int,
    structs: Seq<DslStruct>,
    d: DataV,
    acc: Seq<StmtView>,
    info: Seq<(u32, u32)>,
) -> Result<(Seq<StmtView>, Seq<(u32, u32)>, int, DataV), LowerErr>
    decreases args, fs.len() - i,
{
    if i < 0 || i >= fs.len() {
        Ok((acc, info, m, d))
    } else if spec_repeats_name(fs, i) {
        Err(LowerErr::UnsupportedExpression)
    } else {
        match spec_last_named(args, fs[i].name@) {
            None => Err(LowerErr::UnsupportedExpression),
            Some(j) => if 0 <= j < args.len() {
                proof {
                    assert(decreases_to!(args => args[j]));
                }
                match args[j] {
                    DslCallArg::Named { value, .. } => match spec_value_buffer(value, names, m, structs, d) {
                        Err(k) => Err(k),
                        Ok(b) => {
                            let li = spec_slot(m + b.temps);
                            let pi = spec_slot(m + b.temps + 1);
                            spec_struct_fields(
                                fs,
                                args,
                                i + 1,
                                payload,
                                names,
                                m + b.temps + 2,
                                structs,
                                b.data,
                                acc + b.stmts + seq![
                                    v_let(li, b.len),
                                    v_let(pi, b.ptr),
                                    v_assign(payload, v_add(v_add(v_local(payload), v_local(li)), v_i32(4))),
                                ],
                                info.push((li, pi)),
                            )
                        },
                    },
                    _ => Err(LowerErr::UnsupportedExpression),
                }
            } else {
                Err(LowerErr::UnsupportedExpression)
            },
        }
    }
}

/// The copies of the fields from `k` on into the struct value at local `cursor`, `c` slots
/// being taken: each a four-byte length, then its bytes. Returns the statements after `acc`.
pub open spec fn spec_struct_copies(info: Seq<(u32, u32)>, k: int, cursor: u32, c: int, acc: Seq<StmtView>) -> Seq<
    StmtView,
>
    decreases info.len() - k,
{
    if k < 0 || k >= info.len() {
        acc
    } else {
        let (li, pi) = info[k];
        spec_struct_copies(
            info,
            k + 1,
            cursor,
            c + 1,
            acc + seq![
                StmtView::Store { address: v_local(cursor), value: v_local(li), width: StoreWidth::I32 },
                v_assign(cursor, v_add(v_local(cursor), v_i32(4))),
            ] + v_copy_bytes(spec_slot(c), v_local(pi), v_local(cursor), v_local(li)) + seq![
                v_assign(cursor, v_add(v_local(cursor), v_local(li))),
            ],
        )
    }
}

/// The buffer of struct `def` built from named arguments `args`, `n` slots being taken: a
/// four-byte payload length, then each field in declaration order as a four-byte length and
/// its bytes, in fresh memory. Every field needs exactly one argument of its name.
pub open spec fn spec_struct_buffer(
    def: DslStruct,
    args: Seq<DslCallArg>,
    names: NamesV,
    n: int,
    structs: Seq<DslStruct>,
    d: DataV,
) -> Result<BufV, LowerErr>
    decreases args, def.fields@.len() + 1,
{
    if !spec_all_named(args) {
        Err(LowerErr::UnsupportedExpression)
    } else {
        let payload = spec_slot(n);
        match spec_struct_fields(
            def.fields@,
            args,
            0,
            payload,
            names,
            n + 1,
            structs,
            d,
            seq![v_let(payload, v_i32(0))],
            Seq::empty(),
        ) {
            Err(k) => Err(k),
            Ok((stmts, info, m, d1)) => if !spec_names_covered(args, def.fields@) {
                Err(LowerErr::UnsupportedExpression)
            } else {
                let total = v_add(v_local(payload), v_i32(4));
                let sp = spec_slot(m);
                let cursor = spec_slot(m + 1);
                let head = stmts + seq![
                    v_let(sp, ExprView::HostCall { function: HostFunction::MemoryDeterministicMalloc, args: seq![total] }),
                    StmtView::Store { address: v_local(sp), value: v_local(payload), width: StoreWidth::I32 },
                    v_let(cursor, v_add(v_local(sp), v_i32(4))),
                ];
                Ok(
                    BufV {
                        stmts: spec_struct_copies(info, 0, cursor, m + 2, head),
                        ptr: v_local(sp),
                        len: total,
                        temps: (m + 2 + info.len() - n) as nat,
                        data: d1,
                    },
                )
            },
        }
    }
}

/// Whether `r`, with the scopes before and after and the data after, is the buffer `s`
/// describes.
pub open spec fn buffer_as(
    r: Result<(Vec<Stmt>, Expr, Expr), ManifestCompileError>,
    module: Seq<char>,
    s: Result<BufV, LowerErr>,
    before: &Scope,
    after: &Scope,
    data: DataV,
) -> bool {
    match s {
        Ok(b) => {
            &&& r matches Ok((st, p, l)) && stmts_view(st@) == b.stmts && p@ == b.ptr && l@ == b.len
            &&& after.local_defs@.len() == before.local_defs@.len() + b.temps
            &&& data == b.data
        },
        Err(k) => r matches Err(x) && err_is(x, module, k),
    }
}

/// A buffer holding the encoded value of `expr`: the statements that fill it, its pointer
/// and its length. Literals go to static data; `Some(..)` and struct calls are built in
/// fresh memory; names of pointer type are used in place; other names are stored into a
/// static slot of four or eight bytes.
#[verifier::loop_isolation(false)]
fn lower_value_buffer(
    module: &str,
    expr: &DslExpr,
    scope: &mut Scope,
    data: &mut DataAllocator,
    fields: &[DslStateField],
    structs: &[DslStruct],
) -> (r: Result<(Vec<Stmt>, Expr, Expr), ManifestCompileError>)
    ensures
        final(data).extends(old(data)),
        final(scope).grows_hidden(old(scope)),
        spec_literal_bytes(*expr, structs@) matches Some(b) ==> (r matches Ok((stmts, ptr, len))
            && stmts@.len() == 0 && ptr@ == v_i32(spec_segment_offset(old(data).next_offset) as i32)
            && len@ == v_i32(b.len() as i32) && final(data).segments@.len() == old(data).segments@.len() + 1
            && final(data).segments@.last().bytes@ == b && *final(scope) == *old(scope)),
        spec_literal_bytes(*expr, structs@) is None && !spec_is_constructor(*expr, structs@) ==> match *expr {
            DslExpr::Identifier(name) => match spec_named_value(old(scope), name@) {
                None => r matches Err(e) && is_unknown_identifier(e, module@, name@),
                Some((v, Some(t))) => if spec_is_byte_string(t) || t is Custom || t is Any {
                    r matches Ok((stmts, ptr, len)) && stmts@.len() == 0 && ptr@ == v && len@ == v_prefixed_len(v)
                } else if t is Optional {
                    r matches Ok((stmts, ptr, len)) && stmts@.len() == 0 && ptr@ == v
                        && len@ == v_optional_len(*t->Optional_0, v)
                } else if t is Mapping {
                    r matches Err(e) && is_unsupported_expression(e, module@)
                } else if t is List {
                    true
                } else {
                    spec_scalar_buffer(r, old(data), final(data), v)
                },
                Some((v, None)) => spec_scalar_buffer(r, old(data), final(data), v),
            },
            _ => r matches Err(e) && is_unsupported_expression(e, module@),
        },
        buffer_as(
            r,
            module@,
            spec_value_buffer(*expr, old(scope).names(), old(scope).taken(), structs@, old(data).dv()),
            &*old(scope),
            &*final(scope),
            final(data).dv(),
        ),
    decreases expr, 0int,
{
    match literal_to_bytes(module, expr, structs) {
        Ok(bytes) => {
            let len = bytes.len();
            let ptr = data.allocate(bytes);
            return Ok((new_stmts(), Expr::ConstI32(ptr as i32), Expr::ConstI32(len as i32)));
        },
        Err(_) => {},
    }
    proof {
        reveal_strlit("Some");
        assert("Some"@ =~= seq!['S', 'o', 'm', 'e']);
    }
    if let DslExpr::Call { callee, args } = expr {
        if let DslExpr::Identifier(name) = &**callee {
            if str_eq(name.as_str(), "Some") {
                proof {
                    assert(decreases_to!(expr => *args));
                    assert(decreases_to!(*args => args@));
                }
                return lower_optional_buffer(module, args.as_slice(), scope, data, fields, structs);
            }
            if let Some(k) = find_struct(structs, name.as_str()) {
                proof {
                    assert(decreases_to!(expr => *args));
                    assert(decreases_to!(*args => args@));
                }
                return lower_struct_buffer(module, &structs[k], args.as_slice(), scope, data, fields, structs);
            }
        }
    }
    let name = match expr {
        DslExpr::Identifier(name) => name,
        _ => {
            let d = expr_debug(expr);
            return Err(unsupported_expression(module, message(&["state value ", d.as_str()])));
        },
    };
    let (value_expr, dsl_type) = if let Some((index, ty)) = scope.locals.get_slot(name.as_str()) {
        (Expr::Local { index, ty }, scope.local_types.get_type(name.as_str()))
    } else if let Some((index, ty)) = scope.params.get_slot(name.as_str()) {
        (Expr::Param { index, ty }, scope.param_types.get_type(name.as_str()))
    } else {
        return Err(unknown_identifier(module, name.as_str()));
    };
    if let Some(t) = &dsl_type {
        match t {
            DslType::String | DslType::Bytes | DslType::Address | DslType::Custom(_) | DslType::Any => {
                let len = length_prefixed_len_expr(value_expr.copy());
                return Ok((new_stmts(), value_expr, len));
            },
            DslType::Optional(inner) => {
                let len = match optional_len_expr(module, inner, value_expr.copy()) {
                    Ok(l) => l,
                    Err(e) => {
                        return Err(e);
                    },
                };
                return Ok((new_stmts(), value_expr, len));
            },
            DslType::List(inner) => {
                let (stmts, len) = match list_total_length(module, value_expr.copy(), inner, scope) {
                    Ok(x) => x,
                    Err(e) => {
                        return Err(e);
                    },
                };
                return Ok((stmts, value_expr, len));
            },
            DslType::Mapping { .. } => {
                let d = expr_debug(expr);
                return Err(unsupported_expression(module, message(&["non-literal map value ", d.as_str()])));
            },
            _ => {},
        }
    }
    store_scalar(value_expr, data)
}

/// The buffer for a scalar value: a fresh static slot of four or eight zero bytes, and the
/// store of the value into it.
pub open spec fn spec_scalar_buffer(
    r: Result<(Vec<Stmt>, Expr, Expr), ManifestCompileError>,
    before: &DataAllocator,
    after: &DataAllocator,
    v: ExprView,
) -> bool {
    let size: int = if v.value_type() == ValueType::I64 { 8 } else { 4 };
    let ptr = spec_segment_offset(before.next_offset);
    &&& r matches Ok((stmts, p, len))
    &&& stmts_view(stmts@) == seq![StmtView::Store {
        address: v_i32(ptr as i32),
        value: v,
        width: if size == 8 { StoreWidth::I64 } else { StoreWidth::I32 },
    }]
    &&& p@ == v_i32(ptr as i32)
    &&& len@ == v_i32(size as i32)
    &&& after.segments@.len() == before.segments@.len() + 1
    &&& after.segments@.last().bytes@ == Seq::new(size as nat, |i: int| 0u8)
}

/// Stores a scalar value into a fresh static slot.
fn store_scalar(value: Expr, data: &mut DataAllocator) -> (r: Result<(Vec<Stmt>, Expr, Expr), ManifestCompileError>)
    ensures
        final(data).extends(old(data)),
        spec_scalar_buffer(r, old(data), final(data), value@),
        final(data).dv() == spec_scalar_buf(value@, old(data).dv()).data,
{
    let (width, size) = match value.value_type() {
        ValueType::I32 => (StoreWidth::I32, 4u32),
        ValueType::I64 => (StoreWidth::I64, 8u32),
    };
    let zeros: Vec<u8> = if size == 8 { vec![0u8; 8] } else { vec![0u8; 4] };
    assert(zeros@ == Seq::new(size as nat, |i: int| 0u8));
    let ptr = data.allocate(zeros);
    let mut stmts = new_stmts();
    let ghost v = value@;
    push_stmt(&mut stmts, Stmt::Store { address: Expr::ConstI32(ptr as i32), value, width });
    assert(stmts_view(stmts@) =~= seq![StmtView::Store { address: v_i32(ptr as i32), value: v, width }]);
    Ok((stmts, Expr::ConstI32(ptr as i32), Expr::ConstI32(size as i32)))
}

/// Builds `Some(x)` in fresh memory: a one tag byte followed by the encoding of `x`.
#[verifier::loop_isolation(false)]
#[verifier::rlimit(40)]
fn lower_optional_buffer(
    module: &str,
    args: &[DslCallArg],
    scope: &mut Scope,
    data: &mut DataAllocator,
    fields: &[DslStateField],
    structs: &[DslStruct],
) -> (r: Result<(Vec<Stmt>, Expr, Expr), ManifestCompileError>)
    ensures
        final(data).extends(old(data)),
        final(scope).grows_hidden(old(scope)),
        !(spec_all_positional(args@) && args@.len() == 1) ==> (r matches Err(e) && is_unsupported_expression(
            e,
            module@,
        )),
        buffer_as(
            r,
            module@,
            spec_optional_buffer(args@, old(scope).names(), old(scope).taken(), structs@, old(data).dv()),
            &*old(scope),
            &*final(scope),
            final(data).dv(),
        ),
    decreases args@, 1int,
{
    let ghost names0 = scope.names();
    let ghost n0 = scope.taken();
    let positional = match call_args_to_positional(module, args) {
        Ok(p) => p,
        Err(e) => {
            return Err(e);
        },
    };
    if positional.len() != 1 {
        return Err(unsupported_expression(module, str_to_string("Some arity")));
    }
    proof {
        assert(decreases_to!(args@ => args@[0]));
        assert(args@[0] is Positional);
    }
    let (mut stmts, inner_ptr, inner_len) = match lower_value_buffer(module, positional[0], scope, data, fields, structs) {
        Ok(x) => x,
        Err(e) => {
            return Err(e);
        },
    };
    let ghost inner = spec_value_buffer(args@[0]->Positional_0, names0, n0, structs@, old(data).dv())->Ok_0;
    assert(scope.taken() == n0 + inner.temps);
    let ghost s0 = stmts_view(stmts@);
    let ghost ipv = inner_ptr@;
    let ghost ilv = inner_len@;
    let inner_ptr_idx = add_temp_local(scope, ValueType::I32, "__opt_inner_ptr");
    push_stmt(&mut stmts, Stmt::Let { local: inner_ptr_idx, value: inner_ptr });
    let inner_len_idx = add_temp_local(scope, ValueType::I32, "__opt_inner_len");
    push_stmt(&mut stmts, Stmt::Let { local: inner_len_idx, value: inner_len });
    let total_len = add_i32(local_i32(inner_len_idx), Expr::ConstI32(1));
    let ptr_idx = add_temp_local(scope, ValueType::I32, "__opt_ptr");
    let malloc_args: Vec<Expr> = vec![total_len.copy()];
    let ghost tv = total_len@;
    assert(exprs_view(malloc_args@) =~= seq![tv]) by {
        lemma_exprs_view_index(malloc_args@);
    }
    push_stmt(&mut stmts, Stmt::Let {
        local: ptr_idx,
        value: Expr::HostCall { function: HostFunction::MemoryDeterministicMalloc, args: malloc_args },
    });
    push_stmt(&mut stmts, Stmt::Store { address: local_i32(ptr_idx), value: Expr::ConstI32(1), width: StoreWidth::I8 });
    let ghost s1 = stmts_view(stmts@);
    assert(s1 =~= s0 + seq![
        v_let(inner_ptr_idx, ipv),
        v_let(inner_len_idx, ilv),
        v_let(ptr_idx, ExprView::HostCall { function: HostFunction::MemoryDeterministicMalloc, args: seq![tv] }),
        StmtView::Store { address: v_local(ptr_idx), value: v_i32(1), width: StoreWidth::I8 },
    ]);
    let copy = emit_copy_bytes(
        scope,
        local_i32(inner_ptr_idx),
        add_i32(local_i32(ptr_idx), Expr::ConstI32(1)),
        local_i32(inner_len_idx),
    );
    append_stmts(&mut stmts, copy);
    proof {
        let w = spec_wrap_some(inner, n0);
        assert(stmts_view(stmts@) =~= w.stmts);
    }
    Ok((stmts, local_i32(ptr_idx), total_len))
}

/// Whether some field of the struct gets no value: its name repeats an earlier field's, or
/// no argument is named after it.
pub open spec fn spec_missing_field(fields: Seq<crate::dsl::DslStructField>, args: Seq<DslCallArg>) -> bool {
    exists|k: int| 0 <= k < fields.len() && (spec_repeats_name(fields, k) || spec_last_named(args, (#[trigger] fields[k]).name@) is None)
}

/// Builds a struct value in fresh memory: a four-byte payload length, then each field in
/// declaration order as a four-byte length and its bytes.
#[verifier::loop_isolation(false)]
#[verifier::rlimit(60)]
fn lower_struct_buffer(
    module: &str,
    def: &DslStruct,
    args: &[DslCallArg],
    scope: &mut Scope,
    data: &mut DataAllocator,
    fields: &[DslStateField],
    structs: &[DslStruct],
) -> (r: Result<(Vec<Stmt>, Expr, Expr), ManifestCompileError>)
    ensures
        final(data).extends(old(data)),
        final(scope).grows_hidden(old(scope)),
        !spec_all_named(args@) ==> (r matches Err(e) && is_unsupported_expression(e, module@)),
        spec_missing_field(def.fields@, args@) ==> r is Err,
        !spec_names_covered(args@, def.fields@) ==> r is Err,
        buffer_as(
            r,
            module@,
            spec_struct_buffer(*def, args@, old(scope).names(), old(scope).taken(), structs@, old(data).dv()),
            &*old(scope),
            &*final(scope),
            final(data).dv(),
        ),
    decreases args@, 1int,
{
    let ghost names0 = scope.names();
    let ghost n0 = scope.taken();
    let ghost d0 = data.dv();
    let ghost target = spec_struct_buffer(*def, args@, names0, n0, structs@, d0);
    let mut j: usize = 0;
    while j < args.len()
        invariant
            j <= args@.len(),
            *data == *old(data),
            *scope == *old(scope),
            forall|m: int| 0 <= m < j ==> #[trigger] args@[m] is Named,
        decreases args@.len() - j,
    {
        if let DslCallArg::Positional(_) = &args[j] {
            return Err(unsupported_expression(module, message(&["positional args in ", def.name.as_str()])));
        }
        j = j + 1;
    }
    assert(spec_all_named(args@));
    let def_fields = def.fields.as_slice();
    let mut stmts = new_stmts();
    let payload_idx = add_temp_local(scope, ValueType::I32, "__struct_payload");
    push_stmt(&mut stmts, Stmt::Let { local: payload_idx, value: Expr::ConstI32(0) });
    assert(stmts_view(stmts@) =~= seq![v_let(payload_idx, v_i32(0))]);
    let ghost fields_target = spec_struct_fields(
        def.fields@,
        args@,
        0,
        payload_idx,
        names0,
        n0 + 1,
        structs@,
        d0,
        seq![v_let(payload_idx, v_i32(0))],
        Seq::empty(),
    );
    let mut field_info: Vec<(u32, u32)> = Vec::new();
    let mut i: usize = 0;
    while i < def_fields.len()
        invariant
            i <= def_fields@.len(),
            def_fields@ == def.fields@,
            spec_all_named(args@),
            data.extends(old(data)),
            scope.grows_hidden(old(scope)),
            scope.names() == names0,
            payload_idx == spec_slot(n0),
            forall|k: int| 0 <= k < i ==> !spec_repeats_name(def_fields@, k)
                && spec_last_named(args@, (#[trigger] def_fields@[k]).name@) is Some,
            fields_target == spec_struct_fields(
                def.fields@,
                args@,
                i as int,
                payload_idx,
                names0,
                scope.taken(),
                structs@,
                data.dv(),
                stmts_view(stmts@),
                field_info@,
            ),
        decreases def_fields@.len() - i,
    {
        proof {
            lemma_last_named(args@, def_fields@[i as int].name@);
        }
        let missing = repeats_name(def_fields, i);
        let found = if missing { None } else { last_named(args, def_fields[i].name.as_str()) };
        let value = match found {
            Some(jj) => match &args[jj] {
                DslCallArg::Named { value, .. } => value,
                DslCallArg::Positional(_) => {
                    return Err(unsupported_expression(module, str_to_string("positional args")));
                },
            },
            None => {
                return Err(unsupported_expression(
                    module,
                    message(&["missing field ", def_fields[i].name.as_str(), " in ", def.name.as_str()]),
                ));
            },
        };
        proof {
            let jj = spec_last_named(args@, def_fields@[i as int].name@)->Some_0;
            assert(decreases_to!(args@ => args@[jj]));
        }
        let ghost before = *data;
        let ghost m = scope.taken();
        let ghost sv = stmts_view(stmts@);
        let (value_stmts, value_ptr, value_len) = match lower_value_buffer(module, value, scope, data, fields, structs) {
            Ok(x) => x,
            Err(e) => {
                proof {
                    DataAllocator::lemma_extends_trans(old(data), &before, data);
                }
                return Err(e);
            },
        };
        proof {
            DataAllocator::lemma_extends_trans(old(data), &before, data);
        }
        let ghost b = spec_value_buffer(*value, names0, m, structs@, before.dv())->Ok_0;
        let ghost vpv = value_ptr@;
        let ghost vlv = value_len@;
        append_stmts(&mut stmts, value_stmts);
        let len_idx = add_temp_local(scope, ValueType::I32, "__field_len");
        push_stmt(&mut stmts, Stmt::Let { local: len_idx, value: value_len });
        let ptr_idx = add_temp_local(scope, ValueType::I32, "__field_ptr");
        push_stmt(&mut stmts, Stmt::Let { local: ptr_idx, value: value_ptr });
        push_stmt(&mut stmts, Stmt::Assign {
            local: payload_idx,
            value: add_i32(add_i32(local_i32(payload_idx), local_i32(len_idx)), Expr::ConstI32(4)),
        });
        assert(stmts_view(stmts@) =~= sv + b.stmts + seq![
            v_let(len_idx, vlv),
            v_let(ptr_idx, vpv),
            v_assign(payload_idx, v_add(v_add(v_local(payload_idx), v_local(len_idx)), v_i32(4))),
        ]);
        field_info.push((len_idx, ptr_idx));
        i = i + 1;
    }
    if !names_covered(args, def_fields) {
        return Err(unsupported_expression(module, message(&["extra fields in ", def.name.as_str()])));
    }
    let ghost info = field_info@;
    let ghost m = scope.taken();
    let total_len = add_i32(local_i32(payload_idx), Expr::ConstI32(4));
    let struct_ptr = add_temp_local(scope, ValueType::I32, "__struct_ptr");
    let malloc_args: Vec<Expr> = vec![total_len.copy()];
    let ghost tv = total_len@;
    assert(exprs_view(malloc_args@) =~= seq![tv]) by {
        lemma_exprs_view_index(malloc_args@);
    }
    let ghost s2 = stmts_view(stmts@);
    push_stmt(&mut stmts, Stmt::Let {
        local: struct_ptr,
        value: Expr::HostCall { function: HostFunction::MemoryDeterministicMalloc, args: malloc_args },
    });
    push_stmt(&mut stmts, Stmt::Store { address: local_i32(struct_ptr), value: local_i32(payload_idx), width: StoreWidth::I32 });
    let cursor = add_temp_local(scope, ValueType::I32, "__struct_cursor");
    push_stmt(&mut stmts, Stmt::Let { local: cursor, value: add_i32(local_i32(struct_ptr), Expr::ConstI32(4)) });
    let ghost head = stmts_view(stmts@);
    assert(head =~= s2 + seq![
        v_let(struct_ptr, ExprView::HostCall { function: HostFunction::MemoryDeterministicMalloc, args: seq![tv] }),
        StmtView::Store { address: v_local(struct_ptr), value: v_local(payload_idx), width: StoreWidth::I32 },
        v_let(cursor, v_add(v_local(struct_ptr), v_i32(4))),
    ]);
    let mut k: usize = 0;
    while k < field_info.len()
        invariant
            k <= field_info@.len(),
            field_info@ == info,
            scope.grows_hidden(old(scope)),
            data.extends(old(data)),
            scope.taken() == m + 2 + k,
            spec_struct_copies(info, 0, cursor, m + 2, head) == spec_struct_copies(
                info,
                k as int,
                cursor,
                scope.taken(),
                stmts_view(stmts@),
            ),
        decreases field_info@.len() - k,
    {
        let (len_idx, ptr_idx) = field_info[k];
        let ghost sk = stmts_view(stmts@);
        let ghost c = scope.taken();
        push_stmt(&mut stmts, Stmt::Store { address: local_i32(cursor), value: local_i32(len_idx), width: StoreWidth::I32 });
        push_stmt(&mut stmts, Stmt::Assign { local: cursor, value: add_i32(local_i32(cursor), Expr::ConstI32(4)) });
        let copy = emit_copy_bytes(scope, local_i32(ptr_idx), local_i32(cursor), local_i32(len_idx));
        append_stmts(&mut stmts, copy);
        push_stmt(&mut stmts, Stmt::Assign { local: cursor, value: add_i32(local_i32(cursor), local_i32(len_idx)) });
        assert(stmts_view(stmts@) =~= sk + seq![
            StmtView::Store { address: v_local(cursor), value: v_local(len_idx), width: StoreWidth::I32 },
            v_assign(cursor, v_add(v_local(cursor), v_i32(4))),
        ] + v_copy_bytes(spec_slot(c), v_local(ptr_idx), v_local(cursor), v_local(len_idx)) + seq![
            v_assign(cursor, v_add(v_local(cursor), v_local(len_idx))),
        ]);
        k = k + 1;
    }
    Ok((stmts, local_i32(struct_ptr), total_len))
}


// ---------------------------------------------------------------------------
// Expressions
// ---------------------------------------------------------------------------

/// `spec_lookup_dsl_type` over name maps.
pub open spec fn spec_lookup_dsl_type_n(names: NamesV, fields: Seq<DslStateField>, name: Seq<char>) -> Option<TypeView> {
    match names.local_types.lookup(name) {
        Some(t) => Some(t@),
        None => match names.param_types.lookup(name) {
            Some(t) => Some(t@),
            None => match spec_find_field(fields, name) {
                Some(k) => Some(fields[k].ty@),
                None => None,
            },
        },
    }
}

/// Whether two optional types are equal.
pub open spec fn spec_same_type_opt(a: Option<TypeView>, b: Option<TypeView>) -> bool {
    match (a, b) {
        (Some(x), Some(y)) => x == y,
        (None, None) => true,
        _ => false,
    }
}

/// A known type, else `any`.
pub open spec fn or_any(t: Option<TypeView>) -> TypeView {
    match t {
        Some(x) => x,
        None => TypeView::Any,
    }
}

/// The DSL type an expression is known to have without lowering it: literals by their kind,
/// names by their declaration, list and map literals by their items (`any` where items
/// disagree), `Some(x)` and struct calls by their constructor.
pub open spec fn spec_infer(expr: DslExpr, names: NamesV, fields: Seq<DslStateField>, structs: Seq<DslStruct>) -> Option<
    TypeView,
>
    decreases expr, 0int,
{
    match expr {
        DslExpr::Literal(DslLiteral::Bool(_)) => Some(TypeView::Bool),
        DslExpr::Literal(DslLiteral::Number(_)) => Some(TypeView::Int(64)),
        DslExpr::Literal(DslLiteral::String(_)) => Some(TypeView::String),
        DslExpr::Literal(DslLiteral::Bytes(_)) => Some(TypeView::Bytes),
        DslExpr::Literal(DslLiteral::Null) => Some(TypeView::Optional(Box::new(TypeView::Any))),
        DslExpr::Identifier(name) => spec_lookup_dsl_type_n(names, fields, name@),
        DslExpr::ListLiteral(items) => {
            proof {
                assert(decreases_to!(expr => items));
                assert(decreases_to!(items => items@));
            }
            Some(TypeView::List(Box::new(or_any(spec_infer_items(items@, 0, None, names, fields, structs)))))
        },
        DslExpr::MapLiteral(entries) => {
            proof {
                assert(decreases_to!(expr => entries));
                assert(decreases_to!(entries => entries@));
            }
            let (k, v) = spec_infer_entries(entries@, 0, None, None, names, fields, structs);
            Some(TypeView::Mapping(Box::new(or_any(k)), Box::new(or_any(v))))
        },
        DslExpr::Call { callee, args } => {
            proof {
                assert(decreases_to!(expr => args));
                assert(decreases_to!(args => args@));
            }
            match *callee {
                DslExpr::Identifier(name) => if name@ == seq!['S', 'o', 'm', 'e'] {
                    let inner = if spec_all_positional(args@) && args@.len() > 0 {
                        proof {
                            assert(decreases_to!(args@ => args@[0]));
                        }
                        match args@[0] {
                            DslCallArg::Positional(x) => spec_infer(x, names, fields, structs),
                            _ => None,
                        }
                    } else {
                        None
                    };
                    Some(TypeView::Optional(Box::new(or_any(inner))))
                } else if spec_find_struct(structs, name@) is Some {
                    Some(TypeView::Custom(name@))
                } else {
                    None
                },
                _ => None,
            }
        },
        _ => None,
    }
}

/// The common type of list items from `i` on: the first item's type (even unknown) is kept
/// while the items agree; at the first disagreement (after a known type) it is `any`.
pub open spec fn spec_infer_items(
    items: Seq<DslExpr>,
    i: int,
    acc: Option<TypeView>,
    names: NamesV,
    fields: Seq<DslStateField>,
    structs: Seq<DslStruct>,
) -> Option<TypeView>
    decreases items, items.len() - i,
{
    if i < 0 || i >= items.len() {
        acc
    } else {
        proof {
            assert(decreases_to!(items => items[i]));
        }
        let ty = spec_infer(items[i], names, fields, structs);
        if acc is None {
            spec_infer_items(items, i + 1, ty, names, fields, structs)
        } else if !spec_same_type_opt(acc, ty) {
            Some(TypeView::Any)
        } else {
            spec_infer_items(items, i + 1, acc, names, fields, structs)
        }
    }
}

/// The common key and value types of map entries from `i` on, each as for list items but
/// without stopping early.
pub open spec fn spec_infer_entries(
    entries: Seq<(DslExpr, DslExpr)>,
    i: int,
    kacc: Option<TypeView>,
    vacc: Option<TypeView>,
    names: NamesV,
    fields: Seq<DslStateField>,
    structs: Seq<DslStruct>,
) -> (Option<TypeView>, Option<TypeView>)
    decreases entries, entries.len() - i,
{
    if i < 0 || i >= entries.len() {
        (kacc, vacc)
    } else {
        proof {
            assert(decreases_to!(entries => entries[i]));
            assert(decreases_to!(entries[i] => entries[i].0));
            assert(decreases_to!(entries[i] => entries[i].1));
        }
        let kt = spec_infer(entries[i].0, names, fields, structs);
        let vt = spec_infer(entries[i].1, names, fields, structs);
        let k2 = if kacc is None {
            kt
        } else if !spec_same_type_opt(kacc, kt) {
            Some(TypeView::Any)
        } else {
            kacc
        };
        let v2 = if vacc is None {
            vt
        } else if !spec_same_type_opt(vacc, vt) {
            Some(TypeView::Any)
        } else {
            vacc
        };
        spec_infer_entries(entries, i + 1, k2, v2, names, fields, structs)
    }
}

/// An optional type's view.
pub open spec fn opt_type_view(t: Option<DslType>) -> Option<TypeView> {
    match t {
        Some(x) => Some(x@),
        None => None,
    }
}

/// Whether two optional types are the same.
fn same_type_opt(a: &Option<DslType>, b: &Option<DslType>) -> (r: bool)
    ensures
        r == (match (a, b) {
            (Some(x), Some(y)) => x@ == y@,
            (None, None) => true,
            _ => false,
        }),
{
    match (a, b) {
        (Some(x), Some(y)) => x.same(y),
        (None, None) => true,
        _ => false,
    }
}

/// The DSL type an expression is known to have, where it can be told without lowering it.
#[verifier::loop_isolation(false)]
fn infer_dsl_type_from_expr(expr: &DslExpr, scope: &Scope, fields: &[DslStateField], structs: &[DslStruct]) -> (r: Option<DslType>)
    ensures
        match *expr {
            DslExpr::Literal(DslLiteral::Bool(_)) => r matches Some(t) && t@ == TypeView::Bool,
            DslExpr::Literal(DslLiteral::Number(_)) => r matches Some(t) && t@ == TypeView::Int(64),
            DslExpr::Literal(DslLiteral::String(_)) => r matches Some(t) && t@ == TypeView::String,
            DslExpr::Literal(DslLiteral::Bytes(_)) => r matches Some(t) && t@ == TypeView::Bytes,
            DslExpr::Literal(DslLiteral::Null) => r matches Some(t) && t@ == TypeView::Optional(Box::new(TypeView::Any)),
            DslExpr::Identifier(name) => match r {
                Some(t) => spec_lookup_dsl_type(scope, fields@, name@) == Some(t@),
                None => spec_lookup_dsl_type(scope, fields@, name@) is None,
            },
            DslExpr::ListLiteral(_) => r matches Some(t) && t@ is List,
            DslExpr::MapLiteral(_) => r matches Some(t) && t@ is Mapping,
            DslExpr::Call { callee, .. } => match *callee {
                DslExpr::Identifier(name) => if name@ == seq!['S', 'o', 'm', 'e'] {
                    r matches Some(t) && t@ is Optional
                } else if spec_find_struct(structs@, name@) is Some {
                    r matches Some(t) && t@ == TypeView::Custom(name@)
                } else {
                    r is None
                },
                _ => r is None,
            },
            _ => r is None,
        },
        opt_type_view(r) == spec_infer(*expr, scope.names(), fields@, structs@),
    decreases expr,
{
    proof {
        reveal_strlit("Some");
        assert("Some"@ =~= seq!['S', 'o', 'm', 'e']);
    }
    match expr {
        DslExpr::Literal(DslLiteral::Bool(_)) => Some(DslType::Bool),
        DslExpr::Literal(DslLiteral::Number(_)) => Some(DslType::Int { bits: 64 }),
        DslExpr::Literal(DslLiteral::String(_)) => Some(DslType::String),
        DslExpr::Literal(DslLiteral::Bytes(_)) => Some(DslType::Bytes),
        DslExpr::Literal(DslLiteral::Null) => {
            let any = DslType::Any;
            assert(any@ == TypeView::Any);
            Some(DslType::Optional(Box::new(any)))
        },
        DslExpr::Identifier(name) => lookup_dsl_type(name.as_str(), scope, fields),
        DslExpr::ListLiteral(items) => {
            let mut item_type: Option<DslType> = None;
            let mut i: usize = 0;
            let ghost target = spec_infer_items(items@, 0, None, scope.names(), fields@, structs@);
            while i < items.len()
                invariant
                    i <= items@.len(),
                    target == spec_infer_items(items@, i as int, opt_type_view(item_type), scope.names(), fields@, structs@),
                decreases items@.len() - i,
            {
                proof {
                    assert(decreases_to!(expr => *items));
                    assert(decreases_to!(*items => items@));
                    assert(decreases_to!(items@ => items@[i as int]));
                }
                let ty = infer_dsl_type_from_expr(&items[i], scope, fields, structs);
                if item_type.is_none() {
                    item_type = ty;
                } else if !same_type_opt(&item_type, &ty) {
                    item_type = Some(DslType::Any);
                    i = items.len();
                    continue;
                }
                i = i + 1;
            }
            let inner = match item_type {
                Some(t) => t,
                None => DslType::Any,
            };
            assert(inner@ == or_any(target));
            let out = DslType::List(Box::new(inner));
            assert(out@ == TypeView::List(Box::new(or_any(target))));
            Some(out)
        },
        DslExpr::MapLiteral(entries) => {
            let mut key_type: Option<DslType> = None;
            let mut value_type: Option<DslType> = None;
            let mut i: usize = 0;
            let ghost target = spec_infer_entries(entries@, 0, None, None, scope.names(), fields@, structs@);
            while i < entries.len()
                invariant
                    i <= entries@.len(),
                    target == spec_infer_entries(
                        entries@,
                        i as int,
                        opt_type_view(key_type),
                        opt_type_view(value_type),
                        scope.names(),
                        fields@,
                        structs@,
                    ),
                decreases entries@.len() - i,
            {
                proof {
                    assert(decreases_to!(expr => *entries));
                    assert(decreases_to!(*entries => entries@));
                    assert(decreases_to!(entries@ => entries@[i as int]));
                    assert(decreases_to!(entries@[i as int] => entries@[i as int].0));
                    assert(decreases_to!(entries@[i as int] => entries@[i as int].1));
                }
                let key_ty = infer_dsl_type_from_expr(&entries[i].0, scope, fields, structs);
                let value_ty = infer_dsl_type_from_expr(&entries[i].1, scope, fields, structs);
                if key_type.is_none() {
                    key_type = key_ty;
                } else if !same_type_opt(&key_type, &key_ty) {
                    key_type = Some(DslType::Any);
                }
                if value_type.is_none() {
                    value_type = value_ty;
                } else if !same_type_opt(&value_type, &value_ty) {
                    value_type = Some(DslType::Any);
                }
                i = i + 1;
            }
            let k = match key_type {
                Some(t) => t,
                None => DslType::Any,
            };
            let v = match value_type {
                Some(t) => t,
                None => DslType::Any,
            };
            assert(k@ == or_any(target.0) && v@ == or_any(target.1));
            Some(DslType::Mapping { key: Box::new(k), value: Box::new(v) })
        },
        DslExpr::Call { callee, args } => {
            if let DslExpr::Identifier(name) = &**callee {
                if str_eq(name.as_str(), "Some") {
                    let inner = match call_args_to_positional("infer", args.as_slice()) {
                        Ok(positional) => {
                            if positional.len() > 0 {
                                proof {
                                    assert(decreases_to!(expr => *args));
                                    assert(decreases_to!(*args => args@));
                                    assert(decreases_to!(args@ => args@[0]));
                                }
                                infer_dsl_type_from_expr(positional[0], scope, fields, structs)
                            } else {
                                None
                            }
                        },
                        Err(_) => None,
                    };
                    let ghost spec_inner = if spec_all_positional(args@) && args@.len() > 0 {
                        match args@[0] {
                            DslCallArg::Positional(x) => spec_infer(x, scope.names(), fields@, structs@),
                            _ => None,
                        }
                    } else {
                        None
                    };
                    assert(opt_type_view(inner) == spec_inner);
                    let inner = match inner {
                        Some(t) => t,
                        None => DslType::Any,
                    };
                    assert(inner@ == or_any(spec_inner));
                    let out = DslType::Optional(Box::new(inner));
                    assert(out@ == TypeView::Optional(Box::new(or_any(spec_inner))));
                    return Some(out);
                }
                if find_struct(structs, name.as_str()).is_some() {
                    return Some(DslType::Custom(copy_string(name)));
                }
            }
            None
        },
        _ => None,
    }
}

/// A state write of `value` under `key`, `n` slots being taken: both buffers, then the host
/// call with the key's pointer and length and the value's pointer and length. Returns the
/// statements, the call, the temporaries declared and the data after.
pub open spec fn spec_state_write(
    key: DslExpr,
    value: DslExpr,
    names: NamesV,
    n: int,
    structs: Seq<DslStruct>,
    d: DataV,
) -> Result<(Seq<StmtView>, ExprView, nat, DataV), LowerErr> {
    match spec_value_buffer(key, names, n, structs, d) {
        Err(k) => Err(k),
        Ok(kb) => match spec_value_buffer(value, names, n + kb.temps, structs, kb.data) {
            Err(k) => Err(k),
            Ok(vb) => Ok(
                (
                    kb.stmts + vb.stmts,
                    ExprView::HostCall {
                        function: HostFunction::StdStateWrite,
                        args: seq![kb.ptr, kb.len, vb.ptr, vb.len],
                    },
                    kb.temps + vb.temps,
                    vb.data,
                ),
            ),
        },
    }
}

/// `state_write(key, value)` with positional arguments.
pub open spec fn spec_state_write_call(args: Seq<DslCallArg>, names: NamesV, n: int, structs: Seq<DslStruct>, d: DataV) -> Result<
    (Seq<StmtView>, ExprView, nat, DataV),
    LowerErr,
> {
    if !(spec_all_positional(args) && args.len() == 2) {
        Err(LowerErr::UnsupportedExpression)
    } else {
        spec_state_write(args[0]->Positional_0, args[1]->Positional_0, names, n, structs, d)
    }
}

/// Whether `r`, with the scopes before and after and the data after, is the state write `s`
/// describes.
pub open spec fn write_as(
    r: Result<(Vec<Stmt>, Expr), ManifestCompileError>,
    module: Seq<char>,
    s: Result<(Seq<StmtView>, ExprView, nat, DataV), LowerErr>,
    before: &Scope,
    after: &Scope,
    data: DataV,
) -> bool {
    match s {
        Ok((st, call, temps, d)) => {
            &&& r matches Ok((x, c)) && stmts_view(x@) == st && c@ == call
            &&& after.local_defs@.len() == before.local_defs@.len() + temps
            &&& data == d
        },
        Err(k) => r matches Err(x) && err_is(x, module, k),
    }
}

/// The statements and host call that write the value of `value` under the key `key`.
fn lower_state_write_values(
    module: &str,
    key: &DslExpr,
    value: &DslExpr,
    scope: &mut Scope,
    data: &mut DataAllocator,
    fields: &[DslStateField],
    structs: &[DslStruct],
) -> (r: Result<(Vec<Stmt>, Expr), ManifestCompileError>)
    ensures
        final(data).extends(old(data)),
        final(scope).grows_hidden(old(scope)),
        r matches Ok((_, call)) ==> call@ matches ExprView::HostCall { function, args }
            && function == HostFunction::StdStateWrite && args.len() == 4,
        write_as(
            r,
            module@,
            spec_state_write(*key, *value, old(scope).names(), old(scope).taken(), structs@, old(data).dv()),
            &*old(scope),
            &*final(scope),
            final(data).dv(),
        ),
{
    let (mut stmts, key_ptr, key_len) = match lower_value_buffer(module, key, scope, data, fields, structs) {
        Ok(x) => x,
        Err(e) => {
            return Err(e);
        },
    };
    let ghost mid = *data;
    let (value_stmts, value_ptr, value_len) = match lower_value_buffer(module, value, scope, data, fields, structs) {
        Ok(x) => x,
        Err(e) => {
            proof {
                DataAllocator::lemma_extends_trans(old(data), &mid, data);
            }
            return Err(e);
        },
    };
    proof {
        DataAllocator::lemma_extends_trans(old(data), &mid, data);
    }
    append_stmts(&mut stmts, value_stmts);
    let ghost av = seq![key_ptr@, key_len@, value_ptr@, value_len@];
    let args: Vec<Expr> = vec![key_ptr, key_len, value_ptr, value_len];
    proof {
        lemma_exprs_view_index(args@);
        assert(exprs_view(args@) =~= av);
    }
    Ok((stmts, Expr::HostCall { function: HostFunction::StdStateWrite, args }))
}

/// `state_write(key, value)`: the statements that build both buffers and the host call.
fn lower_state_write_stmt(
    module: &str,
    args: &[DslCallArg],
    scope: &mut Scope,
    data: &mut DataAllocator,
    fields: &[DslStateField],
    structs: &[DslStruct],
) -> (r: Result<(Vec<Stmt>, Expr), ManifestCompileError>)
    ensures
        final(data).extends(old(data)),
        final(scope).grows_hidden(old(scope)),
        !(spec_all_positional(args@) && args@.len() == 2) ==> (r matches Err(e) && is_unsupported_expression(
            e,
            module@,
        )),
        r matches Ok((_, call)) ==> call@ matches ExprView::HostCall { function, args }
            && function == HostFunction::StdStateWrite && args.len() == 4,
        write_as(
            r,
            module@,
            spec_state_write_call(args@, old(scope).names(), old(scope).taken(), structs@, old(data).dv()),
            &*old(scope),
            &*final(scope),
            final(data).dv(),
        ),
{
    let positional = match call_args_to_positional(module, args) {
        Ok(p) => p,
        Err(e) => {
            return Err(e);
        },
    };
    if positional.len() != 2 {
        return Err(unsupported_expression(module, str_to_string("state_write arity")));
    }
    lower_state_write_values(module, positional[0], positional[1], scope, data, fields, structs)
}


/// Whether the operator compares or combines truth values, giving a 32-bit truth value.
pub open spec fn spec_is_boolean_op(op: DslBinaryOp) -> bool {
    !(op is Add || op is Sub || op is Mul || op is Div || op is Mod)
}

/// The IR operator of an arithmetic or comparison operator.
pub open spec fn spec_ir_op(op: DslBinaryOp) -> BinaryOp {
    match op {
        DslBinaryOp::Add => BinaryOp::Add,
        DslBinaryOp::Sub => BinaryOp::Sub,
        DslBinaryOp::Mul => BinaryOp::Mul,
        DslBinaryOp::Div => BinaryOp::DivUInt,
        DslBinaryOp::Mod => BinaryOp::RemUInt,
        DslBinaryOp::Equal => BinaryOp::Equal,
        DslBinaryOp::NotEqual => BinaryOp::NotEqual,
        DslBinaryOp::Less => BinaryOp::Less,
        DslBinaryOp::LessEqual => BinaryOp::LessEqual,
        DslBinaryOp::Greater => BinaryOp::Greater,
        _ => BinaryOp::GreaterEqual,
    }
}

/// The lowering of a binary operation on already lowered operands of equal type:
/// arithmetic keeps the operand type, comparisons give a truth value, `and` is the product
/// of the truth values and `or` whether their sum is not zero.
pub open spec fn v_binary(op: DslBinaryOp, left: ExprView, right: ExprView) -> ExprView {
    if op is LogicalAnd {
        ExprView::Binary {
            op: BinaryOp::Mul,
            left: Box::new(v_boolify(left)),
            right: Box::new(v_boolify(right)),
            ty: ValueType::I32,
        }
    } else if op is LogicalOr {
        ExprView::Binary {
            op: BinaryOp::NotEqual,
            left: Box::new(ExprView::Binary {
                op: BinaryOp::Add,
                left: Box::new(v_boolify(left)),
                right: Box::new(v_boolify(right)),
                ty: ValueType::I32,
            }),
            right: Box::new(v_i32(0)),
            ty: ValueType::I32,
        }
    } else {
        ExprView::Binary {
            op: spec_ir_op(op),
            left: Box::new(left),
            right: Box::new(right),
            ty: if spec_is_boolean_op(op) { ValueType::I32 } else { left.value_type() },
        }
    }
}

/// A value read as a truth value is the comparison of the value with zero of its own type, which
/// gives 1 exactly for a nonzero value.
pub proof fn law_boolify_truth(e: ExprView, x: int)
    ensures
        (v_boolify(e) matches ExprView::Binary { op, left, right, ty } && *left == e && ty == ValueType::I32
            && right.value_type() == e.value_type() && crate::ir::spec_ir_binary_value(op, x, 0) == (if x != 0 {
            1int
        } else {
            0
        })),
{
}

/// Lowering an arithmetic operator or a comparison keeps its operands and its meaning: the IR
/// operator computes what the DSL operator does, on any operands; comparisons give a 32-bit
/// truth value, arithmetic keeps the operand type.
pub proof fn law_lowered_operator_meaning(op: DslBinaryOp, left: ExprView, right: ExprView, a: int, b: int)
    requires
        !(op is LogicalAnd),
        !(op is LogicalOr),
    ensures
        (v_binary(op, left, right) matches ExprView::Binary { op: o, left: l, right: r, ty } && *l == left && *r == right
            && crate::ir::spec_ir_binary_value(o, a, b) == crate::dsl::spec_dsl_binary_value(op, a, b) && ty == (if op
            is Add || op is Sub || op is Mul || op is Div || op is Mod {
            left.value_type()
        } else {
            ValueType::I32
        })),
{
}

/// `-e` lowers to the 64-bit subtraction of the lowered `e` from zero, which computes the
/// negation of any value.
pub proof fn law_lowered_negation(inner: DslExpr, scope: &Scope, fields: Seq<DslStateField>, structs: Seq<DslStruct>, d: DataV, x: int)
    requires
        spec_lower_expr(inner, scope, fields, structs, d) is Ok,
    ensures
        (spec_lower_expr((DslExpr::Unary { op: DslUnaryOp::Neg, expr: Box::new(inner) }), scope, fields, structs, d) matches Ok(
            (ExprView::Binary { op, left, right, ty }, d1),
        ) && *left == ExprView::ConstI64(0) && *right == spec_lower_expr(inner, scope, fields, structs, d)->Ok_0.0 && d1
            == spec_lower_expr(inner, scope, fields, structs, d)->Ok_0.1 && ty == ValueType::I64
            && crate::ir::spec_ir_binary_value(op, 0, x) == -x),
{
}

/// `left < right` lowers to the IR comparison `Less` of the lowered operands, a 32-bit truth
/// value.
pub proof fn law_lowered_less(left: ExprView, right: ExprView)
    ensures
        v_binary(DslBinaryOp::Less, left, right) == (ExprView::Binary {
            op: BinaryOp::Less,
            left: Box::new(left),
            right: Box::new(right),
            ty: ValueType::I32,
        }),
{
}

/// A binary operation on lowered operands of equal type.
fn lower_binary(op: DslBinaryOp, left: Expr, right: Expr) -> (r: Expr)
    ensures
        r@ == v_binary(op, left@, right@),
{
    let left_ty = left.value_type();
    match op {
        DslBinaryOp::LogicalAnd => {
            let l = boolify(left);
            let rr = boolify(right);
            Expr::Binary { op: BinaryOp::Mul, left: Box::new(l), right: Box::new(rr), ty: ValueType::I32 }
        },
        DslBinaryOp::LogicalOr => {
            let l = boolify(left);
            let rr = boolify(right);
            let ghost lv = l@;
            let ghost rv = rr@;
            let sum = Expr::Binary { op: BinaryOp::Add, left: Box::new(l), right: Box::new(rr), ty: ValueType::I32 };
            assert(sum@ == ExprView::Binary { op: BinaryOp::Add, left: Box::new(lv), right: Box::new(rv), ty: ValueType::I32 });
            let zero = Expr::ConstI32(0);
            assert(zero@ == v_i32(0));
            Expr::Binary { op: BinaryOp::NotEqual, left: Box::new(sum), right: Box::new(zero), ty: ValueType::I32 }
        },
        _ => {
            let (ir_op, ty) = match op {
                DslBinaryOp::Add => (BinaryOp::Add, left_ty),
                DslBinaryOp::Sub => (BinaryOp::Sub, left_ty),
                DslBinaryOp::Mul => (BinaryOp::Mul, left_ty),
                DslBinaryOp::Div => (BinaryOp::DivUInt, left_ty),
                DslBinaryOp::Mod => (BinaryOp::RemUInt, left_ty),
                DslBinaryOp::Equal => (BinaryOp::Equal, ValueType::I32),
                DslBinaryOp::NotEqual => (BinaryOp::NotEqual, ValueType::I32),
                DslBinaryOp::Less => (BinaryOp::Less, ValueType::I32),
                DslBinaryOp::LessEqual => (BinaryOp::LessEqual, ValueType::I32),
                DslBinaryOp::Greater => (BinaryOp::Greater, ValueType::I32),
                _ => (BinaryOp::GreaterEqual, ValueType::I32),
            };
            Expr::Binary { op: ir_op, left: Box::new(left), right: Box::new(right), ty }
        },
    }
}

/// A name read as a value: a local, else a parameter, else a state field.
fn lower_name(module: &str, name: &str, scope: &Scope, data: &mut DataAllocator, fields: &[DslStateField]) -> (r: Result<
    Expr,
    ManifestCompileError,
>)
    ensures
        final(data).extends(old(data)),
        lowered_as(r, module@, spec_lower_name(name@, scope, fields@, old(data).dv()), final(data).dv()),
{
    if let Some((index, ty)) = scope.locals.get_slot(name) {
        return Ok(Expr::Local { index, ty });
    }
    if let Some((index, ty)) = scope.params.get_slot(name) {
        return Ok(Expr::Param { index, ty });
    }
    if let Some(k) = find_field(fields, name) {
        let (key_ptr, key_len, out_len_ptr) = alloc_state_key(data, name);
        if is_pointer_type(&fields[k].ty) {
            return Ok(Expr::StateReadRaw { key_ptr, key_len, out_len_ptr });
        }
        let ty = match map_type(module, &fields[k].ty) {
            Ok(t) => t,
            Err(e) => {
                return Err(e);
            },
        };
        return Ok(Expr::StateRead { key_ptr, key_len, out_len_ptr, ty });
    }
    Err(unknown_identifier(module, name))
}

/// An attribute `target.attribute`: `is_some`/`is_none` of an optional, or a struct field.
fn lower_attribute(
    module: &str,
    target: &DslExpr,
    attribute: &str,
    scope: &Scope,
    data: &mut DataAllocator,
    fields: &[DslStateField],
    structs: &[DslStruct],
) -> (r: Result<Expr, ManifestCompileError>)
    ensures
        final(data).extends(old(data)),
        lowered_as(
            r,
            module@,
            spec_lower_attribute(*target, attribute@, scope, fields@, structs@, old(data).dv()),
            final(data).dv(),
        ),
{
    let (base, base_type) = match resolve_value_expr(module, target, scope, data, fields) {
        Ok(x) => x,
        Err(e) => {
            return Err(e);
        },
    };
    proof {
        reveal_strlit("is_some");
        reveal_strlit("is_none");
        assert("is_some"@ =~= seq!['i', 's', '_', 's', 'o', 'm', 'e']);
        assert("is_none"@ =~= seq!['i', 's', '_', 'n', 'o', 'n', 'e']);
    }
    if let DslType::Optional(_) = base_type {
        if str_eq(attribute, "is_some") {
            return Ok(optional_is_some_expr(base));
        }
        if str_eq(attribute, "is_none") {
            return Ok(optional_is_none_expr(base));
        }
        return Err(unsupported_expression(module, message(&["unsupported optional attribute ", attribute])));
    }
    let struct_name = match &base_type {
        DslType::Custom(name) => name,
        _ => {
            let t = base_type.type_text();
            let ts = from_chars(t.as_slice());
            return Err(unsupported_expression(module, message(&["attribute on non-struct ", ts.as_str()])));
        },
    };
    let k = match find_struct(structs, struct_name.as_str()) {
        Some(k) => k,
        None => {
            return Err(ManifestCompileError::UnsupportedType { module: str_to_string(module), ty: copy_string(struct_name) });
        },
    };
    lower_struct_field_expr(module, base, &structs[k], attribute)
}

/// A call of a host function: the arguments positional, as many as it takes, each of the
/// machine type it expects.
fn lower_host_call(
    module: &str,
    function: &str,
    name: &str,
    host: HostFunction,
    args: &[DslCallArg],
    scope: &Scope,
    data: &mut DataAllocator,
    fields: &[DslStateField],
    structs: &[DslStruct],
) -> (r: Result<Expr, ManifestCompileError>)
    ensures
        final(data).extends(old(data)),
        lowered_as(
            r,
            module@,
            if !spec_all_positional(args@) || args@.len() != host.spec_params().len() {
                Err(LowerErr::UnsupportedExpression)
            } else {
                match spec_lower_args(args@, 0, host.spec_params(), scope, fields@, structs@, old(data).dv(), Seq::empty()) {
                    Err(k) => Err(k),
                    Ok((xs, d1)) => Ok((ExprView::HostCall { function: host, args: xs }, d1)),
                }
            },
            final(data).dv(),
        ),
    decreases args@, 2int,
{
    let expected = host.params();
    let positional = match call_args_to_positional(module, args) {
        Ok(p) => p,
        Err(e) => {
            return Err(e);
        },
    };
    if positional.len() != expected.len() {
        return Err(unsupported_expression(module, message(&[name, " arity mismatch"])));
    }
    let ghost d0 = data.dv();
    let ghost target = spec_lower_args(args@, 0, host.spec_params(), scope, fields@, structs@, d0, Seq::empty());
    let mut lowered: Vec<Expr> = Vec::new();
    let mut i: usize = 0;
    assert(exprs_view(lowered@) =~= Seq::<ExprView>::empty());
    while i < positional.len()
        invariant
            i <= positional@.len(),
            positional@.len() == expected@.len(),
            positional@.len() == args@.len(),
            expected@ == host.spec_params(),
            spec_all_positional(args@),
            forall|k: int| 0 <= k < args@.len() ==> *positional@[k] == #[trigger] args@[k]->Positional_0,
            data.extends(old(data)),
            target == spec_lower_args(args@, 0, host.spec_params(), scope, fields@, structs@, old(data).dv(), Seq::empty()),
            target == spec_lower_args(args@, i as int, host.spec_params(), scope, fields@, structs@, data.dv(), exprs_view(lowered@)),
        decreases positional@.len() - i,
    {
        proof {
            assert(decreases_to!(args@ => args@[i as int]));
            assert(args@[i as int] is Positional);
        }
        let ghost before = *data;
        let a = match lower_expr(module, function, positional[i], scope, data, fields, structs) {
            Ok(e) => e,
            Err(e) => {
                proof {
                    DataAllocator::lemma_extends_trans(old(data), &before, data);
                }
                return Err(e);
            },
        };
        proof {
            DataAllocator::lemma_extends_trans(old(data), &before, data);
        }
        if a.value_type() != expected[i] {
            return Err(type_mismatch(module, expected[i], a.value_type()));
        }
        proof {
            lemma_exprs_view_push(lowered@, a);
        }
        lowered.push(a);
        i = i + 1;
    }
    Ok(Expr::HostCall { function: host, args: lowered })
}

/// A name bound to a local (as `let` binds it) is read back as that local, whatever the
/// state fields and the static data: reading it allocates nothing.
pub proof fn law_local_read_back(
    name: String,
    scope: &Scope,
    fields: Seq<DslStateField>,
    structs: Seq<DslStruct>,
    d: DataV,
    index: u32,
    ty: ValueType,
)
    requires
        scope.locals.lookup(name@) == Some((index, ty)),
    ensures
        spec_lower_expr(DslExpr::Identifier(name), scope, fields, structs, d) == Ok::<(ExprView, DataV), LowerErr>(
            (ExprView::Local { index, ty }, d),
        ),
{
}

/// Whether `e` is a call of `state_write`, which a statement lowers as a state write.
pub open spec fn spec_is_state_write(e: DslExpr) -> bool {
    e matches DslExpr::Call { callee, .. } && (*callee matches DslExpr::Identifier(n) && n@ == seq![
        's',
        't',
        'a',
        't',
        'e',
        '_',
        'w',
        'r',
        'i',
        't',
        'e',
    ])
}

/// The IR expression of a DSL expression, allocating static data for literals and state keys.
fn lower_expr(
    module: &str,
    function: &str,
    expr: &DslExpr,
    scope: &Scope,
    data: &mut DataAllocator,
    fields: &[DslStateField],
    structs: &[DslStruct],
) -> (r: Result<Expr, ManifestCompileError>)
    ensures
        final(data).extends(old(data)),
        lowered_as(r, module@, spec_lower_expr(*expr, scope, fields@, structs@, old(data).dv()), final(data).dv()),
    decreases expr, 0int,
{
    proof {
        reveal_strlit("state_read");
        assert("state_read"@ =~= seq!['s', 't', 'a', 't', 'e', '_', 'r', 'e', 'a', 'd']);
    }
    match expr {
        DslExpr::Identifier(name) => lower_name(module, name.as_str(), scope, data, fields),
        DslExpr::Literal(literal) => lower_literal(module, literal, data),
        DslExpr::ListLiteral(_) | DslExpr::MapLiteral(_) => {
            let d = expr_debug(expr);
            Err(unsupported_expression(module, message(&["literal ", d.as_str()])))
        },
        DslExpr::Attribute { target, attribute } => lower_attribute(
            module,
            target,
            attribute.as_str(),
            scope,
            data,
            fields,
            structs,
        ),
        DslExpr::Binary { left, op, right } => {
            let l = match lower_expr(module, function, left, scope, data, fields, structs) {
                Ok(e) => e,
                Err(e) => {
                    return Err(e);
                },
            };
            let ghost mid = *data;
            let rr = match lower_expr(module, function, right, scope, data, fields, structs) {
                Ok(e) => e,
                Err(e) => {
                    proof {
                        DataAllocator::lemma_extends_trans(old(data), &mid, data);
                    }
                    return Err(e);
                },
            };
            proof {
                DataAllocator::lemma_extends_trans(old(data), &mid, data);
            }
            let left_ty = l.value_type();
            let right_ty = rr.value_type();
            if left_ty != right_ty {
                return Err(type_mismatch(module, left_ty, right_ty));
            }
            let out = lower_binary(*op, l, rr);
            assert(out@ == v_binary(*op, l@, rr@));
            assert(spec_lower_expr(*expr, scope, fields@, structs@, old(data).dv()) == Ok::<(ExprView, DataV), LowerErr>((out@, data.dv())));
            Ok(out)
        },
        DslExpr::Unary { op, expr: inner } => {
            let e = match lower_expr(module, function, inner, scope, data, fields, structs) {
                Ok(e) => e,
                Err(e) => {
                    return Err(e);
                },
            };
            match op {
                DslUnaryOp::Neg => {
                    let zero = Expr::ConstI64(0);
                    let ghost ev = e@;
                    assert(zero@ == ExprView::ConstI64(0));
                    let out = Expr::Binary { op: BinaryOp::Sub, left: Box::new(zero), right: Box::new(e), ty: ValueType::I64 };
                    assert(out@ == ExprView::Binary {
                        op: BinaryOp::Sub,
                        left: Box::new(ExprView::ConstI64(0)),
                        right: Box::new(ev),
                        ty: ValueType::I64,
                    });
                    assert(spec_lower_expr(*expr, scope, fields@, structs@, old(data).dv()) == Ok::<(ExprView, DataV), LowerErr>((out@, data.dv())));
                    Ok(out)
                },
                DslUnaryOp::Not => {
                    let out = boolify(e);
                    assert(spec_lower_expr(*expr, scope, fields@, structs@, old(data).dv()) == Ok::<(ExprView, DataV), LowerErr>((out@, data.dv())));
                    Ok(out)
                },
            }
        },
        DslExpr::Call { callee, args } => {
            proof {
                assert(decreases_to!(expr => *args));
                assert(decreases_to!(*args => args@));
            }
            if let DslExpr::Attribute { target, attribute } = &**callee {
                return lower_attribute_call(module, attribute.as_str(), target, args.as_slice(), scope, data, fields, structs);
            }
            if let DslExpr::Identifier(name) = &**callee {
                if str_eq(name.as_str(), "state_read") {
                    return lower_state_read(module, args.as_slice(), data, structs);
                }
                if let Some(host) = HostFunction::from_identifier(name.as_str()) {
                    return lower_host_call(module, function, name.as_str(), host, args.as_slice(), scope, data, fields, structs);
                }
            }
            let d = expr_debug(callee);
            Err(unsupported_expression(module, message(&["call ", d.as_str()])))
        },
        DslExpr::Index { .. } => {
            let d = expr_debug(expr);
            Err(unsupported_expression(module, d))
        },
    }
}

/// A call of a method of an optional value: `is_some()`, `unwrap()` or `unwrap_or(default)`.
#[verifier::loop_isolation(false)]
fn lower_attribute_call(
    module: &str,
    attribute: &str,
    target: &DslExpr,
    args: &[DslCallArg],
    scope: &Scope,
    data: &mut DataAllocator,
    fields: &[DslStateField],
    structs: &[DslStruct],
) -> (r: Result<Expr, ManifestCompileError>)
    ensures
        final(data).extends(old(data)),
        !spec_all_positional(args@) ==> r is Err,
        (attribute@ == seq!['i', 's', '_', 's', 'o', 'm', 'e'] || attribute@ == seq!['u', 'n', 'w', 'r', 'a', 'p'])
            && args@.len() > 0 ==> r is Err,
        attribute@ == seq!['u', 'n', 'w', 'r', 'a', 'p', '_', 'o', 'r'] && args@.len() != 1 ==> r is Err,
        lowered_as(
            r,
            module@,
            spec_lower_attr_call(attribute@, *target, args@, scope, fields@, structs@, old(data).dv()),
            final(data).dv(),
        ),
    decreases args@, 1int,
{
    let (base, base_type) = match resolve_value_expr(module, target, scope, data, fields) {
        Ok(x) => x,
        Err(e) => {
            return Err(e);
        },
    };
    let inner = match &base_type {
        DslType::Optional(inner) => inner,
        _ => {
            return Err(unsupported_expression(
                module,
                message(&["attribute call on non-optional ", attribute]),
            ));
        },
    };
    let positional = match call_args_to_positional(module, args) {
        Ok(p) => p,
        Err(e) => {
            return Err(e);
        },
    };
    proof {
        reveal_strlit("is_some");
        reveal_strlit("unwrap");
        reveal_strlit("unwrap_or");
        assert("is_some"@ =~= seq!['i', 's', '_', 's', 'o', 'm', 'e']);
        assert("unwrap"@ =~= seq!['u', 'n', 'w', 'r', 'a', 'p']);
        assert("unwrap_or"@ =~= seq!['u', 'n', 'w', 'r', 'a', 'p', '_', 'o', 'r']);
    }
    if str_eq(attribute, "is_some") {
        if positional.len() != 0 {
            return Err(unsupported_expression(module, str_to_string("is_some takes no args")));
        }
        return Ok(optional_is_some_expr(base));
    }
    if str_eq(attribute, "unwrap") {
        if positional.len() != 0 {
            return Err(unsupported_expression(module, str_to_string("unwrap takes no args")));
        }
        return optional_unwrap_expr(module, inner, base);
    }
    if str_eq(attribute, "unwrap_or") {
        if positional.len() != 1 {
            return Err(unsupported_expression(module, str_to_string("unwrap_or takes one arg")));
        }
        proof {
            assert(decreases_to!(args@ => args@[0]));
        }
        let ghost mid = *data;
        let default_expr = match lower_expr(module, "unwrap_or", positional[0], scope, data, fields, structs) {
            Ok(e) => e,
            Err(e) => {
                proof {
                    DataAllocator::lemma_extends_trans(old(data), &mid, data);
                }
                return Err(e);
            },
        };
        proof {
            DataAllocator::lemma_extends_trans(old(data), &mid, data);
        }
        let expected = match map_type(module, inner) {
            Ok(t) => t,
            Err(e) => {
                return Err(e);
            },
        };
        if default_expr.value_type() != expected {
            return Err(type_mismatch(module, expected, default_expr.value_type()));
        }
        let unwrap = match optional_unwrap_expr(module, inner, base.copy()) {
            Ok(e) => e,
            Err(e) => {
                return Err(e);
            },
        };
        return Ok(Expr::Select {
            condition: Box::new(optional_is_some_expr(base)),
            if_true: Box::new(unwrap),
            if_false: Box::new(default_expr),
            ty: expected,
        });
    }
    Err(unsupported_expression(module, message(&["unsupported attribute call ", attribute])))
}


/// The expected type if it is optional, else `optional<any>`.
pub open spec fn spec_optional_or_any(expected: Option<TypeView>) -> TypeView {
    match expected {
        Some(TypeView::Optional(inner)) => TypeView::Optional(inner),
        _ => TypeView::Optional(Box::new(TypeView::Any)),
    }
}

/// A value lowered with its side effects: the statements to run first, the value, the DSL
/// type known for it, the temporary locals declared and the static data after.
pub ghost struct SideV {
    pub stmts: Seq<StmtView>,
    pub value: ExprView,
    pub ty: Option<TypeView>,
    pub temps: nat,
    pub data: DataV,
}

/// The lowering of `expr` where a value of type `expected` (if known) is wanted, `n` slots
/// being taken: `None` and `Some(..)` build optionals and struct calls build structs in
/// fresh memory; other expressions are lowered as `spec_lower_expr` says, with the type
/// `spec_infer` gives.
pub open spec fn spec_side_effects(
    expr: DslExpr,
    expected: Option<TypeView>,
    scope: &Scope,
    names: NamesV,
    n: int,
    fields: Seq<DslStateField>,
    structs: Seq<DslStruct>,
    d: DataV,
) -> Result<SideV, LowerErr> {
    let plain = match spec_lower_expr(expr, scope, fields, structs, d) {
        Err(k) => Err(k),
        Ok((x, d1)) => Ok(SideV { stmts: Seq::empty(), value: x, ty: spec_infer(expr, names, fields, structs), temps: 0, data: d1 }),
    };
    match expr {
        DslExpr::Literal(DslLiteral::Null) => Ok(
            SideV {
                stmts: v_none_buffer(spec_slot(n)),
                value: v_local(spec_slot(n)),
                ty: Some(spec_optional_or_any(expected)),
                temps: 1,
                data: d,
            },
        ),
        DslExpr::Call { callee, args } => match *callee {
            DslExpr::Identifier(name) => if name@ == seq!['S', 'o', 'm', 'e'] {
                if !spec_all_positional(args@) {
                    Err(LowerErr::UnsupportedExpression)
                } else {
                    let ty = match expected {
                        Some(TypeView::Optional(inner)) => TypeView::Optional(inner),
                        _ => TypeView::Optional(
                            Box::new(
                                or_any(
                                    if args@.len() > 0 {
                                        match args@[0] {
                                            DslCallArg::Positional(x) => spec_infer(x, names, fields, structs),
                                            _ => None,
                                        }
                                    } else {
                                        None
                                    },
                                ),
                            ),
                        ),
                    };
                    match spec_optional_buffer(args@, names, n, structs, d) {
                        Err(k) => Err(k),
                        Ok(b) => Ok(SideV { stmts: b.stmts, value: b.ptr, ty: Some(ty), temps: b.temps, data: b.data }),
                    }
                }
            } else {
                match spec_find_struct(structs, name@) {
                    Some(k) => match spec_struct_buffer(structs[k], args@, names, n, structs, d) {
                        Err(e) => Err(e),
                        Ok(b) => Ok(
                            SideV {
                                stmts: b.stmts,
                                value: b.ptr,
                                ty: Some(TypeView::Custom(name@)),
                                temps: b.temps,
                                data: b.data,
                            },
                        ),
                    },
                    None => plain,
                }
            },
            _ => plain,
        },
        _ => plain,
    }
}

/// Whether `r`, with the scopes before and after and the data after, is the lowering `s`
/// describes.
pub open spec fn side_as(
    r: Result<(Vec<Stmt>, Expr, Option<DslType>), ManifestCompileError>,
    module: Seq<char>,
    s: Result<SideV, LowerErr>,
    before: &Scope,
    after: &Scope,
    data: DataV,
) -> bool {
    match s {
        Ok(v) => {
            &&& r matches Ok((st, e, t)) && stmts_view(st@) == v.stmts && e@ == v.value && opt_type_view(t) == v.ty
            &&& after.local_defs@.len() == before.local_defs@.len() + v.temps
            &&& data == v.data
        },
        Err(k) => r matches Err(x) && err_is(x, module, k),
    }
}

/// The expected type if it is optional, else `optional<any>`.
fn optional_or_any(expected: &Option<DslType>) -> (r: DslType)
    ensures
        r@ is Optional,
        (expected matches Some(t) && t@ is Optional) ==> r@ == expected->Some_0@,
        r@ == spec_optional_or_any(opt_type_view(*expected)),
{
    match expected {
        Some(DslType::Optional(inner)) => DslType::Optional(Box::new(inner.copy())),
        Some(t) => {
            assert(!(t@ is Optional));
            let any = DslType::Any;
            assert(any@ == TypeView::Any);
            DslType::Optional(Box::new(any))
        },
        None => {
            let any = DslType::Any;
            assert(any@ == TypeView::Any);
            DslType::Optional(Box::new(any))
        },
    }
}

/// The IR expression of a DSL expression, with the statements that must run before it
/// (building `Some(..)`, `None` and struct values in fresh memory), and the DSL type the
/// value is known to have.
fn lower_expr_with_side_effects(
    module: &str,
    function: &str,
    expr: &DslExpr,
    expected: Option<DslType>,
    scope: &mut Scope,
    data: &mut DataAllocator,
    fields: &[DslStateField],
    structs: &[DslStruct],
) -> (r: Result<(Vec<Stmt>, Expr, Option<DslType>), ManifestCompileError>)
    ensures
        final(data).extends(old(data)),
        final(scope).grows_hidden(old(scope)),
        *expr == DslExpr::Literal(DslLiteral::Null) ==> (r matches Ok((stmts, ptr, t))
            && stmts_view(stmts@) == v_none_buffer(old(scope).next_slot())
            && ptr@ == v_local(old(scope).next_slot()) && (t matches Some(u) && u@ is Optional)),
        side_as(
            r,
            module@,
            spec_side_effects(
                *expr,
                opt_type_view(expected),
                &*old(scope),
                old(scope).names(),
                old(scope).taken(),
                fields@,
                structs@,
                old(data).dv(),
            ),
            &*old(scope),
            &*final(scope),
            final(data).dv(),
        ),
{
    proof {
        reveal_strlit("Some");
        assert("Some"@ =~= seq!['S', 'o', 'm', 'e']);
    }
    match expr {
        DslExpr::Literal(DslLiteral::Null) => {
            let opt_type = optional_or_any(&expected);
            let (stmts, ptr, _len) = match lower_optional_none_buffer(module, scope) {
                Ok(x) => x,
                Err(e) => {
                    return Err(e);
                },
            };
            return Ok((stmts, ptr, Some(opt_type)));
        },
        DslExpr::Call { callee, args } => {
            if let DslExpr::Identifier(name) = &**callee {
                if str_eq(name.as_str(), "Some") {
                    let positional = match call_args_to_positional(module, args.as_slice()) {
                        Ok(p) => p,
                        Err(e) => {
                            return Err(e);
                        },
                    };
                    let opt_type = match &expected {
                        Some(DslType::Optional(inner)) => DslType::Optional(Box::new(inner.copy())),
                        _ => {
                            let inferred = if positional.len() > 0 {
                                infer_dsl_type_from_expr(positional[0], scope, fields, structs)
                            } else {
                                None
                            };
                            let inner = match inferred {
                                Some(t) => t,
                                None => DslType::Any,
                            };
                            DslType::Optional(Box::new(inner))
                        },
                    };
                    let (stmts, ptr, _len) = match lower_optional_buffer(module, args.as_slice(), scope, data, fields, structs) {
                        Ok(x) => x,
                        Err(e) => {
                            return Err(e);
                        },
                    };
                    return Ok((stmts, ptr, Some(opt_type)));
                }
                if let Some(k) = find_struct(structs, name.as_str()) {
                    let (stmts, ptr, _len) = match lower_struct_buffer(module, &structs[k], args.as_slice(), scope, data, fields, structs) {
                        Ok(x) => x,
                        Err(e) => {
                            return Err(e);
                        },
                    };
                    return Ok((stmts, ptr, Some(DslType::Custom(copy_string(name)))));
                }
            }
        },
        _ => {},
    }
    let lowered = match lower_expr(module, function, expr, scope, data, fields, structs) {
        Ok(e) => e,
        Err(e) => {
            return Err(e);
        },
    };
    let inferred = infer_dsl_type_from_expr(expr, scope, fields, structs);
    Ok((new_stmts(), lowered, inferred))
}

// ---------------------------------------------------------------------------
// Loops
// ---------------------------------------------------------------------------

/// A collection named `name` for a loop, given its element part `elem` of its declared
/// type: a local or parameter (32-bit, a pointer), else a state field read raw.
pub open spec fn spec_named_collection(
    name: Seq<char>,
    scope: &Scope,
    fields: Seq<DslStateField>,
    d: DataV,
) -> Result<(ExprView, DataV), LowerErr> {
    match scope.locals.lookup(name) {
        Some((index, ty)) => if ty != ValueType::I32 {
            Err(LowerErr::TypeMismatch(ValueType::I32, ty))
        } else {
            Ok((ExprView::Local { index, ty }, d))
        },
        None => match scope.params.lookup(name) {
            Some((index, ty)) => if ty != ValueType::I32 {
                Err(LowerErr::TypeMismatch(ValueType::I32, ty))
            } else {
                Ok((ExprView::Param { index, ty }, d))
            },
            None => if spec_find_field(fields, name) is Some {
                let (d2, kp, kl, ol) = spec_state_key(d, name);
                Ok((ExprView::StateReadRaw { key_ptr: kp, key_len: kl, out_len_ptr: ol }, d2))
            } else {
                Err(LowerErr::UnknownIdentifier(name))
            },
        },
    }
}

/// The list a `for` loop walks: a list-typed name, or a list-typed field of a struct value;
/// its pointer, its element type and the data after.
pub open spec fn spec_resolve_list(
    iterable: DslExpr,
    scope: &Scope,
    fields: Seq<DslStateField>,
    structs: Seq<DslStruct>,
    d: DataV,
) -> Result<(ExprView, TypeView, DataV), LowerErr> {
    match iterable {
        DslExpr::Identifier(name) => match spec_lookup_dsl_type(scope, fields, name@) {
            None => Err(LowerErr::UnknownIdentifier(name@)),
            Some(t) => match t {
                TypeView::List(inner) => match spec_named_collection(name@, scope, fields, d) {
                    Err(k) => Err(k),
                    Ok((p, d2)) => Ok((p, *inner, d2)),
                },
                _ => Err(LowerErr::UnsupportedType(crate::dsl::spec_type_text(t))),
            },
        },
        DslExpr::Attribute { target, attribute } => match spec_resolve_value(*target, scope, fields, d) {
            Err(k) => Err(k),
            Ok((base, bt, d1)) => match bt {
                TypeView::Custom(name) => match spec_find_struct(structs, name) {
                    None => Err(LowerErr::UnsupportedType(name)),
                    Some(k) => match spec_first_field(structs[k].fields@, attribute@) {
                        None => Err(LowerErr::UnsupportedExpression),
                        Some(j) => {
                            let ft = structs[k].fields@[j].ty@;
                            match ft {
                                TypeView::List(inner) => Ok(
                                    (v_add(v_field_cursor(base, j as nat), v_i32(4)), *inner, d1),
                                ),
                                _ => Err(LowerErr::UnsupportedType(crate::dsl::spec_type_text(ft))),
                            }
                        },
                    },
                },
                _ => Err(LowerErr::UnsupportedType(crate::dsl::spec_type_text(bt))),
            },
        },
        _ => Err(LowerErr::UnsupportedStatement),
    }
}

/// The map a `for key, value in m.items()` loop walks: a map-typed name; its pointer, its
/// key and value types and the data after.
pub open spec fn spec_resolve_map(iterable: DslExpr, scope: &Scope, fields: Seq<DslStateField>, d: DataV) -> Result<
    (ExprView, TypeView, TypeView, DataV),
    LowerErr,
> {
    match iterable {
        DslExpr::Call { callee, args } => if args@.len() != 0 {
            Err(LowerErr::UnsupportedExpression)
        } else {
            match *callee {
                DslExpr::Attribute { target, attribute } => if attribute@ != seq!['i', 't', 'e', 'm', 's'] {
                    Err(LowerErr::UnsupportedExpression)
                } else {
                    match *target {
                        DslExpr::Identifier(name) => match spec_lookup_dsl_type(scope, fields, name@) {
                            None => Err(LowerErr::UnknownIdentifier(name@)),
                            Some(t) => match t {
                                TypeView::Mapping(kt, vt) => match spec_named_collection(name@, scope, fields, d) {
                                    Err(k) => Err(k),
                                    Ok((p, d2)) => Ok((p, *kt, *vt, d2)),
                                },
                                _ => Err(LowerErr::UnsupportedType(crate::dsl::spec_type_text(t))),
                            },
                        },
                        _ => Err(LowerErr::UnsupportedExpression),
                    }
                },
                _ => Err(LowerErr::UnsupportedExpression),
            }
        },
        _ => Err(LowerErr::UnsupportedExpression),
    }
}

/// The list a `for` loop walks and the type of its elements: a list-typed name (local,
/// parameter or state field), or a list-typed field of a struct value.
fn resolve_list_iterable(
    module: &str,
    iterable: &DslExpr,
    scope: &Scope,
    fields: &[DslStateField],
    data: &mut DataAllocator,
    structs: &[DslStruct],
) -> (r: Result<(Expr, DslType), ManifestCompileError>)
    ensures
        final(data).extends(old(data)),
        !(iterable is Identifier || iterable is Attribute) ==> (r matches Err(e) && is_unsupported_statement(e, module@)),
        r matches Ok((p, _)) ==> p@.value_type() == ValueType::I32,
        iterable matches DslExpr::Identifier(name) ==> match spec_lookup_dsl_type(scope, fields@, name@) {
            None => r matches Err(e) && is_unknown_identifier(e, module@, name@),
            Some(t) => !(t is List) ==> (r matches Err(e) && is_unsupported_type(e, module@, t)),
        },
        resolved_as(r, module@, spec_resolve_list(*iterable, scope, fields@, structs@, old(data).dv()), final(data).dv()),
{
    let name = match iterable {
        DslExpr::Identifier(name) => name,
        DslExpr::Attribute { target, attribute } => {
            let (base, base_type) = match resolve_value_expr(module, target, scope, data, fields) {
                Ok(x) => x,
                Err(e) => {
                    return Err(e);
                },
            };
            let struct_name = match &base_type {
                DslType::Custom(n) => n,
                _ => {
                    return Err(unsupported_type(module, &base_type));
                },
            };
            let k = match find_struct(structs, struct_name.as_str()) {
                Some(k) => k,
                None => {
                    return Err(ManifestCompileError::UnsupportedType {
                        module: str_to_string(module),
                        ty: copy_string(struct_name),
                    });
                },
            };
            let (field_ty, field_ptr) = match resolve_struct_field_expr(module, base, &structs[k], attribute.as_str()) {
                Ok(x) => x,
                Err(e) => {
                    return Err(e);
                },
            };
            return match field_ty {
                DslType::List(inner) => Ok((field_ptr, *inner)),
                _ => Err(unsupported_type(module, &field_ty)),
            };
        },
        _ => {
            let d = expr_debug(iterable);
            return Err(unsupported_statement(module, message(&["for in non-list iterable ", d.as_str()])));
        },
    };
    let dsl_type = match lookup_dsl_type(name.as_str(), scope, fields) {
        Some(t) => t,
        None => {
            return Err(unknown_identifier(module, name.as_str()));
        },
    };
    let element_type = match dsl_type {
        DslType::List(inner) => *inner,
        _ => {
            return Err(unsupported_type(module, &dsl_type));
        },
    };
    if let Some((index, ty)) = scope.locals.get_slot(name.as_str()) {
        if ty != ValueType::I32 {
            return Err(type_mismatch(module, ValueType::I32, ty));
        }
        return Ok((Expr::Local { index, ty }, element_type));
    }
    if let Some((index, ty)) = scope.params.get_slot(name.as_str()) {
        if ty != ValueType::I32 {
            return Err(type_mismatch(module, ValueType::I32, ty));
        }
        return Ok((Expr::Param { index, ty }, element_type));
    }
    if find_field(fields, name.as_str()).is_some() {
        let (key_ptr, key_len, out_len_ptr) = alloc_state_key(data, name.as_str());
        return Ok((Expr::StateReadRaw { key_ptr, key_len, out_len_ptr }, element_type));
    }
    Err(unknown_identifier(module, name.as_str()))
}

/// The map a `for key, value in m.items()` loop walks and the types of its keys and values.
fn resolve_map_items_iterable(
    module: &str,
    iterable: &DslExpr,
    scope: &Scope,
    fields: &[DslStateField],
    data: &mut DataAllocator,
) -> (r: Result<(Expr, DslType, DslType), ManifestCompileError>)
    ensures
        final(data).extends(old(data)),
        !(iterable is Call) ==> (r matches Err(e) && is_unsupported_expression(e, module@)),
        r matches Ok((p, _, _)) ==> p@.value_type() == ValueType::I32,
        match spec_resolve_map(*iterable, scope, fields@, old(data).dv()) {
            Ok((p, kt, vt, d)) => r matches Ok((x, k, v)) && x@ == p && k@ == kt && v@ == vt && final(data).dv() == d,
            Err(k) => r matches Err(x) && err_is(x, module@, k),
        },
{
    proof {
        reveal_strlit("items");
        assert("items"@ =~= seq!['i', 't', 'e', 'm', 's']);
    }
    let target = match iterable {
        DslExpr::Call { callee, args } => {
            if args.len() != 0 {
                return Err(unsupported_expression(module, str_to_string("map.items() takes no args")));
            }
            match &**callee {
                DslExpr::Attribute { target, attribute } => {
                    if !str_eq(attribute.as_str(), "items") {
                        let d = expr_debug(iterable);
                        return Err(unsupported_expression(module, message(&["for in non-map iterable ", d.as_str()])));
                    }
                    target
                },
                _ => {
                    let d = expr_debug(iterable);
                    return Err(unsupported_expression(module, message(&["for in non-map iterable ", d.as_str()])));
                },
            }
        },
        _ => {
            let d = expr_debug(iterable);
            return Err(unsupported_expression(module, message(&["for in non-map iterable ", d.as_str()])));
        },
    };
    let name = match &**target {
        DslExpr::Identifier(name) => name,
        _ => {
            return Err(unsupported_expression(module, str_to_string("map.items() target must be identifier")));
        },
    };
    let dsl_type = match lookup_dsl_type(name.as_str(), scope, fields) {
        Some(t) => t,
        None => {
            return Err(unknown_identifier(module, name.as_str()));
        },
    };
    let (key_type, value_type) = match dsl_type {
        DslType::Mapping { key, value } => (*key, *value),
        _ => {
            return Err(unsupported_type(module, &dsl_type));
        },
    };
    if let Some((index, ty)) = scope.locals.get_slot(name.as_str()) {
        if ty != ValueType::I32 {
            return Err(type_mismatch(module, ValueType::I32, ty));
        }
        return Ok((Expr::Local { index, ty }, key_type, value_type));
    }
    if let Some((index, ty)) = scope.params.get_slot(name.as_str()) {
        if ty != ValueType::I32 {
            return Err(type_mismatch(module, ValueType::I32, ty));
        }
        return Ok((Expr::Param { index, ty }, key_type, value_type));
    }
    if find_field(fields, name.as_str()).is_some() {
        let (key_ptr, key_len, out_len_ptr) = alloc_state_key(data, name.as_str());
        return Ok((Expr::StateReadRaw { key_ptr, key_len, out_len_ptr }, key_type, value_type));
    }
    Err(unknown_identifier(module, name.as_str()))
}


// ---------------------------------------------------------------------------
// Statements
// ---------------------------------------------------------------------------

/// `a` is `b` with statements appended.
pub open spec fn stmts_extend(a: Seq<Stmt>, b: Seq<Stmt>) -> bool {
    &&& b.len() <= a.len()
    &&& forall|i: int| 0 <= i < b.len() ==> #[trigger] a[i] == b[i]
}

/// `lower_stmt` on each statement of `body`, in order, appending to `output`.
#[verifier::loop_isolation(false)]
fn lower_body(
    module: &str,
    function: &str,
    body: &[DslStmt],
    scope: &mut Scope,
    output: &mut Vec<Stmt>,
    data: &mut DataAllocator,
    return_type: Option<ValueType>,
    fields: &[DslStateField],
    structs: &[DslStruct],
) -> (r: Result<(), ManifestCompileError>)
    ensures
        final(data).extends(old(data)),
        final(scope).grows(old(scope)),
        stmts_extend(final(output)@, old(output)@),
    decreases body@, 1int,
{
    let mut i: usize = 0;
    while i < body.len()
        invariant
            i <= body@.len(),
            data.extends(old(data)),
            scope.grows(old(scope)),
            stmts_extend(output@, old(output)@),
        decreases body@.len() - i,
    {
        proof {
            assert(decreases_to!(body@ => body@[i as int]));
        }
        let ghost d0 = *data;
        let r = lower_stmt(module, &body[i], function, scope, output, data, return_type, fields, structs);
        proof {
            DataAllocator::lemma_extends_trans(old(data), &d0, data);
        }
        if let Err(e) = r {
            return Err(e);
        }
        i = i + 1;
    }
    Ok(())
}

/// `let name[: ty] = value`: the value is lowered with its side effects (as the declared
/// type, if any, asks) into a fresh local, which must have the declared type's machine type.
fn lower_let(
    module: &str,
    name: &String,
    ty: &Option<DslType>,
    value: &DslExpr,
    function: &str,
    scope: &mut Scope,
    output: &mut Vec<Stmt>,
    data: &mut DataAllocator,
    fields: &[DslStateField],
    structs: &[DslStruct],
) -> (r: Result<(), ManifestCompileError>)
    ensures
        final(data).extends(old(data)),
        final(scope).grows(old(scope)),
        stmts_extend(final(output)@, old(output)@),
        match spec_side_effects(
            *value,
            opt_type_view(*ty),
            &*old(scope),
            old(scope).names(),
            old(scope).taken(),
            fields@,
            structs@,
            old(data).dv(),
        ) {
            Err(k) => r matches Err(y) && err_is(y, module@, k),
            Ok(v) => if ty matches Some(t) && spec_map_type(t@) != v.value.value_type() {
                r matches Err(y) && is_type_mismatch(y, module@, spec_map_type(ty->Some_0@), v.value.value_type())
            } else {
                let index = spec_slot(old(scope).taken() + v.temps);
                &&& r is Ok
                &&& stmts_view(final(output)@) == stmts_view(old(output)@) + v.stmts + seq![v_let(index, v.value)]
                &&& final(data).dv() == v.data
                &&& final(scope).local_defs@.len() == old(scope).local_defs@.len() + v.temps + 1
                &&& final(scope).local_defs@.last().name@ == name@
                &&& final(scope).local_defs@.last().ty == v.value.value_type()
                &&& final(scope).locals.lookup(name@) == Some((index, v.value.value_type()))
                &&& opt_type_view(final(scope).local_types.lookup(name@)) == match ty {
                    Some(t) => Some(t@),
                    None => match v.ty {
                        Some(d) => Some(d),
                        None => opt_type_view(old(scope).local_types.lookup(name@)),
                    },
                }
            },
        },
{
    let expected = match ty {
        Some(t) => Some(t.copy()),
        None => None,
    };
    let (stmts, expr, inferred_dsl) = match lower_expr_with_side_effects(
        module, function, value, expected, scope, data, fields, structs,
    ) {
        Ok(x) => x,
        Err(e) => {
            return Err(e);
        },
    };
    let inferred = expr.value_type();
    let local_ty = match ty {
        Some(t) => {
            let declared = match map_type(module, t) {
                Ok(d) => d,
                Err(e) => {
                    return Err(e);
                },
            };
            if declared != inferred {
                return Err(type_mismatch(module, declared, inferred));
            }
            scope.local_types.insert(copy_string(name), t.copy());
            declared
        },
        None => {
            if let Some(d) = inferred_dsl {
                scope.local_types.insert(copy_string(name), d);
            }
            inferred
        },
    };
    let index = slot(scope.param_count, scope.local_defs.len());
    scope.local_defs.push(Local { name: copy_string(name), ty: local_ty });
    scope.locals.insert(copy_string(name), (index, local_ty));
    append_stmts(output, stmts);
    push_stmt(output, Stmt::Let { local: index, value: expr });
    Ok(())
}

/// `name = value` for a declared local: the value, lowered with its side effects as the
/// local's DSL type asks, must have the local's machine type.
fn lower_assign_local(
    module: &str,
    name: &String,
    value: &DslExpr,
    function: &str,
    scope: &mut Scope,
    output: &mut Vec<Stmt>,
    data: &mut DataAllocator,
    fields: &[DslStateField],
    structs: &[DslStruct],
) -> (r: Result<(), ManifestCompileError>)
    requires
        old(scope).locals.lookup(name@) is Some,
    ensures
        final(data).extends(old(data)),
        final(scope).grows(old(scope)),
        stmts_extend(final(output)@, old(output)@),
        ({
            let (index, lty) = old(scope).locals.lookup(name@)->Some_0;
            match spec_side_effects(
                *value,
                opt_type_view(old(scope).local_types.lookup(name@)),
                &*old(scope),
                old(scope).names(),
                old(scope).taken(),
                fields@,
                structs@,
                old(data).dv(),
            ) {
                Err(k) => r matches Err(y) && err_is(y, module@, k),
                Ok(v) => if v.value.value_type() != lty {
                    r matches Err(y) && is_type_mismatch(y, module@, lty, v.value.value_type())
                } else {
                    &&& r is Ok
                    &&& stmts_view(final(output)@) == stmts_view(old(output)@) + v.stmts + seq![v_assign(index, v.value)]
                    &&& final(data).dv() == v.data
                    &&& final(scope).local_defs@.len() == old(scope).local_defs@.len() + v.temps
                    &&& final(scope).locals == old(scope).locals
                    &&& opt_type_view(final(scope).local_types.lookup(name@)) == match v.ty {
                        Some(d) => Some(d),
                        None => opt_type_view(old(scope).local_types.lookup(name@)),
                    }
                },
            }
        }),
{
    let (index, ty) = match scope.locals.get_slot(name.as_str()) {
        Some(x) => x,
        None => {
            return Err(unsupported_statement(module, str_to_string("assign to undeclared local")));
        },
    };
    let expected = scope.local_types.get_type(name.as_str());
    let expected_copy = match &expected {
        Some(t) => Some(t.copy()),
        None => None,
    };
    let (stmts, expr, inferred_dsl) = match lower_expr_with_side_effects(
        module, function, value, expected_copy, scope, data, fields, structs,
    ) {
        Ok(x) => x,
        Err(e) => {
            return Err(e);
        },
    };
    if expr.value_type() != ty {
        return Err(type_mismatch(module, ty, expr.value_type()));
    }
    match inferred_dsl {
        Some(d) => scope.local_types.insert(copy_string(name), d),
        None => match expected {
            Some(d) => scope.local_types.insert(copy_string(name), d),
            None => {},
        },
    }
    append_stmts(output, stmts);
    push_stmt(output, Stmt::Assign { local: index, value: expr });
    Ok(())
}

/// Lowers one statement, appending its IR to `output`.
#[verifier::loop_isolation(false)]
#[verifier::spinoff_prover]
#[verifier::rlimit(80)]
fn lower_stmt(
    module: &str,
    stmt: &DslStmt,
    function: &str,
    scope: &mut Scope,
    output: &mut Vec<Stmt>,
    data: &mut DataAllocator,
    return_type: Option<ValueType>,
    fields: &[DslStateField],
    structs: &[DslStruct],
) -> (r: Result<(), ManifestCompileError>)
    ensures
        final(data).extends(old(data)),
        final(scope).grows(old(scope)),
        stmts_extend(final(output)@, old(output)@),
        *stmt == DslStmt::Pass ==> r is Ok && final(output)@ == old(output)@,
        *stmt == DslStmt::Break ==> r is Ok && stmts_view(final(output)@) == stmts_view(old(output)@).push(StmtView::Break),
        *stmt == DslStmt::Continue ==> r is Ok && stmts_view(final(output)@) == stmts_view(old(output)@).push(
            StmtView::Continue,
        ),
        stmt is Raise ==> r is Ok && stmts_view(final(output)@) == stmts_view(old(output)@).push(
            StmtView::Expr(ExprView::HostCall { function: HostFunction::SystemAbort, args: Seq::empty() }),
        ),
        *stmt == DslStmt::Return(None) ==> match return_type {
            Some(t) => r matches Err(e) && is_type_mismatch(e, module@, t, ValueType::I32),
            None => r is Ok && stmts_view(final(output)@) == stmts_view(old(output)@).push(StmtView::Return(None)),
        },
        (stmt matches DslStmt::Return(Some(_)) && r is Ok) ==> (return_type matches Some(t) && exists|x: ExprView|
            stmts_view(final(output)@) == stmts_view(old(output)@).push(StmtView::Return(Some(x))) && #[trigger] x.value_type()
                == t),
        stmt matches DslStmt::Return(Some(e)) ==> match spec_lower_expr(*e, &*old(scope), fields@, structs@, old(data).dv()) {
            Ok((x, d)) => match return_type {
                Some(t) => if x.value_type() == t {
                    &&& r is Ok
                    &&& stmts_view(final(output)@) == stmts_view(old(output)@).push(StmtView::Return(Some(x)))
                    &&& final(data).dv() == d
                } else {
                    r matches Err(y) && is_type_mismatch(y, module@, t, x.value_type())
                },
                None => r matches Err(y) && is_type_mismatch(y, module@, ValueType::I32, x.value_type()),
            },
            Err(k) => r matches Err(y) && err_is(y, module@, k),
        },
        stmt matches DslStmt::Expr(e) ==> (!spec_is_state_write(*e) ==> match spec_lower_expr(
            *e,
            &*old(scope),
            fields@,
            structs@,
            old(data).dv(),
        ) {
            Ok((x, d)) => {
                &&& r is Ok
                &&& stmts_view(final(output)@) == stmts_view(old(output)@).push(StmtView::Expr(x))
                &&& final(data).dv() == d
            },
            Err(k) => r matches Err(y) && err_is(y, module@, k),
        }),
        stmt matches DslStmt::Let { name, ty, value } ==> match spec_side_effects(
            *value,
            opt_type_view(*ty),
            &*old(scope),
            old(scope).names(),
            old(scope).taken(),
            fields@,
            structs@,
            old(data).dv(),
        ) {
            Err(k) => r matches Err(y) && err_is(y, module@, k),
            Ok(v) => if ty matches Some(t) && spec_map_type(t@) != v.value.value_type() {
                r matches Err(y) && is_type_mismatch(y, module@, spec_map_type(ty->Some_0@), v.value.value_type())
            } else {
                let index = spec_slot(old(scope).taken() + v.temps);
                &&& r is Ok
                &&& stmts_view(final(output)@) == stmts_view(old(output)@) + v.stmts + seq![v_let(index, v.value)]
                &&& final(data).dv() == v.data
                &&& final(scope).local_defs@.len() == old(scope).local_defs@.len() + v.temps + 1
                &&& final(scope).local_defs@.last().name@ == name@
                &&& final(scope).local_defs@.last().ty == v.value.value_type()
                &&& final(scope).locals.lookup(name@) == Some((index, v.value.value_type()))
                &&& opt_type_view(final(scope).local_types.lookup(name@)) == match ty {
                    Some(t) => Some(t@),
                    None => match v.ty {
                        Some(d) => Some(d),
                        None => opt_type_view(old(scope).local_types.lookup(name@)),
                    },
                }
            },
        },
        stmt matches DslStmt::Assign { target, value } ==> match *target {
            DslExpr::Identifier(n) => match old(scope).locals.lookup(n@) {
                Some((index, lty)) => match spec_side_effects(
                    *value,
                    opt_type_view(old(scope).local_types.lookup(n@)),
                    &*old(scope),
                    old(scope).names(),
                    old(scope).taken(),
                    fields@,
                    structs@,
                    old(data).dv(),
                ) {
                    Err(k) => r matches Err(y) && err_is(y, module@, k),
                    Ok(v) => if v.value.value_type() != lty {
                        r matches Err(y) && is_type_mismatch(y, module@, lty, v.value.value_type())
                    } else {
                        &&& r is Ok
                        &&& stmts_view(final(output)@) == stmts_view(old(output)@) + v.stmts + seq![v_assign(index, v.value)]
                        &&& final(data).dv() == v.data
                        &&& final(scope).local_defs@.len() == old(scope).local_defs@.len() + v.temps
                        &&& final(scope).locals == old(scope).locals
                    },
                },
                None => if spec_find_field(fields@, n@) is Some {
                    match spec_state_write(
                        DslExpr::Literal(DslLiteral::String(n)),
                        *value,
                        old(scope).names(),
                        old(scope).taken(),
                        structs@,
                        old(data).dv(),
                    ) {
                        Err(k) => r matches Err(y) && err_is(y, module@, k),
                        Ok((st, call, _, d1)) => {
                            &&& r is Ok
                            &&& stmts_view(final(output)@) == stmts_view(old(output)@) + st + seq![StmtView::Expr(call)]
                            &&& final(data).dv() == d1
                        },
                    }
                } else {
                    match spec_side_effects(
                    *value,
                    None,
                    &*old(scope),
                    old(scope).names(),
                    old(scope).taken(),
                    fields@,
                    structs@,
                    old(data).dv(),
                ) {
                    Err(k) => r matches Err(y) && err_is(y, module@, k),
                    Ok(v) => {
                        let index = spec_slot(old(scope).taken() + v.temps);
                        &&& r is Ok
                        &&& stmts_view(final(output)@) == stmts_view(old(output)@) + v.stmts + seq![v_let(index, v.value)]
                        &&& final(data).dv() == v.data
                        &&& final(scope).local_defs@.last().name@ == n@
                        &&& final(scope).local_defs@.last().ty == v.value.value_type()
                        &&& final(scope).locals.lookup(n@) == Some((index, v.value.value_type()))
                    },
                    }
                },
            },
            _ => r matches Err(y) && is_unsupported_statement(y, module@),
        },
        stmt matches DslStmt::Expr(e) ==> (spec_is_state_write(*e) ==> match spec_state_write_call(
            e->Call_args@,
            old(scope).names(),
            old(scope).taken(),
            structs@,
            old(data).dv(),
        ) {
            Err(k) => r matches Err(y) && err_is(y, module@, k),
            Ok((st, call, _, d1)) => {
                &&& r is Ok
                &&& stmts_view(final(output)@) == stmts_view(old(output)@) + st + seq![StmtView::Expr(call)]
                &&& final(data).dv() == d1
            },
        }),
        stmt matches DslStmt::If { branches, .. } ==> (r is Ok && branches@.len() > 0 ==> {
            &&& final(output)@ == old(output)@.push(final(output)@.last())
            &&& final(output)@.last() is If
        }),
        stmt matches DslStmt::While { condition, .. } ==> match spec_lower_expr(
            *condition,
            &*old(scope),
            fields@,
            structs@,
            old(data).dv(),
        ) {
            Ok((x, _)) => r is Ok ==> {
                &&& stmts_view(final(output)@) == stmts_view(old(output)@).push(stmts_view(final(output)@).last())
                &&& stmts_view(final(output)@).last() matches StmtView::While { condition: c, .. } && c == x
            },
            Err(k) => r matches Err(y) && err_is(y, module@, k),
        },
    decreases stmt, 0int,
{
    proof {
        reveal_strlit("state_write");
        assert("state_write"@ =~= seq!['s', 't', 'a', 't', 'e', '_', 'w', 'r', 'i', 't', 'e']);
    }
    match stmt {
        DslStmt::Let { name, ty, value } => lower_let(module, name, ty, value, function, scope, output, data, fields, structs),
        DslStmt::Assign { target, value } => {
            let target_name = match target {
                DslExpr::Identifier(n) => n,
                _ => {
                    let d = expr_debug(target);
                    return Err(unsupported_statement(module, message(&["assign to ", d.as_str()])));
                },
            };
            if scope.locals.contains(target_name.as_str()) {
                return lower_assign_local(module, target_name, value, function, scope, output, data, fields, structs);
            }
            if find_field(fields, target_name.as_str()).is_some() {
                let key = DslExpr::Literal(DslLiteral::String(copy_string(target_name)));
                let (stmts, call) = match lower_state_write_values(module, &key, value, scope, data, fields, structs) {
                    Ok(x) => x,
                    Err(e) => {
                        return Err(e);
                    },
                };
                append_stmts(output, stmts);
                push_stmt(output, Stmt::Expr(call));
                return Ok(());
            }
            let no_type: Option<DslType> = None;
            lower_let(module, target_name, &no_type, value, function, scope, output, data, fields, structs)
        },
        DslStmt::If { branches, else_branch } => {
            let mut else_body: Vec<Stmt> = Vec::new();
            if let Some(else_stmts) = else_branch {
                proof {
                    assert(decreases_to!(stmt => *else_branch));
                    assert(decreases_to!(*else_branch => *else_stmts));
                    assert(decreases_to!(*else_stmts => else_stmts@));
                }
                let ghost d0 = *data;
                let r = lower_body(module, function, else_stmts.as_slice(), scope, &mut else_body, data, return_type, fields, structs);
                proof {
                    DataAllocator::lemma_extends_trans(old(data), &d0, data);
                }
                if let Err(e) = r {
                    return Err(e);
                }
            }
            let mut b: usize = branches.len();
            while b > 0
                invariant
                    b <= branches@.len(),
                    data.extends(old(data)),
                    scope.grows(old(scope)),
                    *output == *old(output),
                    b < branches@.len() ==> else_body@.len() == 1 && else_body@[0] is If,
                decreases b,
            {
                let branch = &branches[b - 1];
                proof {
                    assert(decreases_to!(stmt => *branches));
                    assert(decreases_to!(*branches => branches@));
                    assert(decreases_to!(branches@ => branches@[b - 1]));
                    assert(decreases_to!(branches@[b - 1] => branches@[b - 1].body));
                    assert(decreases_to!(branches@[b - 1].body => branches@[b - 1].body@));
                }
                let mut then_body: Vec<Stmt> = Vec::new();
                let ghost d0 = *data;
                let r = lower_body(module, function, branch.body.as_slice(), scope, &mut then_body, data, return_type, fields, structs);
                proof {
                    DataAllocator::lemma_extends_trans(old(data), &d0, data);
                }
                if let Err(e) = r {
                    return Err(e);
                }
                let ghost d1 = *data;
                let condition = match lower_expr(module, function, &branch.condition, scope, data, fields, structs) {
                    Ok(c) => c,
                    Err(e) => {
                        proof {
                            DataAllocator::lemma_extends_trans(old(data), &d1, data);
                        }
                        return Err(e);
                    },
                };
                proof {
                    DataAllocator::lemma_extends_trans(old(data), &d1, data);
                }
                let nested = Stmt::If { condition, then_body, else_body };
                else_body = Vec::new();
                else_body.push(nested);
                b = b - 1;
            }
            let ghost before = output@;
            output.append(&mut else_body);
            proof {
                if branches@.len() > 0 {
                    assert(output@ =~= before.push(output@.last()));
                }
            }
            Ok(())
        },
        DslStmt::While { condition, body } => {
            let cond = match lower_expr(module, function, condition, scope, data, fields, structs) {
                Ok(c) => c,
                Err(e) => {
                    return Err(e);
                },
            };
            proof {
                assert(decreases_to!(stmt => *body));
                assert(decreases_to!(*body => body@));
            }
            let mut lowered: Vec<Stmt> = Vec::new();
            let ghost d0 = *data;
            let r = lower_body(module, function, body.as_slice(), scope, &mut lowered, data, return_type, fields, structs);
            proof {
                DataAllocator::lemma_extends_trans(old(data), &d0, data);
            }
            if let Err(e) = r {
                return Err(e);
            }
            let ghost cv = cond@;
            let ghost bv = stmts_view(lowered@);
            let w = Stmt::While { condition: cond, body: lowered };
            assert(w@ == StmtView::While { condition: cv, body: bv });
            push_stmt(output, w);
            Ok(())
        },
        DslStmt::Return(value) => {
            let lowered = match value {
                Some(e) => match lower_expr(module, function, e, scope, data, fields, structs) {
                    Ok(x) => Some(x),
                    Err(err) => {
                        return Err(err);
                    },
                },
                None => None,
            };
            match (return_type, &lowered) {
                (Some(expected), Some(found)) => {
                    if expected != found.value_type() {
                        return Err(type_mismatch(module, expected, found.value_type()));
                    }
                },
                (Some(expected), None) => {
                    return Err(type_mismatch(module, expected, ValueType::I32));
                },
                (None, Some(found)) => {
                    return Err(type_mismatch(module, ValueType::I32, found.value_type()));
                },
                (None, None) => {},
            }
            let st = Stmt::Return { value: lowered };
            proof {
                if *stmt == DslStmt::Return(None) {
                    assert(st@ == StmtView::Return(None));
                }
            }
            let ghost before = stmts_view(output@);
            let ghost stv = st;
            push_stmt(output, st);
            proof {
                if let Stmt::Return { value: Some(x) } = stv {
                    assert(stv@ == StmtView::Return(Some(x@)));
                    assert(x@.value_type() == x.spec_value_type());
                    assert(stmts_view(output@) == before.push(StmtView::Return(Some(x@))));
                }
            }
            Ok(())
        },
        DslStmt::Raise(_) => {
            let args: Vec<Expr> = Vec::new();
            assert(exprs_view(args@) == Seq::<ExprView>::empty());
            let call = Expr::HostCall { function: HostFunction::SystemAbort, args };
            push_stmt(output, Stmt::Expr(call));
            Ok(())
        },
        DslStmt::Pass => Ok(()),
        DslStmt::Expr(e) => {
            if let DslExpr::Call { callee, args } = e {
                if let DslExpr::Identifier(name) = &**callee {
                    if str_eq(name.as_str(), "state_write") {
                        let (stmts, call) = match lower_state_write_stmt(module, args.as_slice(), scope, data, fields, structs) {
                            Ok(x) => x,
                            Err(err) => {
                                return Err(err);
                            },
                        };
                        append_stmts(output, stmts);
                        push_stmt(output, Stmt::Expr(call));
                        return Ok(());
                    }
                }
            }
            let lowered = match lower_expr(module, function, e, scope, data, fields, structs) {
                Ok(x) => x,
                Err(err) => {
                    return Err(err);
                },
            };
            push_stmt(output, Stmt::Expr(lowered));
            Ok(())
        },
        DslStmt::Break => {
            push_stmt(output, Stmt::Break);
            Ok(())
        },
        DslStmt::Continue => {
            push_stmt(output, Stmt::Continue);
            Ok(())
        },
        DslStmt::For { binding, iterable, body } => {
            let bindings = match split_binding_names(module, binding.as_str()) {
                Ok(b) => b,
                Err(e) => {
                    return Err(e);
                },
            };
            proof {
                assert(decreases_to!(stmt => *body));
                assert(decreases_to!(*body => body@));
            }
            if let DslExpr::ListLiteral(items) = iterable {
                if bindings.len() != 1 {
                    return Err(unsupported_statement(module, message(&["for binding mismatch ", binding.as_str()])));
                }
                return lower_for_list_literal(
                    module, function, bindings[0].as_str(), items.as_slice(), body.as_slice(), scope, output, data,
                    return_type, fields, structs,
                );
            }
            if bindings.len() == 1 {
                return lower_for_list_iterable(
                    module, function, bindings[0].as_str(), iterable, body.as_slice(), scope, output, data,
                    return_type, fields, structs,
                );
            }
            if bindings.len() == 2 {
                return lower_for_map_items(
                    module, function, bindings[0].as_str(), bindings[1].as_str(), iterable, body.as_slice(), scope,
                    output, data, return_type, fields, structs,
                );
            }
            Err(unsupported_statement(module, message(&["for binding mismatch ", binding.as_str()])))
        },
    }
}

/// A loop over a list literal, unrolled: the binding is set to each item in turn and the
/// body lowered after each.
#[verifier::loop_isolation(false)]
fn lower_for_list_literal(
    module: &str,
    function: &str,
    binding: &str,
    items: &[DslExpr],
    body: &[DslStmt],
    scope: &mut Scope,
    output: &mut Vec<Stmt>,
    data: &mut DataAllocator,
    return_type: Option<ValueType>,
    fields: &[DslStateField],
    structs: &[DslStruct],
) -> (r: Result<(), ManifestCompileError>)
    ensures
        final(data).extends(old(data)),
        final(scope).grows(old(scope)),
        stmts_extend(final(output)@, old(output)@),
    decreases body@, 2int,
{
    let existing = scope.locals.get_slot(binding);
    let mut binding_index: Option<u32> = match existing {
        Some((idx, _)) => Some(idx),
        None => None,
    };
    let mut binding_ty: Option<ValueType> = match existing {
        Some((_, t)) => Some(t),
        None => None,
    };
    let mut initialized = binding_index.is_some();
    let mut i: usize = 0;
    while i < items.len()
        invariant
            i <= items@.len(),
            data.extends(old(data)),
            scope.grows(old(scope)),
            stmts_extend(output@, old(output)@),
        decreases items@.len() - i,
    {
        let ghost d0 = *data;
        let item_expr = match lower_expr(module, function, &items[i], scope, data, fields, structs) {
            Ok(e) => e,
            Err(e) => {
                proof {
                    DataAllocator::lemma_extends_trans(old(data), &d0, data);
                }
                return Err(e);
            },
        };
        proof {
            DataAllocator::lemma_extends_trans(old(data), &d0, data);
        }
        let local_idx = match binding_index {
            Some(index) => index,
            None => {
                let index = slot(scope.param_count, scope.local_defs.len());
                let ty = item_expr.value_type();
                scope.local_defs.push(Local { name: str_to_string(binding), ty });
                scope.locals.insert(str_to_string(binding), (index, ty));
                binding_index = Some(index);
                binding_ty = Some(ty);
                index
            },
        };
        let ty = match binding_ty {
            Some(t) => t,
            None => item_expr.value_type(),
        };
        if ty != item_expr.value_type() {
            return Err(type_mismatch(module, ty, item_expr.value_type()));
        }
        if initialized {
            output.push(Stmt::Assign { local: local_idx, value: item_expr });
        } else {
            output.push(Stmt::Let { local: local_idx, value: item_expr });
            initialized = true;
        }
        let ghost d1 = *data;
        let r = lower_body(module, function, body, scope, output, data, return_type, fields, structs);
        proof {
            DataAllocator::lemma_extends_trans(old(data), &d1, data);
        }
        if let Err(e) = r {
            return Err(e);
        }
        i = i + 1;
    }
    Ok(())
}

/// The element of type `et` at the cursor in local `cur`, and the cursor past it.
pub open spec fn spec_list_element(et: TypeView, cur: u32) -> (ExprView, ExprView) {
    if spec_is_integer(et) {
        (v_load_i64(v_local(cur)), v_add(v_local(cur), v_i32(8)))
    } else {
        (v_local(cur), v_add(v_add(v_local(cur), v_i32(4)), v_load_i32(v_local(cur))))
    }
}

/// The statements of a loop over the list at `lp` with elements of type `et`, bound to local
/// `bind` (declared by the loop when `fresh`), its temporaries taking slots from `t0` on, and
/// `b` the lowered loop body: the list pointer, count, cursor and index, then a loop that
/// binds the element at the cursor, runs the body and steps cursor and index.
pub open spec fn spec_list_loop(lp: ExprView, et: TypeView, bind: u32, fresh: bool, t0: int, b: Seq<StmtView>) -> Seq<
    StmtView,
> {
    let p = spec_slot(t0);
    let c = spec_slot(t0 + 1);
    let cur = spec_slot(t0 + 2);
    let ix = spec_slot(t0 + 3);
    let (v, next) = spec_list_element(et, cur);
    seq![
        v_let(p, lp),
        v_let(c, v_load_i32(v_local(p))),
        v_let(cur, v_add(v_local(p), v_i32(4))),
        v_let(ix, v_i32(0)),
        StmtView::While {
            condition: v_less(v_local(ix), v_local(c)),
            body: seq![if fresh { v_let(bind, v) } else { v_assign(bind, v) }] + b + seq![
                v_assign(cur, next),
                v_assign(ix, v_add(v_local(ix), v_i32(1))),
            ],
        },
    ]
}

/// A loop over a list in memory: a count, a cursor and an index, with the binding set to
/// the element at the cursor on each round.
#[verifier::loop_isolation(false)]
#[verifier::rlimit(60)]
fn lower_for_list_iterable(
    module: &str,
    function: &str,
    binding: &str,
    iterable: &DslExpr,
    body: &[DslStmt],
    scope: &mut Scope,
    output: &mut Vec<Stmt>,
    data: &mut DataAllocator,
    return_type: Option<ValueType>,
    fields: &[DslStateField],
    structs: &[DslStruct],
) -> (r: Result<(), ManifestCompileError>)
    ensures
        final(data).extends(old(data)),
        final(scope).grows(old(scope)),
        stmts_extend(final(output)@, old(output)@),
        match spec_resolve_list(*iterable, &*old(scope), fields@, structs@, old(data).dv()) {
            Err(k) => r matches Err(y) && err_is(y, module@, k),
            Ok((lp, et, _)) => match old(scope).locals.lookup(binding@) {
                Some((bi, bt)) => if bt != spec_map_type(et) {
                    r matches Err(y) && is_type_mismatch(y, module@, bt, spec_map_type(et))
                } else if !(spec_is_integer(et) || spec_is_byte_string(et)) {
                    r matches Err(y) && is_unsupported_type(y, module@, et)
                } else {
                    r is Ok ==> exists|b: Seq<StmtView>|
                        stmts_view(final(output)@) == stmts_view(old(output)@) + #[trigger] spec_list_loop(
                            lp,
                            et,
                            bi,
                            false,
                            old(scope).taken(),
                            b,
                        )
                },
                None => if !(spec_is_integer(et) || spec_is_byte_string(et)) {
                    r matches Err(y) && is_unsupported_type(y, module@, et)
                } else {
                    r is Ok ==> exists|b: Seq<StmtView>|
                        stmts_view(final(output)@) == stmts_view(old(output)@) + #[trigger] spec_list_loop(
                            lp,
                            et,
                            spec_slot(old(scope).taken()),
                            true,
                            old(scope).taken() + 1,
                            b,
                        )
                },
            },
        },
    decreases body@, 2int,
{
    let (list_ptr, element_type) = match resolve_list_iterable(module, iterable, scope, fields, data, structs) {
        Ok(x) => x,
        Err(e) => {
            return Err(e);
        },
    };
    let (binding_idx, binding_new) = match ensure_binding_local(module, binding, &element_type, scope) {
        Ok(x) => x,
        Err(e) => {
            return Err(e);
        },
    };
    let ghost out0 = stmts_view(output@);
    let ghost lpv = list_ptr@;
    let list_ptr_idx = add_temp_local(scope, ValueType::I32, "__list_ptr");
    push_stmt(output, Stmt::Let { local: list_ptr_idx, value: list_ptr });
    let count_idx = add_temp_local(scope, ValueType::I32, "__list_count");
    push_stmt(output, Stmt::Let { local: count_idx, value: load_i32(local_i32(list_ptr_idx)) });
    let cursor_idx = add_temp_local(scope, ValueType::I32, "__list_cursor");
    push_stmt(output, Stmt::Let { local: cursor_idx, value: add_i32(local_i32(list_ptr_idx), Expr::ConstI32(4)) });
    let idx_local = add_temp_local(scope, ValueType::I32, "__list_index");
    push_stmt(output, Stmt::Let { local: idx_local, value: Expr::ConstI32(0) });
    let ghost out1 = stmts_view(output@);
    assert(out1 =~= out0 + seq![
        v_let(list_ptr_idx, lpv),
        v_let(count_idx, v_load_i32(v_local(list_ptr_idx))),
        v_let(cursor_idx, v_add(v_local(list_ptr_idx), v_i32(4))),
        v_let(idx_local, v_i32(0)),
    ]);
    let condition = less_i32(local_i32(idx_local), local_i32(count_idx));
    let mut loop_body: Vec<Stmt> = Vec::new();
    let (value_expr, next_cursor) = match list_element_expr(module, &element_type, local_i32(cursor_idx)) {
        Ok(x) => x,
        Err(e) => {
            return Err(e);
        },
    };
    let ghost vv = value_expr@;
    let ghost nv = next_cursor@;
    let ghost cv = condition@;
    if binding_new {
        loop_body.push(Stmt::Let { local: binding_idx, value: value_expr });
    } else {
        loop_body.push(Stmt::Assign { local: binding_idx, value: value_expr });
    }
    let ghost lb0 = loop_body@;
    let ghost d0 = *data;
    let r = lower_body(module, function, body, scope, &mut loop_body, data, return_type, fields, structs);
    proof {
        DataAllocator::lemma_extends_trans(old(data), &d0, data);
    }
    if let Err(e) = r {
        return Err(e);
    }
    let ghost rest = loop_body@.subrange(1, loop_body@.len() as int);
    proof {
        assert(loop_body@ =~= lb0 + rest);
        lemma_stmts_view_append(lb0, rest);
        assert(stmts_view(lb0) =~= seq![lb0[0]@]) by {
            lemma_stmts_view_index(lb0);
        }
    }
    let ghost lb1 = stmts_view(loop_body@);
    push_stmt(&mut loop_body, Stmt::Assign { local: cursor_idx, value: next_cursor });
    push_stmt(&mut loop_body, Stmt::Assign { local: idx_local, value: add_i32(local_i32(idx_local), Expr::ConstI32(1)) });
    let ghost lbv = stmts_view(loop_body@);
    assert(lbv =~= lb1 + seq![v_assign(cursor_idx, nv), v_assign(idx_local, v_add(v_local(idx_local), v_i32(1)))]);
    let w = Stmt::While { condition, body: loop_body };
    assert(w@ == StmtView::While { condition: cv, body: lbv });
    push_stmt(output, w);
    proof {
        let b = stmts_view(rest);
        let t0 = if binding_new { old(scope).taken() + 1 } else { old(scope).taken() };
        assert(stmts_view(output@) =~= stmts_view(old(output)@) + spec_list_loop(lpv, element_type@, binding_idx, binding_new, t0, b));
    }
    Ok(())
}

/// The local a loop binds, given what the name held (`found`): the existing local, which
/// must have the machine type of `t`, or a new one in slot `next`; and whether it is new.
pub open spec fn spec_binding(found: Option<(u32, ValueType)>, t: TypeView, next: int) -> Result<(u32, bool), LowerErr> {
    match found {
        Some((i, ty)) => if ty == spec_map_type(t) {
            Ok((i, false))
        } else {
            Err(LowerErr::TypeMismatch(ty, spec_map_type(t)))
        },
        None => Ok((spec_slot(next), true)),
    }
}

/// A map key or value of type `t` whose encoding starts at `ptr`: an integer is loaded past
/// its length prefix, other values are used through their pointer.
pub open spec fn spec_map_element(t: TypeView, ptr: ExprView) -> ExprView {
    if spec_is_integer(t) {
        v_load_i64(v_add(ptr, v_i32(4)))
    } else {
        ptr
    }
}

/// What a `for key, value in m.items()` loop is built from before its body: the map, the
/// key and value types, the locals bound (and whether the loop declares them) and the first
/// slot of its temporaries.
pub ghost struct MapPlan {
    pub map: ExprView,
    pub key_type: TypeView,
    pub value_type: TypeView,
    pub key_local: u32,
    pub key_new: bool,
    pub value_local: u32,
    pub value_new: bool,
    pub first_temp: int,
}

/// The plan of a map loop over `iterable` binding `key_name` and `value_name`, or the error
/// found before its body: the map is resolved, the key bound, then the value (which sees
/// the key's binding), and neither keys nor values may be booleans.
pub open spec fn spec_map_items_plan(
    iterable: DslExpr,
    key_name: Seq<char>,
    value_name: Seq<char>,
    scope: &Scope,
    fields: Seq<DslStateField>,
    d: DataV,
) -> Result<MapPlan, LowerErr> {
    match spec_resolve_map(iterable, scope, fields, d) {
        Err(k) => Err(k),
        Ok((mp, kt, vt, _)) => match spec_binding(scope.locals.lookup(key_name), kt, scope.taken()) {
            Err(k) => Err(k),
            Ok((ki, kn)) => {
                let t1 = scope.taken() + if kn { 1int } else { 0int };
                let found = if kn && value_name == key_name {
                    Some((ki, spec_map_type(kt)))
                } else {
                    scope.locals.lookup(value_name)
                };
                match spec_binding(found, vt, t1) {
                    Err(k) => Err(k),
                    Ok((vi, vn)) => if kt is Bool {
                        Err(LowerErr::UnsupportedType(crate::dsl::spec_type_text(kt)))
                    } else if vt is Bool {
                        Err(LowerErr::UnsupportedType(crate::dsl::spec_type_text(vt)))
                    } else {
                        Ok(
                            MapPlan {
                                map: mp,
                                key_type: kt,
                                value_type: vt,
                                key_local: ki,
                                key_new: kn,
                                value_local: vi,
                                value_new: vn,
                                first_temp: t1 + if vn { 1int } else { 0int },
                            },
                        )
                    },
                }
            },
        },
    }
}

/// The statements of a loop over the entries of the map at `mp`, keys of type `kt` bound to
/// local `ki` and values of type `vt` to `vi` (declared by the loop when `kn`, `vn`), its
/// temporaries taking slots from `t0` on, and `b` the lowered loop body.
pub open spec fn spec_map_loop(
    mp: ExprView,
    kt: TypeView,
    vt: TypeView,
    ki: u32,
    kn: bool,
    vi: u32,
    vn: bool,
    t0: int,
    b: Seq<StmtView>,
) -> Seq<StmtView> {
    let p = spec_slot(t0);
    let c = spec_slot(t0 + 1);
    let cur = spec_slot(t0 + 2);
    let ix = spec_slot(t0 + 3);
    let kl = spec_slot(t0 + 4);
    let vp = spec_slot(t0 + 5);
    let vl = spec_slot(t0 + 6);
    let kv = spec_map_element(kt, v_local(cur));
    let vv = spec_map_element(vt, v_local(vp));
    seq![
        v_let(p, mp),
        v_let(c, v_load_i32(v_local(p))),
        v_let(cur, v_add(v_local(p), v_i32(4))),
        v_let(ix, v_i32(0)),
        StmtView::While {
            condition: v_less(v_local(ix), v_local(c)),
            body: seq![
                v_assign(kl, v_load_i32(v_local(cur))),
                v_assign(vp, v_add(v_add(v_local(cur), v_i32(4)), v_local(kl))),
                v_assign(vl, v_load_i32(v_local(vp))),
                if kn { v_let(ki, kv) } else { v_assign(ki, kv) },
                if vn { v_let(vi, vv) } else { v_assign(vi, vv) },
            ] + b + seq![
                v_assign(cur, v_add(v_add(v_local(vp), v_i32(4)), v_local(vl))),
                v_assign(ix, v_add(v_local(ix), v_i32(1))),
            ],
        },
    ]
}

/// A loop over the entries of a map in memory: each entry is a length-prefixed key then a
/// length-prefixed value; the bindings are set to the key and value of each entry.
#[verifier::loop_isolation(false)]
#[verifier::rlimit(100)]
fn lower_for_map_items(
    module: &str,
    function: &str,
    key_binding: &str,
    value_binding: &str,
    iterable: &DslExpr,
    body: &[DslStmt],
    scope: &mut Scope,
    output: &mut Vec<Stmt>,
    data: &mut DataAllocator,
    return_type: Option<ValueType>,
    fields: &[DslStateField],
    structs: &[DslStruct],
) -> (r: Result<(), ManifestCompileError>)
    ensures
        final(data).extends(old(data)),
        final(scope).grows(old(scope)),
        stmts_extend(final(output)@, old(output)@),
        match spec_map_items_plan(
            *iterable,
            key_binding@,
            value_binding@,
            &*old(scope),
            fields@,
            old(data).dv(),
        ) {
            Err(k) => r matches Err(y) && err_is(y, module@, k),
            Ok(pl) => r is Ok ==> exists|b: Seq<StmtView>|
                stmts_view(final(output)@) == stmts_view(old(output)@) + #[trigger] spec_map_loop(
                    pl.map,
                    pl.key_type,
                    pl.value_type,
                    pl.key_local,
                    pl.key_new,
                    pl.value_local,
                    pl.value_new,
                    pl.first_temp,
                    b,
                ),
        },
    decreases body@, 3int,
{
    let (map_ptr, key_type, value_type) = match resolve_map_items_iterable(module, iterable, scope, fields, data) {
        Ok(x) => x,
        Err(e) => {
            return Err(e);
        },
    };
    assert(*scope == *old(scope));
    let ghost s0 = *scope;
    let ghost mid = *data;
    let (key_idx, key_new) = match ensure_binding_local(module, key_binding, &key_type, scope) {
        Ok(x) => x,
        Err(e) => {
            assert(spec_binding(s0.locals.lookup(key_binding@), key_type@, s0.taken()) is Err);
            return Err(e);
        },
    };
    assert(spec_binding(s0.locals.lookup(key_binding@), key_type@, s0.taken()) == Ok::<(u32, bool), LowerErr>(
        (key_idx, key_new),
    ));
    assert(scope.taken() == s0.taken() + if key_new { 1int } else { 0int });
    let ghost found = if key_new && value_binding@ == key_binding@ {
        Some((key_idx, spec_map_type(key_type@)))
    } else {
        s0.locals.lookup(value_binding@)
    };
    assert(scope.locals.lookup(value_binding@) == found);
    let (value_idx, value_new) = match ensure_binding_local(module, value_binding, &value_type, scope) {
        Ok(x) => x,
        Err(e) => {
            assert(spec_binding(found, value_type@, s0.taken() + if key_new { 1int } else { 0int }) is Err);
            return Err(e);
        },
    };
    assert(spec_binding(found, value_type@, s0.taken() + if key_new { 1int } else { 0int }) == Ok::<
        (u32, bool),
        LowerErr,
    >((value_idx, value_new)));
    let ghost t0 = s0.taken() + (if key_new { 1int } else { 0int }) + (if value_new { 1int } else { 0int });
    assert(scope.taken() == t0);
    let ghost mpv = map_ptr@;
    let ghost ktv = key_type@;
    let ghost vtv = value_type@;
    let ghost out0 = stmts_view(output@);
    assert(spec_resolve_map(*iterable, &*old(scope), fields@, old(data).dv()) == Ok::<
        (ExprView, TypeView, TypeView, DataV),
        LowerErr,
    >((mpv, ktv, vtv, mid.dv())));
    let r = emit_map_loop(
        module,
        function,
        map_ptr,
        &key_type,
        &value_type,
        key_idx,
        key_new,
        value_idx,
        value_new,
        body,
        scope,
        output,
        data,
        return_type,
        fields,
        structs,
    );
    proof {
        DataAllocator::lemma_extends_trans(old(data), &mid, data);
        assert(spec_map_items_plan(*iterable, key_binding@, value_binding@, &*old(scope), fields@, old(data).dv()) == if ktv is Bool {
            Err::<MapPlan, LowerErr>(LowerErr::UnsupportedType(crate::dsl::spec_type_text(ktv)))
        } else if vtv is Bool {
            Err::<MapPlan, LowerErr>(LowerErr::UnsupportedType(crate::dsl::spec_type_text(vtv)))
        } else {
            Ok::<MapPlan, LowerErr>(
                MapPlan {
                    map: mpv,
                    key_type: ktv,
                    value_type: vtv,
                    key_local: key_idx,
                    key_new,
                    value_local: value_idx,
                    value_new,
                    first_temp: t0,
                },
            )
        });
        if r is Ok {
            let b = choose|b: Seq<StmtView>|
                stmts_view(output@) == out0 + #[trigger] spec_map_loop(
                    mpv,
                    ktv,
                    vtv,
                    key_idx,
                    key_new,
                    value_idx,
                    value_new,
                    t0,
                    b,
                );
            assert(stmts_view(output@) == out0 + spec_map_loop(mpv, ktv, vtv, key_idx, key_new, value_idx, value_new, t0, b));
            let pl = spec_map_items_plan(*iterable, key_binding@, value_binding@, &*old(scope), fields@, old(data).dv())->Ok_0;
            assert(pl.map == mpv && pl.key_type == ktv && pl.value_type == vtv && pl.key_local == key_idx
                && pl.key_new == key_new && pl.value_local == value_idx && pl.value_new == value_new
                && pl.first_temp == t0);
            assert(out0 == stmts_view(old(output)@));
            assert(stmts_view(output@) == stmts_view(old(output)@) + spec_map_loop(
                pl.map,
                pl.key_type,
                pl.value_type,
                pl.key_local,
                pl.key_new,
                pl.value_local,
                pl.value_new,
                pl.first_temp,
                b,
            ));
        }
    }
    r
}

/// The statements of a loop over the map entries at `map_ptr`, once its bindings are known,
/// and the lowering of its body.
fn emit_map_loop(
    module: &str,
    function: &str,
    map_ptr: Expr,
    key_type: &DslType,
    value_type: &DslType,
    key_idx: u32,
    key_new: bool,
    value_idx: u32,
    value_new: bool,
    body: &[DslStmt],
    scope: &mut Scope,
    output: &mut Vec<Stmt>,
    data: &mut DataAllocator,
    return_type: Option<ValueType>,
    fields: &[DslStateField],
    structs: &[DslStruct],
) -> (r: Result<(), ManifestCompileError>)
    ensures
        final(data).extends(old(data)),
        final(scope).grows(old(scope)),
        stmts_extend(final(output)@, old(output)@),
        key_type@ is Bool ==> (r matches Err(y) && is_unsupported_type(y, module@, key_type@)),
        !(key_type@ is Bool) && value_type@ is Bool ==> (r matches Err(y) && is_unsupported_type(y, module@, value_type@)),
        r is Ok ==> exists|b: Seq<StmtView>|
            stmts_view(final(output)@) == stmts_view(old(output)@) + #[trigger] spec_map_loop(
                map_ptr@,
                key_type@,
                value_type@,
                key_idx,
                key_new,
                value_idx,
                value_new,
                old(scope).taken(),
                b,
            ),
    decreases body@, 2int,
{
    let ghost out0 = stmts_view(output@);
    let ghost mpv = map_ptr@;
    let map_ptr_idx = add_temp_local(scope, ValueType::I32, "__map_ptr");
    push_stmt(output, Stmt::Let { local: map_ptr_idx, value: map_ptr });
    let count_idx = add_temp_local(scope, ValueType::I32, "__map_count");
    push_stmt(output, Stmt::Let { local: count_idx, value: load_i32(local_i32(map_ptr_idx)) });
    let cursor_idx = add_temp_local(scope, ValueType::I32, "__map_cursor");
    push_stmt(output, Stmt::Let { local: cursor_idx, value: add_i32(local_i32(map_ptr_idx), Expr::ConstI32(4)) });
    let idx_local = add_temp_local(scope, ValueType::I32, "__map_index");
    push_stmt(output, Stmt::Let { local: idx_local, value: Expr::ConstI32(0) });
    assert(stmts_view(output@) =~= out0 + seq![
        v_let(map_ptr_idx, mpv),
        v_let(count_idx, v_load_i32(v_local(map_ptr_idx))),
        v_let(cursor_idx, v_add(v_local(map_ptr_idx), v_i32(4))),
        v_let(idx_local, v_i32(0)),
    ]);
    let key_len_idx = add_temp_local(scope, ValueType::I32, "__map_key_len");
    let value_ptr_idx = add_temp_local(scope, ValueType::I32, "__map_value_ptr");
    let value_len_idx = add_temp_local(scope, ValueType::I32, "__map_value_len");
    let condition = less_i32(local_i32(idx_local), local_i32(count_idx));
    let mut loop_body: Vec<Stmt> = new_stmts();
    push_stmt(&mut loop_body, Stmt::Assign { local: key_len_idx, value: load_i32(local_i32(cursor_idx)) });
    let value_ptr_expr = add_i32(add_i32(local_i32(cursor_idx), Expr::ConstI32(4)), local_i32(key_len_idx));
    push_stmt(&mut loop_body, Stmt::Assign { local: value_ptr_idx, value: value_ptr_expr });
    push_stmt(&mut loop_body, Stmt::Assign { local: value_len_idx, value: load_i32(local_i32(value_ptr_idx)) });
    let key_value = match map_element_expr(module, &key_type, local_i32(cursor_idx)) {
        Ok(e) => e,
        Err(e) => {
            return Err(e);
        },
    };
    let value_value = match map_element_expr(module, &value_type, local_i32(value_ptr_idx)) {
        Ok(e) => e,
        Err(e) => {
            return Err(e);
        },
    };
    let ghost kvv = key_value@;
    let ghost vvv = value_value@;
    if key_new {
        push_stmt(&mut loop_body, Stmt::Let { local: key_idx, value: key_value });
    } else {
        push_stmt(&mut loop_body, Stmt::Assign { local: key_idx, value: key_value });
    }
    if value_new {
        push_stmt(&mut loop_body, Stmt::Let { local: value_idx, value: value_value });
    } else {
        push_stmt(&mut loop_body, Stmt::Assign { local: value_idx, value: value_value });
    }
    let ghost lb0 = loop_body@;
    let ghost head = stmts_view(lb0);
    assert(head =~= seq![
        v_assign(key_len_idx, v_load_i32(v_local(cursor_idx))),
        v_assign(value_ptr_idx, v_add(v_add(v_local(cursor_idx), v_i32(4)), v_local(key_len_idx))),
        v_assign(value_len_idx, v_load_i32(v_local(value_ptr_idx))),
        if key_new { v_let(key_idx, kvv) } else { v_assign(key_idx, kvv) },
        if value_new { v_let(value_idx, vvv) } else { v_assign(value_idx, vvv) },
    ]);
    let ghost d0 = *data;
    let r = lower_body(module, function, body, scope, &mut loop_body, data, return_type, fields, structs);
    proof {
        DataAllocator::lemma_extends_trans(old(data), &d0, data);
    }
    if let Err(e) = r {
        return Err(e);
    }
    let ghost rest = loop_body@.subrange(lb0.len() as int, loop_body@.len() as int);
    proof {
        assert(loop_body@ =~= lb0 + rest);
        lemma_stmts_view_append(lb0, rest);
    }
    let ghost lb1 = stmts_view(loop_body@);
    let ghost cv = condition@;
    let next_cursor = add_i32(add_i32(local_i32(value_ptr_idx), Expr::ConstI32(4)), local_i32(value_len_idx));
    push_stmt(&mut loop_body, Stmt::Assign { local: cursor_idx, value: next_cursor });
    push_stmt(&mut loop_body, Stmt::Assign { local: idx_local, value: add_i32(local_i32(idx_local), Expr::ConstI32(1)) });
    let ghost lbv = stmts_view(loop_body@);
    let w = Stmt::While { condition, body: loop_body };
    assert(w@ == StmtView::While { condition: cv, body: lbv });
    push_stmt(output, w);
    proof {
        let b = stmts_view(rest);
        let t0 = old(scope).taken();
        assert(lbv =~= head + b + seq![
            v_assign(cursor_idx, v_add(v_add(v_local(value_ptr_idx), v_i32(4)), v_local(value_len_idx))),
            v_assign(idx_local, v_add(v_local(idx_local), v_i32(1))),
        ]);
        assert(stmts_view(output@) =~= stmts_view(old(output)@) + spec_map_loop(
            mpv,
            key_type@,
            value_type@,
            key_idx,
            key_new,
            value_idx,
            value_new,
            t0,
            b,
        ));
    }
    Ok(())
}



// ---------------------------------------------------------------------------
// Functions and modules
// ---------------------------------------------------------------------------

/// The machine type of a parameter: that of its declared type, `i32` when it has none.
pub open spec fn spec_param_type(p: DslParam) -> ValueType {
    match p.ty {
        Some(t) => spec_map_type(t@),
        None => ValueType::I32,
    }
}

/// The IR parameters of a DSL function, in order.
fn lower_params(module: &str, params: &[DslParam]) -> (r: Result<Vec<Param>, ManifestCompileError>)
    ensures
        r matches Ok(v) && v@.len() == params@.len() && forall|i: int| 0 <= i < params@.len()
            ==> (#[trigger] v@[i]).name@ == params@[i].name@ && v@[i].ty == spec_param_type(params@[i]),
{
    let mut lowered: Vec<Param> = Vec::new();
    let mut i: usize = 0;
    while i < params.len()
        invariant
            i <= params@.len(),
            lowered@.len() == i,
            forall|k: int| 0 <= k < i ==> (#[trigger] lowered@[k]).name@ == params@[k].name@
                && lowered@[k].ty == spec_param_type(params@[k]),
        decreases params@.len() - i,
    {
        let ty = match &params[i].ty {
            Some(t) => match map_type(module, t) {
                Ok(v) => v,
                Err(e) => {
                    return Err(e);
                },
            },
            None => ValueType::I32,
        };
        lowered.push(Param { name: copy_string(&params[i].name), ty });
        i = i + 1;
    }
    Ok(lowered)
}

/// Lowers a DSL function under the given name. Parameters take the first slots, by
/// position; locals are numbered after the distinct parameter names.
fn lower_function(
    module: &str,
    function: &DslFunction,
    name: &str,
    data: &mut DataAllocator,
    fields: &[DslStateField],
    structs: &[DslStruct],
) -> (r: Result<Function, ManifestCompileError>)
    ensures
        final(data).extends(old(data)),
        r matches Ok(f) ==> {
            &&& f.name@ == name@
            &&& f.params@.len() == function.params@.len()
            &&& forall|i: int| 0 <= i < function.params@.len() ==> (#[trigger] f.params@[i]).name@
                == function.params@[i].name@ && f.params@[i].ty == spec_param_type(function.params@[i])
            &&& f.return_type == match function.return_type {
                Some(t) => Some(spec_map_type(t@)),
                None => None,
            }
            &&& f.body is Block
        },
{
    let params = match lower_params(module, function.params.as_slice()) {
        Ok(p) => p,
        Err(e) => {
            return Err(e);
        },
    };
    let return_type = match &function.return_type {
        Some(t) => match map_type(module, t) {
            Ok(v) => Some(v),
            Err(e) => {
                return Err(e);
            },
        },
        None => None,
    };
    let mut scope = Scope {
        params: NameMap::new(),
        param_count: 0,
        param_types: NameMap::new(),
        locals: NameMap::new(),
        local_types: NameMap::new(),
        local_defs: Vec::new(),
    };
    let mut i: usize = 0;
    while i < params.len()
        invariant
            i <= params@.len(),
            params@.len() == function.params@.len(),
            scope.param_count <= i,
        decreases params@.len() - i,
    {
        if !scope.params.contains(params[i].name.as_str()) {
            scope.param_count = scope.param_count + 1;
        }
        let index = slot(0, i);
        scope.params.insert(copy_string(&params[i].name), (index, params[i].ty));
        if let Some(t) = &function.params[i].ty {
            scope.param_types.insert(copy_string(&function.params[i].name), t.copy());
        }
        i = i + 1;
    }
    let mut body: Vec<Stmt> = Vec::new();
    let r = lower_body(module, name, function.body.as_slice(), &mut scope, &mut body, data, return_type, fields, structs);
    if let Err(e) = r {
        return Err(e);
    }
    Ok(Function {
        name: str_to_string(name),
        params,
        return_type,
        body: FunctionBody::Block { locals: scope.local_defs, body },
    })
}

/// Whether `(module, name)` is listed as an entrypoint.
pub open spec fn spec_is_entry(entrypoints: Seq<(String, String)>, module: Seq<char>, name: Seq<char>) -> bool {
    exists|i: int| 0 <= i < entrypoints.len() && (#[trigger] entrypoints[i]).0@ == module && entrypoints[i].1@ == name
}

/// Whether `(module, name)` is listed as an entrypoint.
fn is_entry(entrypoints: &[(String, String)], module: &str, name: &str) -> (r: bool)
    ensures
        r == spec_is_entry(entrypoints@, module@, name@),
{
    let mut i: usize = 0;
    while i < entrypoints.len()
        invariant
            i <= entrypoints@.len(),
            forall|k: int| 0 <= k < i ==> !((#[trigger] entrypoints@[k]).0@ == module@ && entrypoints@[k].1@ == name@),
        decreases entrypoints@.len() - i,
    {
        if str_eq(entrypoints[i].0.as_str(), module) && str_eq(entrypoints[i].1.as_str(), name) {
            return true;
        }
        i = i + 1;
    }
    false
}

/// The name a lowered function gets: its own for entrypoints, else prefixed with its module.
pub open spec fn spec_lowered_name(entrypoints: Seq<(String, String)>, module: Seq<char>, name: Seq<char>) -> Seq<char> {
    if spec_is_entry(entrypoints, module, name) {
        name
    } else {
        module + seq!['_'] + name
    }
}

/// Lowers every function of a DSL module. Entrypoints keep their names; other functions are
/// named `<module>_<function>`.
pub fn lower_dsl_module(
    module_name: &str,
    module: &DslModule,
    entrypoints: &[(String, String)],
    data_allocator: &mut DataAllocator,
) -> (r: Result<Vec<Function>, ManifestCompileError>)
    ensures
        final(data_allocator).extends(old(data_allocator)),
        r matches Ok(v) ==> v@.len() == module.functions@.len() && forall|i: int| 0 <= i < v@.len()
            ==> (#[trigger] v@[i]).name@ == spec_lowered_name(entrypoints@, module_name@, module.functions@[i].name@),
{
    let mut functions: Vec<Function> = Vec::new();
    let mut i: usize = 0;
    while i < module.functions.len()
        invariant
            i <= module.functions@.len(),
            functions@.len() == i,
            forall|k: int| 0 <= k < i ==> (#[trigger] functions@[k]).name@ == spec_lowered_name(
                entrypoints@,
                module_name@,
                module.functions@[k].name@,
            ),
            data_allocator.extends(old(data_allocator)),
        decreases module.functions@.len() - i,
    {
        let function = &module.functions[i];
        let name = if is_entry(entrypoints, module_name, function.name.as_str()) {
            copy_string(&function.name)
        } else {
            let mut cs = to_chars(module_name);
            cs.push('_');
            let mut rest = to_chars(function.name.as_str());
            cs.append(&mut rest);
            from_chars(cs.as_slice())
        };
        let ghost d0 = *data_allocator;
        let lowered = match lower_function(
            module_name,
            function,
            name.as_str(),
            data_allocator,
            module.state_fields.as_slice(),
            module.structs.as_slice(),
        ) {
            Ok(f) => f,
            Err(e) => {
                proof {
                    DataAllocator::lemma_extends_trans(old(data_allocator), &d0, data_allocator);
                }
                return Err(e);
            },
        };
        proof {
            DataAllocator::lemma_extends_trans(old(data_allocator), &d0, data_allocator);
        }
        functions.push(lowered);
        i = i + 1;
    }
    Ok(functions)
}


// ---------------------------------------------------------------------------
// Manifests
// ---------------------------------------------------------------------------

/// A contract manifest: the contract, its DSL modules and which functions are entrypoints.
#[derive(Debug)]
pub struct Manifest {
    pub contract: String,
    pub version: String,
    pub entrypoint_prefix: Option<String>,
    pub modules: Vec<ManifestModule>,
    pub entrypoints: Vec<ManifestEntrypoint>,
    pub artifacts: Option<ManifestArtifacts>,
}

/// A DSL module of a manifest and the path of its source, relative to the manifest.
#[derive(Debug)]
pub struct ManifestModule {
    pub name: String,
    pub path: String,
}

/// A function of a module that is exported under its own name.
#[derive(Debug)]
pub struct ManifestEntrypoint {
    pub name: String,
    pub module: String,
}

/// The build artifacts a manifest names.
#[derive(Debug)]
pub struct ManifestArtifacts {
    pub wasm: Option<ManifestArtifact>,
}

/// One build artifact: its path and, optionally, its checksum.
#[derive(Debug)]
pub struct ManifestArtifact {
    pub path: String,
    pub checksum: Option<String>,
}

/// What a manifest describes, with paths resolved against the manifest's directory.
#[derive(Debug)]
pub struct ManifestSummary {
    pub contract: String,
    pub version: String,
    pub entrypoint_prefix: Option<String>,
    pub module_paths: Vec<String>,
    pub entrypoints: Vec<String>,
    pub wasm_artifact: Option<String>,
}

/// `Path::parent` of a path given as text, back as text. Path separators depend on the
/// platform, so nothing is stated of the result.
#[verifier::external_body]
fn path_parent(p: &str) -> (r: Option<String>) {
    match std::path::Path::new(p).parent() {
        Some(q) => Some(q.to_string_lossy().into_owned()),
        None => None,
    }
}

/// `Path::join` of two paths given as text, back as text. Path separators depend on the
/// platform, so nothing is stated of the result.
#[verifier::external_body]
fn path_join(base: &str, p: &str) -> (r: String) {
    std::path::Path::new(base).join(p).to_string_lossy().into_owned()
}

/// `module::name` for an entrypoint.
pub open spec fn spec_entry_label(e: ManifestEntrypoint) -> Seq<char> {
    e.module@ + seq![':', ':'] + e.name@
}

/// Resolves the module and artifact paths of a manifest read from `path`, and lists its
/// entrypoints as `module::name`.
pub fn summarize_manifest(path: &str, manifest: &Manifest) -> (r: ManifestSummary)
    ensures
        r.contract@ == manifest.contract@,
        r.version@ == manifest.version@,
        match (r.entrypoint_prefix, manifest.entrypoint_prefix) {
            (Some(a), Some(b)) => a@ == b@,
            (None, None) => true,
            _ => false,
        },
        r.module_paths@.len() == manifest.modules@.len(),
        r.entrypoints@.len() == manifest.entrypoints@.len(),
        forall|i: int| 0 <= i < manifest.entrypoints@.len() ==> (#[trigger] r.entrypoints@[i])@
            == spec_entry_label(manifest.entrypoints@[i]),
        r.wasm_artifact is Some == (manifest.artifacts matches Some(a) && a.wasm is Some),
{
    let base = match path_parent(path) {
        Some(b) => b,
        None => str_to_string("."),
    };
    let mut module_paths: Vec<String> = Vec::new();
    let mut i: usize = 0;
    while i < manifest.modules.len()
        invariant
            i <= manifest.modules@.len(),
            module_paths@.len() == i,
        decreases manifest.modules@.len() - i,
    {
        module_paths.push(path_join(base.as_str(), manifest.modules[i].path.as_str()));
        i = i + 1;
    }
    let mut entrypoints: Vec<String> = Vec::new();
    let mut k: usize = 0;
    while k < manifest.entrypoints.len()
        invariant
            k <= manifest.entrypoints@.len(),
            entrypoints@.len() == k,
            forall|m: int| 0 <= m < k ==> (#[trigger] entrypoints@[m])@ == spec_entry_label(manifest.entrypoints@[m]),
        decreases manifest.entrypoints@.len() - k,
    {
        let e = &manifest.entrypoints[k];
        let mut cs = to_chars(e.module.as_str());
        cs.push(':');
        cs.push(':');
        let mut rest = to_chars(e.name.as_str());
        cs.append(&mut rest);
        entrypoints.push(from_chars(cs.as_slice()));
        k = k + 1;
    }
    let wasm_artifact = match &manifest.artifacts {
        Some(a) => match &a.wasm {
            Some(w) => Some(path_join(base.as_str(), w.path.as_str())),
            None => None,
        },
        None => None,
    };
    ManifestSummary {
        contract: copy_string(&manifest.contract),
        version: copy_string(&manifest.version),
        entrypoint_prefix: match &manifest.entrypoint_prefix {
            Some(p) => Some(copy_string(p)),
            None => None,
        },
        module_paths,
        entrypoints,
        wasm_artifact,
    }
}

/// Whether the trimmed line starts with `key`.
pub open spec fn spec_line_has_key(line: Seq<char>, key: Seq<char>) -> bool {
    spec_starts_with(spec_trim(line), key)
}

/// Whether one of the first forty lines, trimmed, starts with `key`.
pub open spec fn spec_head_has_key(source: Seq<char>, key: Seq<char>) -> bool {
    let ls = spec_lines(source);
    exists|i: int| 0 <= i < ls.len() && i < 40 && spec_line_has_key(#[trigger] ls[i], key)
}

/// `contract:`
pub open spec fn key_contract() -> Seq<char> {
    seq!['c', 'o', 'n', 't', 'r', 'a', 'c', 't', ':']
}

/// `version:`
pub open spec fn key_version() -> Seq<char> {
    seq!['v', 'e', 'r', 's', 'i', 'o', 'n', ':']
}

/// Whether a source looks like a manifest: among its first forty lines, one starts with
/// `contract:` and one with `version:` (leading white space aside).
pub fn looks_like_manifest(source: &str) -> (r: bool)
    ensures
        r == (spec_head_has_key(source@, key_contract()) && spec_head_has_key(source@, key_version())),
{
    let chars = to_chars(source);
    let ls = lines(chars.as_slice());
    let ghost lv = ls@.map_values(|l: Vec<char>| l@);
    assert(lv == spec_lines(source@));
    let w_contract: Vec<char> = vec!['c', 'o', 'n', 't', 'r', 'a', 'c', 't', ':'];
    let w_version: Vec<char> = vec!['v', 'e', 'r', 's', 'i', 'o', 'n', ':'];
    let mut found_contract = false;
    let mut found_version = false;
    let mut i: usize = 0;
    while i < ls.len() && i < 40
        invariant
            i <= ls@.len(),
            i <= 40,
            lv == ls@.map_values(|l: Vec<char>| l@),
            lv == spec_lines(source@),
            w_contract@ == key_contract(),
            w_version@ == key_version(),
            found_contract == exists|k: int| 0 <= k < i && spec_line_has_key(#[trigger] lv[k], key_contract()),
            found_version == exists|k: int| 0 <= k < i && spec_line_has_key(#[trigger] lv[k], key_version()),
            !(found_contract && found_version),
        decreases ls@.len() - i,
    {
        let trimmed = trim(ls[i].as_slice());
        assert(lv[i as int] == ls@[i as int]@);
        if starts_with(trimmed.as_slice(), w_contract.as_slice()) {
            found_contract = true;
        }
        if starts_with(trimmed.as_slice(), w_version.as_slice()) {
            found_version = true;
        }
        i = i + 1;
        if found_contract && found_version {
            return true;
        }
    }
    proof {
        assert(lv.len() == ls@.len());
    }
    false
}

/// The error for a module whose source does not parse.
fn module_parse_error(module: &str, err: &crate::dsl::DslParseError) -> (r: ManifestCompileError)
    ensures
        r matches ManifestCompileError::InvalidSignature { module: m, signature: s, .. } && m@ == module@
            && s@ == module@,
{
    ManifestCompileError::InvalidSignature {
        module: str_to_string(module),
        signature: str_to_string(module),
        reason: crate::dsl::error_text(err),
    }
}

/// The position of the last module of the manifest named `name`.
fn last_module(modules: &[ManifestModule], name: &str) -> (r: Option<usize>)
    ensures
        match r {
            Some(k) => k < modules@.len() && modules@[k as int].name@ == name@ && forall|q: int|
                k < q < modules@.len() ==> (#[trigger] modules@[q]).name@ != name@,
            None => forall|k: int| 0 <= k < modules@.len() ==> (#[trigger] modules@[k]).name@ != name@,
        },
{
    let mut i: usize = modules.len();
    while i > 0
        invariant
            i <= modules@.len(),
            forall|k: int| i <= k < modules@.len() ==> (#[trigger] modules@[k]).name@ != name@,
        decreases i,
    {
        if str_eq(modules[i - 1].name.as_str(), name) {
            return Some(i - 1);
        }
        i = i - 1;
    }
    None
}

/// Whether some function of the lowered module list is named `name` in the source.
fn has_function(names: &Vec<String>, name: &str) -> (r: bool)
    ensures
        r == exists|k: int| 0 <= k < names@.len() && (#[trigger] names@[k])@ == name@,
{
    let mut i: usize = 0;
    while i < names.len()
        invariant
            i <= names@.len(),
            forall|k: int| 0 <= k < i ==> (#[trigger] names@[k])@ != name@,
        decreases names@.len() - i,
    {
        if str_eq(names[i].as_str(), name) {
            return true;
        }
        i = i + 1;
    }
    false
}

/// Whether the manifest lists a module named `name`.
pub open spec fn spec_module_listed(manifest: &Manifest, name: Seq<char>) -> bool {
    exists|k: int| 0 <= k < manifest.modules@.len() && (#[trigger] manifest.modules@[k]).name@ == name
}

/// Whether entrypoint `e` names a module of the manifest (position `k`) whose source parses
/// to a module with a function of the entrypoint's name.
pub open spec fn spec_entry_resolves(manifest: &Manifest, sources: Seq<String>, e: ManifestEntrypoint) -> bool {
    exists|k: int|
        0 <= k < manifest.modules@.len() && (#[trigger] manifest.modules@[k]).name@ == e.module@ && (
        crate::dsl::spec_parse_module(sources[k]@) matches Some(m) && exists|j: int|
            0 <= j < m.functions.len() && (#[trigger] m.functions[j]).name == e.name@)
}

/// Whether entrypoint `e` names a module of the manifest whose last listing (position `k`)
/// has a source that parses to a module with a function of the entrypoint's name.
pub open spec fn spec_entry_found(manifest: &Manifest, sources: Seq<String>, e: ManifestEntrypoint) -> bool {
    exists|k: int|
        0 <= k < manifest.modules@.len() && (#[trigger] manifest.modules@[k]).name@ == e.module@ && (forall|q: int|
            k < q < manifest.modules@.len() ==> (#[trigger] manifest.modules@[q]).name@ != e.module@) && (
        crate::dsl::spec_parse_module(sources[k]@) matches Some(m) && exists|j: int|
            0 <= j < m.functions.len() && (#[trigger] m.functions[j]).name == e.name@)
}

/// An entrypoint whose module's last listing `k` has no function of its name is not found.
proof fn lemma_entry_not_found(
    manifest: &Manifest,
    sources: Seq<String>,
    names: Seq<Vec<String>>,
    entry: ManifestEntrypoint,
    k: int,
)
    requires
        sources.len() == manifest.modules@.len(),
        names.len() == manifest.modules@.len(),
        forall|q: int| 0 <= q < manifest.modules@.len() ==> (crate::dsl::spec_parse_module(#[trigger] sources[q]@) matches Some(pm)
            && names[q]@.len() == pm.functions.len() && forall|j: int|
            0 <= j < pm.functions.len() ==> (#[trigger] names[q]@[j])@ == pm.functions[j].name),
        0 <= k < manifest.modules@.len(),
        manifest.modules@[k].name@ == entry.module@,
        forall|q: int| k < q < manifest.modules@.len() ==> (#[trigger] manifest.modules@[q]).name@ != entry.module@,
        !exists|j: int| 0 <= j < names[k]@.len() && (#[trigger] names[k]@[j])@ == entry.name@,
    ensures
        !spec_entry_found(manifest, sources, entry),
{
    if spec_entry_found(manifest, sources, entry) {
        let k2 = choose|k2: int|
            0 <= k2 < manifest.modules@.len() && (#[trigger] manifest.modules@[k2]).name@ == entry.module@ && (forall|q: int|
                k2 < q < manifest.modules@.len() ==> (#[trigger] manifest.modules@[q]).name@ != entry.module@) && (
            crate::dsl::spec_parse_module(sources[k2]@) matches Some(m) && exists|j: int|
                0 <= j < m.functions.len() && (#[trigger] m.functions[j]).name == entry.name@);
        if k2 < k {
            assert(manifest.modules@[k].name@ != entry.module@);
        } else if k2 > k {
            assert(manifest.modules@[k2].name@ != entry.module@);
        }
        let pm = crate::dsl::spec_parse_module(sources[k]@)->Some_0;
        let j = choose|j: int| 0 <= j < pm.functions.len() && (#[trigger] pm.functions[j]).name == entry.name@;
        assert((names[k]@[j])@ == entry.name@);
    }
}

/// An entrypoint that is found names a listed module, and resolves.
proof fn lemma_found_resolves(manifest: &Manifest, sources: Seq<String>, e: ManifestEntrypoint)
    requires
        spec_entry_found(manifest, sources, e),
    ensures
        spec_module_listed(manifest, e.module@),
        spec_entry_resolves(manifest, sources, e),
{
    let k = choose|k: int|
        0 <= k < manifest.modules@.len() && (#[trigger] manifest.modules@[k]).name@ == e.module@ && (forall|q: int|
            k < q < manifest.modules@.len() ==> (#[trigger] manifest.modules@[q]).name@ != e.module@) && (
        crate::dsl::spec_parse_module(sources[k]@) matches Some(m) && exists|j: int|
            0 <= j < m.functions.len() && (#[trigger] m.functions[j]).name == e.name@);
    assert(manifest.modules@[k].name@ == e.module@);
}

/// When every entrypoint is found, every one names a listed module and resolves.
#[verifier::rlimit(50)]
proof fn lemma_all_found_resolve(manifest: &Manifest, sources: Seq<String>)
    requires
        forall|i: int| 0 <= i < manifest.entrypoints@.len() ==> #[trigger] spec_entry_found(manifest, sources, manifest.entrypoints@[i]),
    ensures
        forall|i: int| 0 <= i < manifest.entrypoints@.len() ==> #[trigger] spec_module_listed(manifest, manifest.entrypoints@[i].module@),
        forall|i: int| 0 <= i < manifest.entrypoints@.len() ==> #[trigger] spec_entry_resolves(manifest, sources, manifest.entrypoints@[i]),
{
    assert forall|i: int| 0 <= i < manifest.entrypoints@.len() implies #[trigger] spec_module_listed(
        manifest,
        manifest.entrypoints@[i].module@,
    ) by {
        lemma_found_resolves(manifest, sources, manifest.entrypoints@[i]);
    }
    assert forall|i: int| 0 <= i < manifest.entrypoints@.len() implies #[trigger] spec_entry_resolves(
        manifest,
        sources,
        manifest.entrypoints@[i],
    ) by {
        lemma_found_resolves(manifest, sources, manifest.entrypoints@[i]);
    }
}

/// Checks one entrypoint: its module's last listing must have a function of its name.
#[verifier::rlimit(40)]
fn check_entry(manifest: &Manifest, sources: &[String], names: &Vec<Vec<String>>, e: usize) -> (r: Result<
    (),
    ManifestCompileError,
>)
    requires
        e < manifest.entrypoints@.len(),
        sources@.len() == manifest.modules@.len(),
        names@.len() == manifest.modules@.len(),
        forall|q: int| 0 <= q < manifest.modules@.len() ==> (crate::dsl::spec_parse_module(#[trigger] sources@[q]@) matches Some(pm)
            && names@[q]@.len() == pm.functions.len() && forall|j: int|
            0 <= j < pm.functions.len() ==> (#[trigger] names@[q]@[j])@ == pm.functions[j].name),
    ensures
        r is Ok <==> spec_entry_found(manifest, sources@, manifest.entrypoints@[e as int]),
        r is Err ==> r matches Err(ManifestCompileError::MissingModule { .. }) || r matches Err(ManifestCompileError::MissingEntrypoint { .. }),
        r matches Err(ManifestCompileError::MissingModule { module }) ==> manifest.entrypoints@[e as int].module@ == module@
            && !spec_module_listed(manifest, module@),
        r matches Err(ManifestCompileError::MissingEntrypoint { module, entrypoint }) ==> manifest.entrypoints@[e as int].module@
            == module@ && manifest.entrypoints@[e as int].name@ == entrypoint@ && spec_module_listed(manifest, module@),
{
    let entry = &manifest.entrypoints[e];
    let k = match last_module(manifest.modules.as_slice(), entry.module.as_str()) {
        Some(k) => k,
        None => {
            assert(!spec_module_listed(manifest, entry.module@));
            assert(!spec_entry_found(manifest, sources@, *entry));
            return Err(ManifestCompileError::MissingModule { module: copy_string(&entry.module) });
        },
    };
    assert(spec_module_listed(manifest, entry.module@)) by {
        assert(manifest.modules@[k as int].name@ == entry.module@);
    }
    if !has_function(&names[k], entry.name.as_str()) {
        proof {
            lemma_entry_not_found(manifest, sources@, names@, *entry, k as int);
        }
        return Err(ManifestCompileError::MissingEntrypoint {
            module: copy_string(&entry.module),
            entrypoint: copy_string(&entry.name),
        });
    }
    proof {
        let pm = crate::dsl::spec_parse_module(sources@[k as int]@)->Some_0;
        let j = choose|j: int| 0 <= j < names@[k as int]@.len() && (#[trigger] names@[k as int]@[j])@ == entry.name@;
        assert(pm.functions[j].name == entry.name@);
        assert(spec_entry_found(manifest, sources@, manifest.entrypoints@[e as int]));
    }
    Ok(())
}

/// Checks that every entrypoint names a module of the manifest and a function of that module
/// (its last listing), given the function names of each module's source. Fails on the first
/// entrypoint that does not.
#[verifier::spinoff_prover]
#[verifier::rlimit(100)]
fn check_entrypoints(manifest: &Manifest, sources: &[String], names: &Vec<Vec<String>>) -> (r: Result<
    (),
    ManifestCompileError,
>)
    requires
        sources@.len() == manifest.modules@.len(),
        names@.len() == manifest.modules@.len(),
        forall|q: int| 0 <= q < manifest.modules@.len() ==> (crate::dsl::spec_parse_module(#[trigger] sources@[q]@) matches Some(pm)
            && names@[q]@.len() == pm.functions.len() && forall|j: int|
            0 <= j < pm.functions.len() ==> (#[trigger] names@[q]@[j])@ == pm.functions[j].name),
    ensures
        r is Ok ==> forall|i: int| 0 <= i < manifest.entrypoints@.len() ==> #[trigger] spec_module_listed(manifest, manifest.entrypoints@[i].module@),
        r is Ok ==> forall|i: int| 0 <= i < manifest.entrypoints@.len() ==> #[trigger] spec_entry_resolves(manifest, sources@, manifest.entrypoints@[i]),
        r is Ok <==> forall|i: int| 0 <= i < manifest.entrypoints@.len() ==> #[trigger] spec_entry_found(manifest, sources@, manifest.entrypoints@[i]),
        r is Err ==> r matches Err(ManifestCompileError::MissingModule { .. }) || r matches Err(ManifestCompileError::MissingEntrypoint { .. }),
        r matches Err(ManifestCompileError::MissingModule { module }) ==> exists|e: int|
            0 <= e < manifest.entrypoints@.len() && (#[trigger] manifest.entrypoints@[e]).module@ == module@
                && !spec_module_listed(manifest, module@) && forall|q: int|
                0 <= q < e ==> spec_entry_found(manifest, sources@, #[trigger] manifest.entrypoints@[q]),
        r matches Err(ManifestCompileError::MissingEntrypoint { module, entrypoint }) ==> exists|e: int|
            0 <= e < manifest.entrypoints@.len() && (#[trigger] manifest.entrypoints@[e]).module@ == module@
                && manifest.entrypoints@[e].name@ == entrypoint@ && spec_module_listed(manifest, module@)
                && !spec_entry_found(manifest, sources@, manifest.entrypoints@[e]) && forall|q: int|
                0 <= q < e ==> spec_entry_found(manifest, sources@, #[trigger] manifest.entrypoints@[q]),
{
    let mut e: usize = 0;
    while e < manifest.entrypoints.len()
        invariant
            e <= manifest.entrypoints@.len(),
            names@.len() == manifest.modules@.len(),
            sources@.len() == manifest.modules@.len(),
            forall|m: int| 0 <= m < e ==> #[trigger] spec_entry_found(manifest, sources@, manifest.entrypoints@[m]),
            forall|q: int| 0 <= q < manifest.modules@.len() ==> (crate::dsl::spec_parse_module(#[trigger] sources@[q]@) matches Some(pm)
                && names@[q]@.len() == pm.functions.len() && forall|j: int|
                0 <= j < pm.functions.len() ==> (#[trigger] names@[q]@[j])@ == pm.functions[j].name),
        decreases manifest.entrypoints@.len() - e,
    {
        match check_entry(manifest, sources, names, e) {
            Ok(()) => {},
            Err(err) => {
                assert(!spec_entry_found(manifest, sources@, manifest.entrypoints@[e as int]));
                return Err(err);
            },
        }
        e = e + 1;
    }
    proof {
        lemma_all_found_resolve(manifest, sources@);
    }
    Ok(())
}

/// Lowers the modules of a manifest, given the source text of each module in manifest
/// order, into one contract named by the entrypoint prefix (or the contract name). Every
/// entrypoint must name a module of the manifest and a function of that module.
#[verifier::spinoff_prover]
#[verifier::rlimit(100)]
pub fn compile_manifest(manifest: &Manifest, sources: &[String]) -> (r: Result<Module, ManifestCompileError>)
    requires
        sources@.len() == manifest.modules@.len(),
    ensures
        r matches Ok(m) ==> {
            &&& m.contracts@.len() == 1
            &&& m.functions@.len() == 0
            &&& m.contracts@[0].params@.len() == 0
            &&& m.contracts@[0].storage@.len() == 0
            &&& m.contracts@[0].name@ == match manifest.entrypoint_prefix {
                Some(p) => p@,
                None => manifest.contract@,
            }
            &&& forall|i: int| 0 <= i < manifest.entrypoints@.len() ==> #[trigger] spec_module_listed(manifest, manifest.entrypoints@[i].module@)
            &&& forall|i: int| 0 <= i < manifest.entrypoints@.len() ==> #[trigger] spec_entry_resolves(manifest, sources@, manifest.entrypoints@[i])
            &&& forall|i: int| 0 <= i < manifest.entrypoints@.len() ==> #[trigger] spec_entry_found(manifest, sources@, manifest.entrypoints@[i])
        },
{
    let mut entrypoints: Vec<(String, String)> = Vec::new();
    let mut e: usize = 0;
    while e < manifest.entrypoints.len()
        invariant
            e <= manifest.entrypoints@.len(),
        decreases manifest.entrypoints@.len() - e,
    {
        entrypoints.push((copy_string(&manifest.entrypoints[e].module), copy_string(&manifest.entrypoints[e].name)));
        e = e + 1;
    }
    let mut data = DataAllocator::new();
    let mut lowered: Vec<Vec<Function>> = Vec::new();
    let mut names: Vec<Vec<String>> = Vec::new();
    let mut i: usize = 0;
    while i < manifest.modules.len()
        invariant
            i <= manifest.modules@.len(),
            sources@.len() == manifest.modules@.len(),
            lowered@.len() == i,
            names@.len() == i,
            forall|q: int| 0 <= q < i ==> (crate::dsl::spec_parse_module(#[trigger] sources@[q]@) matches Some(m) && names@[q]@.len()
                == m.functions.len() && forall|j: int| 0 <= j < m.functions.len() ==> (#[trigger] names@[q]@[j])@
                == m.functions[j].name),
        decreases manifest.modules@.len() - i,
    {
        let module = &manifest.modules[i];
        let parsed = match crate::dsl::parse_module(sources[i].as_str()) {
            Ok(p) => p,
            Err(err) => {
                return Err(module_parse_error(module.name.as_str(), &err));
            },
        };
        let mut fnames: Vec<String> = Vec::new();
        let mut k: usize = 0;
        while k < parsed.functions.len()
            invariant
                k <= parsed.functions@.len(),
                fnames@.len() == k,
                forall|j: int| 0 <= j < k ==> (#[trigger] fnames@[j])@ == parsed.functions@[j].name@,
            decreases parsed.functions@.len() - k,
        {
            fnames.push(copy_string(&parsed.functions[k].name));
            k = k + 1;
        }
        let functions = match lower_dsl_module(module.name.as_str(), &parsed, entrypoints.as_slice(), &mut data) {
            Ok(f) => f,
            Err(err) => {
                return Err(err);
            },
        };
        proof {
            let m = crate::dsl::spec_parse_module(sources@[i as int]@)->Some_0;
            assert(m == parsed@);
            assert forall|j: int| 0 <= j < m.functions.len() implies (#[trigger] fnames@[j])@ == m.functions[j].name by {
                assert(m.functions[j] == parsed.functions@[j]@);
            }
        }
        let ghost names_before = names@;
        lowered.push(functions);
        names.push(fnames);
        proof {
            assert forall|q: int| 0 <= q < i + 1 implies (crate::dsl::spec_parse_module(#[trigger] sources@[q]@) matches Some(m)
                && names@[q]@.len() == m.functions.len() && forall|j: int|
                0 <= j < m.functions.len() ==> (#[trigger] names@[q]@[j])@ == m.functions[j].name) by {
                if q < i {
                    assert(names@[q] == names_before[q]);
                }
            }
        }
        i = i + 1;
    }
    match check_entrypoints(manifest, sources, &names) {
        Ok(()) => {},
        Err(err) => {
            return Err(err);
        },
    }
    let mut functions: Vec<Function> = Vec::new();
    let mut i: usize = 0;
    while i < manifest.modules.len()
        invariant
            i <= manifest.modules@.len(),
            lowered@.len() == manifest.modules@.len(),
            forall|m: int| 0 <= m < manifest.entrypoints@.len() ==> #[trigger] spec_module_listed(manifest, manifest.entrypoints@[m].module@),
            forall|m: int| 0 <= m < manifest.entrypoints@.len() ==> #[trigger] spec_entry_resolves(manifest, sources@, manifest.entrypoints@[m]),
            forall|m: int| 0 <= m < manifest.entrypoints@.len() ==> #[trigger] spec_entry_found(manifest, sources@, manifest.entrypoints@[m]),
        decreases manifest.modules@.len() - i,
    {
        let k = match last_module(manifest.modules.as_slice(), manifest.modules[i].name.as_str()) {
            Some(k) => k,
            None => {
                return Err(ManifestCompileError::MissingModule { module: copy_string(&manifest.modules[i].name) });
            },
        };
        let mut f: usize = 0;
        while f < lowered[k].len()
            invariant
                f <= lowered@[k as int]@.len(),
                k < lowered@.len(),
            decreases lowered@[k as int]@.len() - f,
        {
            functions.push(lowered[k][f].copy());
            f = f + 1;
        }
        i = i + 1;
    }
    let contract_name = match &manifest.entrypoint_prefix {
        Some(p) => copy_string(p),
        None => copy_string(&manifest.contract),
    };
    let contract = Contract { name: contract_name, params: Vec::new(), storage: Vec::new(), functions };
    let mut contracts: Vec<Contract> = Vec::new();
    contracts.push(contract);
    Ok(Module { contracts, functions: Vec::new(), data_segments: data.finish() })
}

} // verus!
