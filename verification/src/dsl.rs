//! Parser for the YAML-style pysub DSL used in Blox contracts.
//!
//! This parser is intentionally strict and line-oriented. It focuses on
//! module-level sections plus function bodies with indentation-sensitive blocks.

use vstd::prelude::*;
use crate::text::{
    ends_with, find_char, find_str, rfind_char, contains_char, lines, starts_with, trim_end, trim_start,
    trim_start_matches, spec_trim_end,
    is_alpha, is_digit, is_hex, is_ws, spec_is_ws, spec_is_alpha, spec_is_digit, spec_is_hex, message,
    chars_eq, copy_range, decimal, from_chars, spec_decimal, spec_lower, spec_parse_u16,
    spec_starts_with, spec_trim, spec_trim_end_matches, strip_prefix, str_to_string, to_ascii_lowercase,
    to_chars, trim, trim_end_matches, parse_u16, lemma_trim_len, lemma_trim_end_matches_len,
    spec_ends_with, spec_find, spec_rfind, spec_lines, spec_trim_start, spec_trim_start_matches,
};

verus! {

/// A parsed DSL module.
#[derive(Debug)]
pub struct DslModule {
    pub name: String,
    pub state_fields: Vec<DslStateField>,
    pub structs: Vec<DslStruct>,
    pub functions: Vec<DslFunction>,
}

/// A struct declaration.
#[derive(Debug)]
pub struct DslStruct {
    pub name: String,
    pub fields: Vec<DslStructField>,
}

/// A field of a struct declaration.
#[derive(Debug)]
pub struct DslStructField {
    pub name: String,
    pub ty: DslType,
}

/// A persistent state entry of a module.
#[derive(Debug)]
pub struct DslStateField {
    pub name: String,
    pub ty: DslType,
}

/// A function of a module.
#[derive(Debug)]
pub struct DslFunction {
    pub name: String,
    pub params: Vec<DslParam>,
    pub return_type: Option<DslType>,
    pub body: Vec<DslStmt>,
}

/// A statement of a function body.
#[derive(Debug)]
pub enum DslStmt {
    Let { name: String, ty: Option<DslType>, value: DslExpr },
    Assign { target: DslExpr, value: DslExpr },
    If { branches: Vec<DslIfBranch>, else_branch: Option<Vec<DslStmt>> },
    While { condition: DslExpr, body: Vec<DslStmt> },
    For { binding: String, iterable: DslExpr, body: Vec<DslStmt> },
    Return(Option<DslExpr>),
    Raise(DslExpr),
    Break,
    Continue,
    Pass,
    Expr(DslExpr),
}

/// One `if`/`elif` branch.
#[derive(Debug)]
pub struct DslIfBranch {
    pub condition: DslExpr,
    pub body: Vec<DslStmt>,
}

/// Expressions.
#[derive(Debug)]
pub enum DslExpr {
    Identifier(String),
    Literal(DslLiteral),
    ListLiteral(Vec<DslExpr>),
    MapLiteral(Vec<(DslExpr, DslExpr)>),
    Binary { left: Box<DslExpr>, op: DslBinaryOp, right: Box<DslExpr> },
    Unary { op: DslUnaryOp, expr: Box<DslExpr> },
    Call { callee: Box<DslExpr>, args: Vec<DslCallArg> },
    Index { target: Box<DslExpr>, index: Box<DslExpr> },
    Attribute { target: Box<DslExpr>, attribute: String },
}

/// Literal values.
#[derive(Debug)]
pub enum DslLiteral {
    Bool(bool),
    Number(String),
    Bytes(Vec<u8>),
    String(String),
    Null,
}

/// A call argument, positional or `name=value`.
#[derive(Debug)]
pub enum DslCallArg {
    Positional(DslExpr),
    Named { name: String, value: DslExpr },
}

/// Binary operators.
#[derive(Debug, Clone, Copy, PartialEq, Eq, Structural)]
pub enum DslBinaryOp {
    LogicalOr,
    LogicalAnd,
    Equal,
    NotEqual,
    Less,
    LessEqual,
    Greater,
    GreaterEqual,
    Add,
    Sub,
    Mul,
    Div,
    Mod,
}

/// The integer a DSL binary operator computes from two integer operands: the arithmetic
/// result, or 1 when a comparison or a logical operator (on nonzero as true) holds and 0 when
/// it fails.
pub open spec fn spec_dsl_binary_value(op: DslBinaryOp, a: int, b: int) -> int {
    match op {
        DslBinaryOp::LogicalOr => if a != 0 || b != 0 { 1 } else { 0 },
        DslBinaryOp::LogicalAnd => if a != 0 && b != 0 { 1 } else { 0 },
        DslBinaryOp::Equal => if a == b { 1 } else { 0 },
        DslBinaryOp::NotEqual => if a != b { 1 } else { 0 },
        DslBinaryOp::Less => if a < b { 1 } else { 0 },
        DslBinaryOp::LessEqual => if a <= b { 1 } else { 0 },
        DslBinaryOp::Greater => if a > b { 1 } else { 0 },
        DslBinaryOp::GreaterEqual => if a >= b { 1 } else { 0 },
        DslBinaryOp::Add => a + b,
        DslBinaryOp::Sub => a - b,
        DslBinaryOp::Mul => a * b,
        DslBinaryOp::Div => a / b,
        DslBinaryOp::Mod => a % b,
    }
}

/// Unary operators.
#[derive(Debug, Clone, Copy, PartialEq, Eq, Structural)]
pub enum DslUnaryOp {
    Neg,
    Not,
}

/// A function parameter; its type may be omitted.
#[derive(Debug)]
pub struct DslParam {
    pub name: String,
    pub ty: Option<DslType>,
}

/// DSL types.
#[derive(Debug)]
pub enum DslType {
    Bool,
    Bytes,
    String,
    Address,
    Uint { bits: u16 },
    Int { bits: u16 },
    Optional(Box<DslType>),
    List(Box<DslType>),
    Mapping { key: Box<DslType>, value: Box<DslType> },
    Any,
    Custom(String),
}

/// The mathematical value of a DSL type.
pub ghost enum TypeView {
    Bool,
    Bytes,
    String,
    Address,
    Uint(u16),
    Int(u16),
    Optional(Box<TypeView>),
    List(Box<TypeView>),
    Mapping(Box<TypeView>, Box<TypeView>),
    Any,
    Custom(Seq<char>),
}

impl DslType {
    /// The value of this type, with names taken as characters.
    pub open spec fn view_type(&self) -> TypeView
        decreases self,
    {
        match self {
            DslType::Bool => TypeView::Bool,
            DslType::Bytes => TypeView::Bytes,
            DslType::String => TypeView::String,
            DslType::Address => TypeView::Address,
            DslType::Uint { bits } => TypeView::Uint(*bits),
            DslType::Int { bits } => TypeView::Int(*bits),
            DslType::Optional(inner) => TypeView::Optional(Box::new(inner.view_type())),
            DslType::List(inner) => TypeView::List(Box::new(inner.view_type())),
            DslType::Mapping { key, value } => TypeView::Mapping(
                Box::new(key.view_type()),
                Box::new(value.view_type()),
            ),
            DslType::Any => TypeView::Any,
            DslType::Custom(name) => TypeView::Custom(name@),
        }
    }
}

impl View for DslType {
    type V = TypeView;

    open spec fn view(&self) -> TypeView {
        self.view_type()
    }
}

/// The printed form of a type, as its `Display` shows it.
pub open spec fn spec_type_text(t: TypeView) -> Seq<char>
    decreases t,
{
    match t {
        TypeView::Bool => seq!['b', 'o', 'o', 'l'],
        TypeView::Bytes => seq!['b', 'y', 't', 'e', 's'],
        TypeView::String => seq!['s', 't', 'r', 'i', 'n', 'g'],
        TypeView::Address => seq!['a', 'd', 'd', 'r', 'e', 's', 's'],
        TypeView::Uint(bits) => seq!['u', 'i', 'n', 't'] + spec_decimal(bits as nat),
        TypeView::Int(bits) => seq!['i', 'n', 't'] + spec_decimal(bits as nat),
        TypeView::Optional(inner) => seq!['o', 'p', 't', 'i', 'o', 'n', 'a', 'l', '<']
            + spec_type_text(*inner) + seq!['>'],
        TypeView::List(inner) => seq!['l', 'i', 's', 't', '<'] + spec_type_text(*inner) + seq!['>'],
        TypeView::Mapping(key, value) => seq!['m', 'a', 'p', '<'] + spec_type_text(*key) + seq![',', ' ']
            + spec_type_text(*value) + seq!['>'],
        TypeView::Any => seq!['a', 'n', 'y'],
        TypeView::Custom(name) => name,
    }
}

impl DslType {
    /// A copy of this type.
    pub fn copy(&self) -> (r: DslType)
        ensures
            r@ == self@,
        decreases self,
    {
        match self {
            DslType::Bool => DslType::Bool,
            DslType::Bytes => DslType::Bytes,
            DslType::String => DslType::String,
            DslType::Address => DslType::Address,
            DslType::Uint { bits } => DslType::Uint { bits: *bits },
            DslType::Int { bits } => DslType::Int { bits: *bits },
            DslType::Optional(inner) => DslType::Optional(Box::new(inner.copy())),
            DslType::List(inner) => DslType::List(Box::new(inner.copy())),
            DslType::Mapping { key, value } => DslType::Mapping {
                key: Box::new(key.copy()),
                value: Box::new(value.copy()),
            },
            DslType::Any => DslType::Any,
            DslType::Custom(name) => DslType::Custom(name.clone()),
        }
    }

    /// Whether two types are the same.
    pub fn same(&self, other: &DslType) -> (r: bool)
        ensures
            r == (self@ == other@),
        decreases self,
    {
        match (self, other) {
            (DslType::Bool, DslType::Bool) => true,
            (DslType::Bytes, DslType::Bytes) => true,
            (DslType::String, DslType::String) => true,
            (DslType::Address, DslType::Address) => true,
            (DslType::Uint { bits: a }, DslType::Uint { bits: b }) => *a == *b,
            (DslType::Int { bits: a }, DslType::Int { bits: b }) => *a == *b,
            (DslType::Optional(a), DslType::Optional(b)) => a.same(b),
            (DslType::List(a), DslType::List(b)) => a.same(b),
            (DslType::Mapping { key: ka, value: va }, DslType::Mapping { key: kb, value: vb }) => {
                ka.same(kb) && va.same(vb)
            },
            (DslType::Any, DslType::Any) => true,
            (DslType::Custom(a), DslType::Custom(b)) => {
                let ca = to_chars(a.as_str());
                let cb = to_chars(b.as_str());
                chars_eq(ca.as_slice(), cb.as_slice())
            },
            _ => false,
        }
    }

    /// The printed form of the type: `bool`, `uint64`, `optional<list<bytes>>`, `map<k, v>`, ...
    pub fn type_text(&self) -> (r: Vec<char>)
        ensures
            r@ == spec_type_text(self@),
        decreases self,
    {
        match self {
            DslType::Bool => vec!['b', 'o', 'o', 'l'],
            DslType::Bytes => vec!['b', 'y', 't', 'e', 's'],
            DslType::String => vec!['s', 't', 'r', 'i', 'n', 'g'],
            DslType::Address => vec!['a', 'd', 'd', 'r', 'e', 's', 's'],
            DslType::Uint { bits } => {
                let mut r = vec!['u', 'i', 'n', 't'];
                let mut d = decimal(*bits as usize);
                r.append(&mut d);
                r
            },
            DslType::Int { bits } => {
                let mut r = vec!['i', 'n', 't'];
                let mut d = decimal(*bits as usize);
                r.append(&mut d);
                r
            },
            DslType::Optional(inner) => {
                let mut r = vec!['o', 'p', 't', 'i', 'o', 'n', 'a', 'l', '<'];
                let mut i = inner.type_text();
                r.append(&mut i);
                r.push('>');
                r
            },
            DslType::List(inner) => {
                let mut r = vec!['l', 'i', 's', 't', '<'];
                let mut i = inner.type_text();
                r.append(&mut i);
                r.push('>');
                r
            },
            DslType::Mapping { key, value } => {
                let mut r = vec!['m', 'a', 'p', '<'];
                let mut k = key.type_text();
                r.append(&mut k);
                r.push(',');
                r.push(' ');
                let mut v = value.type_text();
                r.append(&mut v);
                r.push('>');
                r
            },
            DslType::Any => vec!['a', 'n', 'y'],
            DslType::Custom(name) => to_chars(name.as_str()),
        }
    }
}


/// Errors of the DSL parser.
#[derive(Debug)]
pub enum DslParseError {
    MissingModule,
    UnexpectedTopLevel(String),
    InvalidSignature { signature: String, reason: String },
    Statement(String),
    Expression(String),
}

fn invalid_signature(signature: &[char], reason: &str) -> (r: DslParseError)
    ensures
        r matches DslParseError::InvalidSignature { signature: s, reason: w } && s@ == signature@ && w@ == reason@,
{
    DslParseError::InvalidSignature { signature: from_chars(signature), reason: str_to_string(reason) }
}

/// Bracket depths, the current piece and the finished pieces while splitting parameters.
pub ghost struct SplitState {
    pub angle: nat,
    pub bracket: nat,
    pub paren: nat,
    pub current: Seq<char>,
    pub parts: Seq<Seq<char>>,
}

/// One less, but not below zero.
pub open spec fn dec_sat(n: nat) -> nat {
    if n == 0 { 0 } else { (n - 1) as nat }
}

/// Reading one character while splitting at top-level commas.
pub open spec fn split_step(st: SplitState, ch: char) -> SplitState {
    if ch == '<' {
        SplitState { angle: st.angle + 1, current: st.current.push(ch), ..st }
    } else if ch == '>' {
        SplitState { angle: dec_sat(st.angle), current: st.current.push(ch), ..st }
    } else if ch == '[' {
        SplitState { bracket: st.bracket + 1, current: st.current.push(ch), ..st }
    } else if ch == ']' {
        SplitState { bracket: dec_sat(st.bracket), current: st.current.push(ch), ..st }
    } else if ch == '(' {
        SplitState { paren: st.paren + 1, current: st.current.push(ch), ..st }
    } else if ch == ')' {
        SplitState { paren: dec_sat(st.paren), current: st.current.push(ch), ..st }
    } else if ch == ',' && st.angle == 0 && st.bracket == 0 && st.paren == 0 {
        SplitState { current: Seq::empty(), parts: st.parts.push(spec_trim(st.current)), ..st }
    } else {
        SplitState { current: st.current.push(ch), ..st }
    }
}

/// The splitting state after reading `s`.
pub open spec fn split_fold(s: Seq<char>) -> SplitState
    decreases s.len(),
{
    if s.len() == 0 {
        SplitState { angle: 0, bracket: 0, paren: 0, current: Seq::empty(), parts: Seq::empty() }
    } else {
        split_step(split_fold(s.drop_last()), s.last())
    }
}

/// Pieces of `s` between commas outside `<>`, `[]` and `()`, each trimmed; an empty last piece is dropped.
pub open spec fn spec_split_params(s: Seq<char>) -> Seq<Seq<char>> {
    let st = split_fold(s);
    if spec_trim(st.current).len() > 0 {
        st.parts.push(spec_trim(st.current))
    } else {
        st.parts
    }
}

proof fn lemma_split_fold_len(s: Seq<char>)
    ensures
        split_fold(s).current.len() <= s.len(),
        forall|k: int| 0 <= k < split_fold(s).parts.len() ==> #[trigger] split_fold(s).parts[k].len() <= s.len(),
        split_fold(s).angle <= s.len(),
        split_fold(s).bracket <= s.len(),
        split_fold(s).paren <= s.len(),
    decreases s.len(),
{
    if s.len() > 0 {
        let prev = split_fold(s.drop_last());
        lemma_split_fold_len(s.drop_last());
        lemma_trim_len(prev.current);
        let st = split_fold(s);
        assert forall|k: int| 0 <= k < st.parts.len() implies #[trigger] st.parts[k].len() <= s.len() by {
            if k < prev.parts.len() {
                assert(st.parts[k] == prev.parts[k]);
            }
        }
    }
}

/// Every piece of a split is no longer than the input.
pub proof fn lemma_split_params_len(s: Seq<char>)
    ensures
        forall|k: int| 0 <= k < spec_split_params(s).len() ==> #[trigger] spec_split_params(s)[k].len() <= s.len(),
{
    lemma_split_fold_len(s);
    let st = split_fold(s);
    lemma_trim_len(st.current);
    let r = spec_split_params(s);
    assert forall|k: int| 0 <= k < r.len() implies #[trigger] r[k].len() <= s.len() by {
        if k < st.parts.len() {
            assert(r[k] == st.parts[k]);
        }
    }
}

/// Splits a parameter list at its top-level commas.
pub(crate) fn split_params(params_raw: &[char]) -> (r: Vec<Vec<char>>)
    ensures
        r@.map_values(|v: Vec<char>| v@) == spec_split_params(params_raw@),
{
    let mut parts: Vec<Vec<char>> = Vec::new();
    let mut current: Vec<char> = Vec::new();
    let mut angle_depth: usize = 0;
    let mut bracket_depth: usize = 0;
    let mut paren_depth: usize = 0;
    let mut i: usize = 0;
    while i < params_raw.len()
        invariant
            i <= params_raw@.len(),
            split_fold(params_raw@.subrange(0, i as int)).angle == angle_depth as nat,
            split_fold(params_raw@.subrange(0, i as int)).bracket == bracket_depth as nat,
            split_fold(params_raw@.subrange(0, i as int)).paren == paren_depth as nat,
            split_fold(params_raw@.subrange(0, i as int)).current == current@,
            split_fold(params_raw@.subrange(0, i as int)).parts == parts@.map_values(|v: Vec<char>| v@),
            angle_depth <= i,
            bracket_depth <= i,
            paren_depth <= i,
        decreases params_raw@.len() - i,
    {
        let ch = params_raw[i];
        proof {
            assert(params_raw@.subrange(0, i + 1).drop_last() == params_raw@.subrange(0, i as int));
        }
        if ch == '<' {
            angle_depth = angle_depth + 1;
            current.push(ch);
        } else if ch == '>' {
            if angle_depth > 0 {
                angle_depth = angle_depth - 1;
            }
            current.push(ch);
        } else if ch == '[' {
            bracket_depth = bracket_depth + 1;
            current.push(ch);
        } else if ch == ']' {
            if bracket_depth > 0 {
                bracket_depth = bracket_depth - 1;
            }
            current.push(ch);
        } else if ch == '(' {
            paren_depth = paren_depth + 1;
            current.push(ch);
        } else if ch == ')' {
            if paren_depth > 0 {
                paren_depth = paren_depth - 1;
            }
            current.push(ch);
        } else if ch == ',' && angle_depth == 0 && bracket_depth == 0 && paren_depth == 0 {
            let piece = trim(current.as_slice());
            parts.push(piece);
            current = Vec::new();
        } else {
            current.push(ch);
        }
        i = i + 1;
    }
    assert(params_raw@.subrange(0, params_raw@.len() as int) == params_raw@);
    let last = trim(current.as_slice());
    if last.len() > 0 {
        parts.push(last);
    }
    parts
}

/// `optional<`
pub open spec fn kw_optional() -> Seq<char> { seq!['o', 'p', 't', 'i', 'o', 'n', 'a', 'l', '<'] }
/// `list<`
pub open spec fn kw_list() -> Seq<char> { seq!['l', 'i', 's', 't', '<'] }
/// `map<`
pub open spec fn kw_map() -> Seq<char> { seq!['m', 'a', 'p', '<'] }

/// The type a type expression denotes, or `None` when it is malformed.
/// Wrappers (`optional<`, `list<`, `map<`) are recognised case-sensitively, after which every
/// trailing `>` is dropped; scalar names are matched case-insensitively; any other name is a
/// custom type.
pub open spec fn spec_parse_type(raw: Seq<char>) -> Option<TypeView>
    decreases raw.len(),
{
    let ty = spec_trim(raw);
    if ty.len() == 0 {
        None
    } else if spec_starts_with(ty, kw_optional()) {
        let inner = spec_trim_end_matches(ty.subrange(9, ty.len() as int), '>');
        proof { lemma_trim_len(raw); lemma_trim_end_matches_len(ty.subrange(9, ty.len() as int), '>'); }
        match spec_parse_type(inner) {
            Some(t) => Some(TypeView::Optional(Box::new(t))),
            None => None,
        }
    } else if spec_starts_with(ty, kw_list()) {
        let inner = spec_trim_end_matches(ty.subrange(5, ty.len() as int), '>');
        proof { lemma_trim_len(raw); lemma_trim_end_matches_len(ty.subrange(5, ty.len() as int), '>'); }
        match spec_parse_type(inner) {
            Some(t) => Some(TypeView::List(Box::new(t))),
            None => None,
        }
    } else if spec_starts_with(ty, kw_map()) {
        let inner = spec_trim_end_matches(ty.subrange(4, ty.len() as int), '>');
        let parts = spec_split_params(inner);
        proof {
            lemma_trim_len(raw);
            lemma_trim_end_matches_len(ty.subrange(4, ty.len() as int), '>');
            lemma_split_params_len(inner);
        }
        if parts.len() != 2 {
            None
        } else {
            match (spec_parse_type(parts[0]), spec_parse_type(parts[1])) {
                (Some(k), Some(v)) => Some(TypeView::Mapping(Box::new(k), Box::new(v))),
                _ => None,
            }
        }
    } else {
        let lower = ty.map_values(|c: char| spec_lower(c));
        if lower == seq!['b', 'o', 'o', 'l'] || lower == seq!['b', 'o', 'o', 'l', 'e', 'a', 'n'] {
            Some(TypeView::Bool)
        } else if lower == seq!['b', 'y', 't', 'e', 's'] {
            Some(TypeView::Bytes)
        } else if lower == seq!['s', 't', 'r', 'i', 'n', 'g'] {
            Some(TypeView::String)
        } else if lower == seq!['a', 'd', 'd', 'r', 'e', 's', 's'] {
            Some(TypeView::Address)
        } else if lower == seq!['a', 'n', 'y'] {
            Some(TypeView::Any)
        } else if spec_starts_with(lower, seq!['u', 'i', 'n', 't']) {
            match spec_parse_u16(lower.subrange(4, lower.len() as int)) {
                Some(bits) => Some(TypeView::Uint(bits)),
                None => None,
            }
        } else if spec_starts_with(lower, seq!['i', 'n', 't']) {
            match spec_parse_u16(lower.subrange(3, lower.len() as int)) {
                Some(bits) => Some(TypeView::Int(bits)),
                None => None,
            }
        } else {
            Some(TypeView::Custom(ty))
        }
    }
}

/// Whether `raw` is a scalar type written `<prefix><width>` (case-insensitively) whose width
/// is not a number that fits in 16 bits.
pub open spec fn spec_width_error(raw: Seq<char>, prefix: Seq<char>) -> bool {
    let ty = spec_trim(raw);
    let lower = ty.map_values(|c: char| spec_lower(c));
    &&& ty.len() > 0
    &&& !spec_starts_with(ty, kw_optional())
    &&& !spec_starts_with(ty, kw_list())
    &&& !spec_starts_with(ty, kw_map())
    &&& spec_starts_with(lower, prefix)
    &&& (prefix == seq!['i', 'n', 't'] ==> !spec_starts_with(lower, seq!['u', 'i', 'n', 't']))
    &&& spec_parse_u16(lower.subrange(prefix.len() as int, lower.len() as int)) is None
}

/// Parses a type expression such as `uint64`, `optional<bytes>` or `map<address, uint256>`.
fn parse_type(raw: &[char]) -> (r: Result<DslType, DslParseError>)
    ensures
        match r {
            Ok(t) => spec_parse_type(raw@) == Some(t@),
            Err(_) => spec_parse_type(raw@) is None,
        },
        spec_trim(raw@).len() == 0 ==> (r matches Err(DslParseError::InvalidSignature { signature, reason })
            && signature@ == raw@ && reason@ == "type is missing"@),
        spec_width_error(raw@, seq!['u', 'i', 'n', 't']) ==> (r matches Err(
            DslParseError::InvalidSignature { signature, reason },
        ) && signature@ == raw@ && reason@ == "invalid uint width"@),
        spec_width_error(raw@, seq!['i', 'n', 't']) ==> (r matches Err(DslParseError::InvalidSignature { signature, reason })
            && signature@ == raw@ && reason@ == "invalid int width"@),
    decreases raw@.len(),
{
    let ty = trim(raw);
    proof {
        lemma_trim_len(raw@);
    }
    if ty.len() == 0 {
        return Err(invalid_signature(raw, "type is missing"));
    }
    let kw_opt: Vec<char> = vec!['o', 'p', 't', 'i', 'o', 'n', 'a', 'l', '<'];
    let kw_lst: Vec<char> = vec!['l', 'i', 's', 't', '<'];
    let kw_mp: Vec<char> = vec!['m', 'a', 'p', '<'];
    assert(kw_opt@ == kw_optional());
    assert(kw_lst@ == kw_list());
    assert(kw_mp@ == kw_map());
    if let Some(rest) = strip_prefix(ty.as_slice(), kw_opt.as_slice()) {
        let inner = trim_end_matches(rest.as_slice(), '>');
        proof { lemma_trim_end_matches_len(rest@, '>'); }
        let t = parse_type(inner.as_slice())?;
        return Ok(DslType::Optional(Box::new(t)));
    }
    if let Some(rest) = strip_prefix(ty.as_slice(), kw_lst.as_slice()) {
        let inner = trim_end_matches(rest.as_slice(), '>');
        proof { lemma_trim_end_matches_len(rest@, '>'); }
        let t = parse_type(inner.as_slice())?;
        return Ok(DslType::List(Box::new(t)));
    }
    if let Some(rest) = strip_prefix(ty.as_slice(), kw_mp.as_slice()) {
        let inner = trim_end_matches(rest.as_slice(), '>');
        proof {
            lemma_trim_end_matches_len(rest@, '>');
            lemma_split_params_len(inner@);
        }
        let parts = split_params(inner.as_slice());
        if parts.len() != 2 {
            return Err(invalid_signature(raw, "map expects two type arguments"));
        }
        proof {
            assert(parts@.map_values(|v: Vec<char>| v@)[0] == parts@[0]@);
            assert(parts@.map_values(|v: Vec<char>| v@)[1] == parts@[1]@);
        }
        let key = parse_type(parts[0].as_slice())?;
        let value = parse_type(parts[1].as_slice())?;
        return Ok(DslType::Mapping { key: Box::new(key), value: Box::new(value) });
    }
    let lower = to_ascii_lowercase(ty.as_slice());
    let w_bool: Vec<char> = vec!['b', 'o', 'o', 'l'];
    let w_boolean: Vec<char> = vec!['b', 'o', 'o', 'l', 'e', 'a', 'n'];
    let w_bytes: Vec<char> = vec!['b', 'y', 't', 'e', 's'];
    let w_string: Vec<char> = vec!['s', 't', 'r', 'i', 'n', 'g'];
    let w_address: Vec<char> = vec!['a', 'd', 'd', 'r', 'e', 's', 's'];
    let w_any: Vec<char> = vec!['a', 'n', 'y'];
    let w_uint: Vec<char> = vec!['u', 'i', 'n', 't'];
    let w_int: Vec<char> = vec!['i', 'n', 't'];
    if chars_eq(lower.as_slice(), w_bool.as_slice()) || chars_eq(lower.as_slice(), w_boolean.as_slice()) {
        assert(w_bool@ == seq!['b', 'o', 'o', 'l']);
        assert(w_boolean@ == seq!['b', 'o', 'o', 'l', 'e', 'a', 'n']);
        return Ok(DslType::Bool);
    }
    assert(w_bool@ == seq!['b', 'o', 'o', 'l']);
    assert(w_boolean@ == seq!['b', 'o', 'o', 'l', 'e', 'a', 'n']);
    if chars_eq(lower.as_slice(), w_bytes.as_slice()) {
        assert(w_bytes@ == seq!['b', 'y', 't', 'e', 's']);
        return Ok(DslType::Bytes);
    }
    assert(w_bytes@ == seq!['b', 'y', 't', 'e', 's']);
    if chars_eq(lower.as_slice(), w_string.as_slice()) {
        assert(w_string@ == seq!['s', 't', 'r', 'i', 'n', 'g']);
        return Ok(DslType::String);
    }
    assert(w_string@ == seq!['s', 't', 'r', 'i', 'n', 'g']);
    if chars_eq(lower.as_slice(), w_address.as_slice()) {
        assert(w_address@ == seq!['a', 'd', 'd', 'r', 'e', 's', 's']);
        return Ok(DslType::Address);
    }
    assert(w_address@ == seq!['a', 'd', 'd', 'r', 'e', 's', 's']);
    if chars_eq(lower.as_slice(), w_any.as_slice()) {
        assert(w_any@ == seq!['a', 'n', 'y']);
        return Ok(DslType::Any);
    }
    assert(w_any@ == seq!['a', 'n', 'y']);
    assert(w_uint@ == seq!['u', 'i', 'n', 't']);
    assert(w_int@ == seq!['i', 'n', 't']);
    if let Some(bits) = strip_prefix(lower.as_slice(), w_uint.as_slice()) {
        match parse_u16(bits.as_slice()) {
            Some(b) => {
                return Ok(DslType::Uint { bits: b });
            },
            None => {
                return Err(invalid_signature(raw, "invalid uint width"));
            },
        }
    }
    if let Some(bits) = strip_prefix(lower.as_slice(), w_int.as_slice()) {
        match parse_u16(bits.as_slice()) {
            Some(b) => {
                return Ok(DslType::Int { bits: b });
            },
            None => {
                return Err(invalid_signature(raw, "invalid int width"));
            },
        }
    }
    Ok(DslType::Custom(from_chars(ty.as_slice())))
}


/// The value of a token.
pub ghost enum TokenView {
    Ident(Seq<char>),
    Number(Seq<char>),
    Str(Seq<char>),
    Bytes(Seq<u8>),
    True,
    False,
    NoneKw,
    Symbol(char),
    Operator(Seq<char>),
    Eof,
}

/// The first position at or after `i` that is not white space.
pub open spec fn spec_skip_ws(s: Seq<char>, i: int) -> int
    decreases s.len() - i,
{
    if 0 <= i < s.len() && spec_is_ws(s[i]) {
        spec_skip_ws(s, i + 1)
    } else {
        i
    }
}

/// The end of the identifier characters (letters, digits, `_`) from `i` on.
pub open spec fn spec_word_end(s: Seq<char>, i: int) -> int
    decreases s.len() - i,
{
    if 0 <= i < s.len() && (spec_is_alpha(s[i]) || spec_is_digit(s[i]) || s[i] == '_') {
        spec_word_end(s, i + 1)
    } else {
        i
    }
}

/// The end of the number characters (hexadecimal digits, `_`, `x`) from `i` on.
pub open spec fn spec_number_end(s: Seq<char>, i: int) -> int
    decreases s.len() - i,
{
    if 0 <= i < s.len() && (spec_is_hex(s[i]) || s[i] == '_' || s[i] == 'x') {
        spec_number_end(s, i + 1)
    } else {
        i
    }
}

/// The characters other than `_`.
pub open spec fn spec_without_underscores(s: Seq<char>) -> Seq<char>
    decreases s.len(),
{
    if s.len() == 0 {
        Seq::empty()
    } else if s.last() == '_' {
        spec_without_underscores(s.drop_last())
    } else {
        spec_without_underscores(s.drop_last()).push(s.last())
    }
}

/// The character an escape `\\c` stands for.
pub open spec fn spec_unescape(c: char) -> char {
    if c == 'n' {
        '\n'
    } else if c == 'r' {
        '\r'
    } else if c == 't' {
        '\t'
    } else if c == '0' {
        '\0'
    } else {
        c
    }
}

/// The contents of a string literal whose body starts at `i`, and the position after its
/// closing quote (or the end of the input, when it is not closed).
pub open spec fn spec_scan_str(s: Seq<char>, i: int) -> (Seq<char>, int)
    decreases s.len() - i,
{
    if i < 0 || i >= s.len() {
        (Seq::empty(), i)
    } else if s[i] == '"' {
        (Seq::empty(), i + 1)
    } else if s[i] == '\\' && i + 1 < s.len() {
        let rest = spec_scan_str(s, i + 2);
        (seq![spec_unescape(s[i + 1])] + rest.0, rest.1)
    } else {
        let rest = spec_scan_str(s, i + 1);
        (seq![s[i]] + rest.0, rest.1)
    }
}

/// The token a word is: a boolean or `None` literal, a word operator, or an identifier.
pub open spec fn spec_word_token(w: Seq<char>) -> TokenView {
    if w == seq!['t', 'r', 'u', 'e'] || w == seq!['T', 'r', 'u', 'e'] {
        TokenView::True
    } else if w == seq!['f', 'a', 'l', 's', 'e'] || w == seq!['F', 'a', 'l', 's', 'e'] {
        TokenView::False
    } else if w == seq!['N', 'o', 'n', 'e'] {
        TokenView::NoneKw
    } else if w == seq!['a', 'n', 'd'] || w == seq!['o', 'r'] || w == seq!['n', 'o', 't'] {
        TokenView::Operator(w)
    } else {
        TokenView::Ident(w)
    }
}

/// Whether `c` is a one-character symbol token.
pub open spec fn spec_is_symbol(c: char) -> bool {
    c == '+' || c == '-' || c == '*' || c == '/' || c == '%' || c == '(' || c == ')' || c == ',' || c == '.'
        || c == ':' || c == '[' || c == ']' || c == '{' || c == '}'
}

/// The token at position `pos` of `s`, after white space, and the position after it; none
/// where an unexpected character stands.
pub open spec fn spec_next_token(s: Seq<char>, pos: int) -> Option<(TokenView, int)> {
    let p = spec_skip_ws(s, pos);
    if p >= s.len() {
        Some((TokenView::Eof, p))
    } else {
        let ch = s[p];
        if spec_is_alpha(ch) || ch == '_' {
            let e = spec_word_end(s, p + 1);
            Some((spec_word_token(s.subrange(p, e)), e))
        } else if spec_is_digit(ch) {
            let e = spec_number_end(s, p + 1);
            Some((TokenView::Number(spec_without_underscores(s.subrange(p, e))), e))
        } else if ch == '"' {
            let r = spec_scan_str(s, p + 1);
            Some((TokenView::Str(r.0), r.1))
        } else if ch == '=' || ch == '!' || ch == '<' || ch == '>' {
            if p + 1 < s.len() && s[p + 1] == '=' {
                Some((TokenView::Operator(seq![ch, '=']), p + 2))
            } else {
                Some((TokenView::Operator(seq![ch]), p + 1))
            }
        } else if spec_is_symbol(ch) {
            Some((TokenView::Symbol(ch), p + 1))
        } else {
            None
        }
    }
}

proof fn lemma_skip_ws(s: Seq<char>, i: int)
    requires
        0 <= i <= s.len(),
    ensures
        i <= spec_skip_ws(s, i) <= s.len(),
        forall|k: int| i <= k < spec_skip_ws(s, i) ==> spec_is_ws(#[trigger] s[k]),
        spec_skip_ws(s, i) == s.len() || !spec_is_ws(s[spec_skip_ws(s, i)]),
    decreases s.len() - i,
{
    if i < s.len() && spec_is_ws(s[i]) {
        lemma_skip_ws(s, i + 1);
    }
}

/// Lexical tokens of DSL expressions.
#[derive(Debug)]
enum Token {
    Ident(Vec<char>),
    Number(Vec<char>),
    Str(Vec<char>),
    Bytes(Vec<u8>),
    True,
    False,
    NoneKw,
    Symbol(char),
    Operator(Vec<char>),
    Eof,
}

impl Token {
    /// The value of the token.
    spec fn view_token(&self) -> TokenView {
        match self {
            Token::Ident(w) => TokenView::Ident(w@),
            Token::Number(w) => TokenView::Number(w@),
            Token::Str(w) => TokenView::Str(w@),
            Token::Bytes(b) => TokenView::Bytes(b@),
            Token::True => TokenView::True,
            Token::False => TokenView::False,
            Token::NoneKw => TokenView::NoneKw,
            Token::Symbol(c) => TokenView::Symbol(*c),
            Token::Operator(w) => TokenView::Operator(w@),
            Token::Eof => TokenView::Eof,
        }
    }
}

/// The `Debug` form of a token (`format!("{:?}")`), for error messages. Nothing is stated
/// of the text.
#[verifier::external_body]
fn token_debug(t: &Token) -> String {
    format!("{:?}", t)
}

/// Whether `t` is the operator written `op`.
fn is_operator(t: &Token, op: &[char]) -> (r: bool)
    ensures
        r == (t matches Token::Operator(o) && o@ == op@),
{
    match t {
        Token::Operator(o) => chars_eq(o.as_slice(), op),
        _ => false,
    }
}

/// Whether `t` is an identifier.
fn is_ident(t: &Token) -> (r: bool)
    ensures
        r == (t is Ident),
{
    match t {
        Token::Ident(_) => true,
        _ => false,
    }
}

/// Whether `t` is the symbol `c`.
fn is_symbol(t: &Token, c: char) -> (r: bool)
    ensures
        r == (t matches Token::Symbol(x) && x == c),
{
    match t {
        Token::Symbol(x) => *x == c,
        _ => false,
    }
}

/// A cursor over the characters of an expression.
#[derive(Clone, Copy)]
struct Tokenizer<'a> {
    input: &'a [char],
    pos: usize,
}

impl<'a> Tokenizer<'a> {
    spec fn wf(&self) -> bool {
        self.pos <= self.input@.len()
    }

    /// Characters not yet read.
    spec fn remaining(&self) -> nat {
        (self.input@.len() - self.pos) as nat
    }

    fn new(input: &'a [char]) -> (r: Self)
        ensures
            r.wf(),
            r.pos == 0,
            r.input@ == input@,
    {
        Tokenizer { input, pos: 0 }
    }

    fn peek_char(&self) -> (r: Option<char>)
        requires
            self.wf(),
        ensures
            r == (if self.pos < self.input@.len() {
                Some(self.input@[self.pos as int])
            } else {
                None
            }),
    {
        if self.pos < self.input.len() {
            Some(self.input[self.pos])
        } else {
            None
        }
    }

    fn next_char(&mut self) -> (r: Option<char>)
        requires
            old(self).wf(),
        ensures
            final(self).wf(),
            final(self).input == old(self).input,
            r == (if old(self).pos < old(self).input@.len() {
                Some(old(self).input@[old(self).pos as int])
            } else {
                None
            }),
            final(self).pos == (if old(self).pos < old(self).input@.len() {
                old(self).pos + 1
            } else {
                old(self).pos as int
            }),
    {
        if self.pos < self.input.len() {
            let c = self.input[self.pos];
            self.pos = self.pos + 1;
            Some(c)
        } else {
            None
        }
    }

    fn skip_whitespace(&mut self)
        requires
            old(self).wf(),
        ensures
            final(self).wf(),
            final(self).input == old(self).input,
            old(self).pos <= final(self).pos,
            forall|k: int| old(self).pos <= k < final(self).pos ==> spec_is_ws(#[trigger] final(self).input@[k]),
            final(self).pos == final(self).input@.len() || !spec_is_ws(final(self).input@[final(self).pos as int]),
    {
        while self.pos < self.input.len() && is_ws(self.input[self.pos])
            invariant
                self.wf(),
                self.input == old(self).input,
                old(self).pos <= self.pos,
                forall|k: int| old(self).pos <= k < self.pos ==> spec_is_ws(#[trigger] self.input@[k]),
            decreases self.input@.len() - self.pos,
        {
            self.pos = self.pos + 1;
        }
    }

    /// Reads the next token: the token `spec_next_token` gives at the current position, and
    /// the position after it; an error exactly where it gives none.
    fn next_token(&mut self) -> (r: Result<Token, DslParseError>)
        requires
            old(self).wf(),
        ensures
            final(self).wf(),
            final(self).input == old(self).input,
            old(self).pos <= final(self).pos,
            r is Ok <==> spec_next_token(old(self).input@, old(self).pos as int) is Some,
            r matches Ok(t) ==> spec_next_token(old(self).input@, old(self).pos as int) == Some(
                (t.view_token(), final(self).pos as int),
            ),
            (r matches Ok(t) && t is Eof) ==> final(self).pos == final(self).input@.len(),
            (r matches Ok(t) && t is Eof) ==> forall|k: int|
                old(self).pos <= k < final(self).input@.len() ==> spec_is_ws(#[trigger] final(self).input@[k]),
            (r matches Ok(t) && !(t is Eof)) ==> old(self).pos < final(self).pos,
            r is Err ==> ({
                let p = spec_skip_ws(old(self).input@, old(self).pos as int);
                &&& final(self).pos == p + 1
                &&& r matches Err(DslParseError::Expression(m)) && m@ == "unexpected character `"@ + seq![
                    old(self).input@[p],
                ] + "`"@
            }),
    {
        let ghost s = self.input@;
        proof {
            lemma_skip_ws(s, old(self).pos as int);
        }
        self.skip_whitespace();
        assert(self.pos == spec_skip_ws(s, old(self).pos as int));
        let start = self.pos;
        let ch = match self.next_char() {
            Some(c) => c,
            None => {
                return Ok(Token::Eof);
            },
        };
        if is_alpha(ch) || ch == '_' {
            while self.pos < self.input.len() && (is_alpha(self.input[self.pos]) || is_digit(
                self.input[self.pos],
            ) || self.input[self.pos] == '_')
                invariant
                    self.wf(),
                    self.input == old(self).input,
                    s == self.input@,
                    start < self.pos,
                    spec_word_end(s, start + 1) == spec_word_end(s, self.pos as int),
                decreases self.input@.len() - self.pos,
            {
                self.pos = self.pos + 1;
            }
            let word = copy_range(self.input, start, self.pos);
            let w_true: Vec<char> = vec!['t', 'r', 'u', 'e'];
            let w_true2: Vec<char> = vec!['T', 'r', 'u', 'e'];
            let w_false: Vec<char> = vec!['f', 'a', 'l', 's', 'e'];
            let w_false2: Vec<char> = vec!['F', 'a', 'l', 's', 'e'];
            let w_none: Vec<char> = vec!['N', 'o', 'n', 'e'];
            let w_and: Vec<char> = vec!['a', 'n', 'd'];
            let w_or: Vec<char> = vec!['o', 'r'];
            let w_not: Vec<char> = vec!['n', 'o', 't'];
            if chars_eq(word.as_slice(), w_true.as_slice()) || chars_eq(word.as_slice(), w_true2.as_slice()) {
                return Ok(Token::True);
            }
            if chars_eq(word.as_slice(), w_false.as_slice()) || chars_eq(word.as_slice(), w_false2.as_slice()) {
                return Ok(Token::False);
            }
            if chars_eq(word.as_slice(), w_none.as_slice()) {
                return Ok(Token::NoneKw);
            }
            if chars_eq(word.as_slice(), w_and.as_slice()) || chars_eq(word.as_slice(), w_or.as_slice())
                || chars_eq(word.as_slice(), w_not.as_slice()) {
                return Ok(Token::Operator(word));
            }
            return Ok(Token::Ident(word));
        }
        if is_digit(ch) {
            while self.pos < self.input.len() && (is_hex(self.input[self.pos]) || self.input[self.pos] == '_'
                || self.input[self.pos] == 'x')
                invariant
                    self.wf(),
                    self.input == old(self).input,
                    s == self.input@,
                    start < self.pos,
                    spec_number_end(s, start + 1) == spec_number_end(s, self.pos as int),
                decreases self.input@.len() - self.pos,
            {
                self.pos = self.pos + 1;
            }
            let mut number: Vec<char> = Vec::new();
            let mut k = start;
            while k < self.pos
                invariant
                    self.wf(),
                    s == self.input@,
                    start <= k <= self.pos,
                    number@ == spec_without_underscores(s.subrange(start as int, k as int)),
                decreases self.pos - k,
            {
                proof {
                    assert(s.subrange(start as int, k + 1).drop_last() =~= s.subrange(start as int, k as int));
                }
                if self.input[k] != '_' {
                    number.push(self.input[k]);
                }
                k = k + 1;
            }
            return Ok(Token::Number(number));
        }
        if ch == '"' {
            let mut out: Vec<char> = Vec::new();
            loop
                invariant_except_break
                    spec_scan_str(s, start + 1) == (out@ + spec_scan_str(s, self.pos as int).0, spec_scan_str(
                        s,
                        self.pos as int,
                    ).1),
                invariant
                    self.wf(),
                    self.input == old(self).input,
                    s == self.input@,
                    start < self.pos,
                ensures
                    spec_scan_str(s, start + 1) == (out@, self.pos as int),
                decreases self.input@.len() - self.pos,
            {
                let ghost here = self.pos as int;
                let next_ch = match self.next_char() {
                    Some(c) => c,
                    None => {
                        assert(out@ + Seq::<char>::empty() =~= out@);
                        break;
                    },
                };
                if next_ch == '"' {
                    assert(out@ + Seq::<char>::empty() =~= out@);
                    break;
                }
                if next_ch == '\\' {
                    if let Some(esc) = self.next_char() {
                        let unescaped = if esc == 'n' {
                            '\n'
                        } else if esc == 'r' {
                            '\r'
                        } else if esc == 't' {
                            '\t'
                        } else if esc == '0' {
                            '\0'
                        } else {
                            esc
                        };
                        assert(unescaped == spec_unescape(esc));
                        assert(out@.push(unescaped) + spec_scan_str(s, self.pos as int).0 =~= out@ + spec_scan_str(
                            s,
                            here,
                        ).0);
                        out.push(unescaped);
                        continue;
                    }
                }
                assert(out@.push(next_ch) + spec_scan_str(s, self.pos as int).0 =~= out@ + spec_scan_str(s, here).0);
                out.push(next_ch);
            }
            return Ok(Token::Str(out));
        }
        if ch == 'b' {
            if self.peek_char() == Some('"') {
                self.next_char();
                let mut bytes: Vec<u8> = Vec::new();
                loop
                    invariant
                        self.wf(),
                        self.input == old(self).input,
                        start < self.pos,
                    decreases self.input@.len() - self.pos,
                {
                    let next_ch = match self.next_char() {
                        Some(c) => c,
                        None => {
                            break;
                        },
                    };
                    if next_ch == '"' {
                        break;
                    }
                    if next_ch == '\\' {
                        if let Some(esc) = self.next_char() {
                            let b: u8 = if esc == 'n' {
                                10u8
                            } else if esc == 'r' {
                                13u8
                            } else if esc == 't' {
                                9u8
                            } else if esc == '0' {
                                0u8
                            } else {
                                char_low_byte(esc)
                            };
                            bytes.push(b);
                            continue;
                        }
                    }
                    bytes.push(char_low_byte(next_ch));
                }
                return Ok(Token::Bytes(bytes));
            }
        }
        if ch == '=' || ch == '!' || ch == '<' || ch == '>' {
            let mut op: Vec<char> = Vec::new();
            op.push(ch);
            if self.peek_char() == Some('=') {
                self.next_char();
                op.push('=');
            }
            assert(op@ =~= (if start + 1 < s.len() && s[start + 1] == '=' {
                seq![ch, '=']
            } else {
                seq![ch]
            }));
            return Ok(Token::Operator(op));
        }
        if ch == '+' || ch == '-' || ch == '*' || ch == '/' || ch == '%' || ch == '(' || ch == ')' || ch
            == ',' || ch == '.' || ch == ':' || ch == '[' || ch == ']' || ch == '{' || ch == '}' {
            return Ok(Token::Symbol(ch));
        }
        let mut cs: Vec<char> = Vec::new();
        cs.push(ch);
        let shown = from_chars(cs.as_slice());
        let shown_str = shown.as_str();
        let parts = ["unexpected character `", shown_str, "`"];
        assert(parts@ == seq!["unexpected character `", shown_str, "`"]);
        proof {
            reveal_with_fuel(crate::text::spec_concat, 4);
        }
        assert(cs@ =~= seq![s[start as int]]);
        Err(DslParseError::Expression(message(&parts)))
    }
}

/// The low eight bits of a character's code point, as `char as u8` gives them.
fn char_low_byte(c: char) -> (r: u8)
    ensures
        r == (c as u32) % 256,
{
    let v = c as u32;
    (v % 256) as u8
}

/// The value of a literal.
pub ghost enum LitView {
    Bool(bool),
    Number(Seq<char>),
    Bytes(Seq<u8>),
    Str(Seq<char>),
    Null,
}

/// The value of a DSL expression. A call argument is its name, when it is named, and its
/// value.
pub ghost enum ExprV {
    Identifier(Seq<char>),
    Literal(LitView),
    ListLiteral(Seq<ExprV>),
    MapLiteral(Seq<(ExprV, ExprV)>),
    Binary { left: Box<ExprV>, op: DslBinaryOp, right: Box<ExprV> },
    Unary { op: DslUnaryOp, expr: Box<ExprV> },
    Call { callee: Box<ExprV>, args: Seq<(Option<Seq<char>>, ExprV)> },
    Index { target: Box<ExprV>, index: Box<ExprV> },
    Attribute { target: Box<ExprV>, attribute: Seq<char> },
}

impl DslLiteral {
    /// The value of the literal.
    pub open spec fn view_lit(&self) -> LitView {
        match self {
            DslLiteral::Bool(b) => LitView::Bool(*b),
            DslLiteral::Number(n) => LitView::Number(n@),
            DslLiteral::Bytes(b) => LitView::Bytes(b@),
            DslLiteral::String(v) => LitView::Str(v@),
            DslLiteral::Null => LitView::Null,
        }
    }
}

impl DslExpr {
    /// The value of the expression.
    pub open spec fn view_expr(&self) -> ExprV
        decreases self, 0nat,
    {
        match self {
            DslExpr::Identifier(n) => ExprV::Identifier(n@),
            DslExpr::Literal(l) => ExprV::Literal(l.view_lit()),
            DslExpr::ListLiteral(items) => {
                proof {
                    assert(decreases_to!(self => *items));
                }
                ExprV::ListLiteral(dsl_exprs_view(items@))
            },
            DslExpr::MapLiteral(entries) => {
                proof {
                    assert(decreases_to!(self => *entries));
                }
                ExprV::MapLiteral(dsl_entries_view(entries@))
            },
            DslExpr::Binary { left, op, right } => ExprV::Binary {
                left: Box::new(left.view_expr()),
                op: *op,
                right: Box::new(right.view_expr()),
            },
            DslExpr::Unary { op, expr } => ExprV::Unary { op: *op, expr: Box::new(expr.view_expr()) },
            DslExpr::Call { callee, args } => {
                proof {
                    assert(decreases_to!(self => *args));
                }
                ExprV::Call { callee: Box::new(callee.view_expr()), args: dsl_args_view(args@) }
            },
            DslExpr::Index { target, index } => ExprV::Index {
                target: Box::new(target.view_expr()),
                index: Box::new(index.view_expr()),
            },
            DslExpr::Attribute { target, attribute } => ExprV::Attribute {
                target: Box::new(target.view_expr()),
                attribute: attribute@,
            },
        }
    }
}

/// The values of a list of expressions.
pub open spec fn dsl_exprs_view(s: Seq<DslExpr>) -> Seq<ExprV>
    decreases s, s.len(),
{
    if s.len() == 0 {
        Seq::empty()
    } else {
        proof {
            assert(decreases_to!(s => s[s.len() - 1]));
        }
        dsl_exprs_view(s.drop_last()).push(s[s.len() - 1].view_expr())
    }
}

/// The values of a list of map entries.
pub open spec fn dsl_entries_view(s: Seq<(DslExpr, DslExpr)>) -> Seq<(ExprV, ExprV)>
    decreases s, s.len(),
{
    if s.len() == 0 {
        Seq::empty()
    } else {
        proof {
            assert(decreases_to!(s => s[s.len() - 1]));
            assert(decreases_to!(s[s.len() - 1] => s[s.len() - 1].0));
            assert(decreases_to!(s[s.len() - 1] => s[s.len() - 1].1));
        }
        dsl_entries_view(s.drop_last()).push((s[s.len() - 1].0.view_expr(), s[s.len() - 1].1.view_expr()))
    }
}

/// The value of a call argument.
pub open spec fn dsl_arg_view(a: DslCallArg) -> (Option<Seq<char>>, ExprV)
    decreases a,
{
    match a {
        DslCallArg::Positional(e) => (None, e.view_expr()),
        DslCallArg::Named { name, value } => (Some(name@), value.view_expr()),
    }
}

/// The values of a list of call arguments.
pub open spec fn dsl_args_view(s: Seq<DslCallArg>) -> Seq<(Option<Seq<char>>, ExprV)>
    decreases s, s.len(),
{
    if s.len() == 0 {
        Seq::empty()
    } else {
        proof {
            assert(decreases_to!(s => s[s.len() - 1]));
        }
        dsl_args_view(s.drop_last()).push(dsl_arg_view(s[s.len() - 1]))
    }
}

impl View for DslExpr {
    type V = ExprV;

    open spec fn view(&self) -> ExprV {
        self.view_expr()
    }
}

/// Where the expression parser stands: the position after the lookahead token, and that
/// token.
pub ghost struct PState {
    pub pos: int,
    pub la: TokenView,
}

/// Characters left plus one for a pending lookahead token.
pub open spec fn pm(s: Seq<char>, st: PState) -> nat {
    (if 0 <= st.pos <= s.len() {
        (s.len() - st.pos) as nat
    } else {
        0nat
    }) + (if st.la is Eof {
        0nat
    } else {
        1nat
    })
}

/// The state after reading the next token.
pub open spec fn adv(s: Seq<char>, st: PState) -> Option<PState> {
    match spec_next_token(s, st.pos) {
        Some((t, p)) => Some(PState { pos: p, la: t }),
        None => None,
    }
}

/// The state after the symbol `c`, which must be the lookahead.
pub open spec fn expect_sym(s: Seq<char>, st: PState, c: char) -> Option<PState> {
    if st.la == TokenView::Symbol(c) {
        adv(s, st)
    } else {
        None
    }
}

/// The binary operator of precedence level `lvl` (0 `or`, 1 `and`, 2 equality, 3 comparison,
/// 4 additive, 5 multiplicative) that the lookahead is, if any.
pub open spec fn level_op(st: PState, lvl: nat) -> Option<DslBinaryOp> {
    let t = st.la;
    if lvl == 0 {
        if t == TokenView::Operator(seq!['o', 'r']) { Some(DslBinaryOp::LogicalOr) } else { None }
    } else if lvl == 1 {
        if t == TokenView::Operator(seq!['a', 'n', 'd']) { Some(DslBinaryOp::LogicalAnd) } else { None }
    } else if lvl == 2 {
        if t == TokenView::Operator(seq!['=', '=']) {
            Some(DslBinaryOp::Equal)
        } else if t == TokenView::Operator(seq!['!', '=']) {
            Some(DslBinaryOp::NotEqual)
        } else {
            None
        }
    } else if lvl == 3 {
        if t == TokenView::Operator(seq!['<']) {
            Some(DslBinaryOp::Less)
        } else if t == TokenView::Operator(seq!['<', '=']) {
            Some(DslBinaryOp::LessEqual)
        } else if t == TokenView::Operator(seq!['>']) {
            Some(DslBinaryOp::Greater)
        } else if t == TokenView::Operator(seq!['>', '=']) {
            Some(DslBinaryOp::GreaterEqual)
        } else {
            None
        }
    } else if lvl == 4 {
        if t == TokenView::Symbol('+') {
            Some(DslBinaryOp::Add)
        } else if t == TokenView::Symbol('-') {
            Some(DslBinaryOp::Sub)
        } else {
            None
        }
    } else {
        if t == TokenView::Symbol('*') {
            Some(DslBinaryOp::Mul)
        } else if t == TokenView::Symbol('/') {
            Some(DslBinaryOp::Div)
        } else if t == TokenView::Symbol('%') {
            Some(DslBinaryOp::Mod)
        } else {
            None
        }
    }
}

/// An expression of precedence level `lvl`: operands of the next level (unary expressions
/// below the last), joined left to right by this level's operators.
pub open spec fn p_bin(s: Seq<char>, st: PState, lvl: nat) -> Option<(ExprV, PState)>
    decreases pm(s, st), 100 - 2 * lvl,
{
    if lvl > 5 {
        None
    } else {
        let first = if lvl < 5 {
            p_bin(s, st, lvl + 1)
        } else {
            p_unary(s, st)
        };
        match first {
            None => None,
            Some((l, st1)) => if pm(s, st1) <= pm(s, st) {
                p_bin_rest(s, l, st1, lvl)
            } else {
                None
            },
        }
    }
}

/// The rest of a level-`lvl` expression after its left operand `lhs`.
pub open spec fn p_bin_rest(s: Seq<char>, lhs: ExprV, st: PState, lvl: nat) -> Option<(ExprV, PState)>
    decreases pm(s, st), 99 - 2 * lvl,
{
    if lvl > 5 {
        None
    } else {
        match level_op(st, lvl) {
            None => Some((lhs, st)),
            Some(op) => match adv(s, st) {
                None => None,
                Some(st1) => if pm(s, st1) < pm(s, st) {
                    let rhs = if lvl < 5 {
                        p_bin(s, st1, lvl + 1)
                    } else {
                        p_unary(s, st1)
                    };
                    match rhs {
                        None => None,
                        Some((r, st2)) => if pm(s, st2) < pm(s, st) {
                            p_bin_rest(s, ExprV::Binary { left: Box::new(lhs), op, right: Box::new(r) }, st2, lvl)
                        } else {
                            None
                        },
                    }
                } else {
                    None
                },
            },
        }
    }
}

/// A unary expression: `-` or `not` before a unary expression, or a postfix expression.
pub open spec fn p_unary(s: Seq<char>, st: PState) -> Option<(ExprV, PState)>
    decreases pm(s, st), 80nat,
{
    let op = if st.la == TokenView::Symbol('-') {
        Some(DslUnaryOp::Neg)
    } else if st.la == TokenView::Operator(seq!['n', 'o', 't']) {
        Some(DslUnaryOp::Not)
    } else {
        None
    };
    match op {
        Some(o) => match adv(s, st) {
            None => None,
            Some(st1) => if pm(s, st1) < pm(s, st) {
                match p_unary(s, st1) {
                    None => None,
                    Some((e, st2)) => Some((ExprV::Unary { op: o, expr: Box::new(e) }, st2)),
                }
            } else {
                None
            },
        },
        None => p_postfix(s, st),
    }
}

/// A primary expression followed by calls, indexing and attribute accesses.
pub open spec fn p_postfix(s: Seq<char>, st: PState) -> Option<(ExprV, PState)>
    decreases pm(s, st), 70nat,
{
    match p_primary(s, st) {
        None => None,
        Some((e, st1)) => if pm(s, st1) <= pm(s, st) {
            p_postfix_rest(s, e, st1)
        } else {
            None
        },
    }
}

/// The calls, indexing and attribute accesses after `e`.
pub open spec fn p_postfix_rest(s: Seq<char>, e: ExprV, st: PState) -> Option<(ExprV, PState)>
    decreases pm(s, st), 69nat,
{
    if st.la == TokenView::Symbol('(') {
        match adv(s, st) {
            None => None,
            Some(st1) => if pm(s, st1) < pm(s, st) {
                match p_call_args(s, st1) {
                    None => None,
                    Some((args, st2)) => if pm(s, st2) < pm(s, st) {
                        p_postfix_rest(s, ExprV::Call { callee: Box::new(e), args }, st2)
                    } else {
                        None
                    },
                }
            } else {
                None
            },
        }
    } else if st.la == TokenView::Symbol('[') {
        match adv(s, st) {
            None => None,
            Some(st1) => if pm(s, st1) < pm(s, st) {
                match p_bin(s, st1, 0) {
                    None => None,
                    Some((i, st2)) => match expect_sym(s, st2, ']') {
                        None => None,
                        Some(st3) => if pm(s, st3) < pm(s, st) {
                            p_postfix_rest(s, ExprV::Index { target: Box::new(e), index: Box::new(i) }, st3)
                        } else {
                            None
                        },
                    },
                }
            } else {
                None
            },
        }
    } else if st.la == TokenView::Symbol('.') {
        match adv(s, st) {
            None => None,
            Some(st1) => match st1.la {
                TokenView::Ident(name) => match adv(s, st1) {
                    None => None,
                    Some(st2) => if pm(s, st2) < pm(s, st) {
                        p_postfix_rest(s, ExprV::Attribute { target: Box::new(e), attribute: name }, st2)
                    } else {
                        None
                    },
                },
                _ => None,
            },
        }
    } else {
        Some((e, st))
    }
}

/// A primary expression: a name, a literal, a parenthesized expression, or a list or map
/// literal.
pub open spec fn p_primary(s: Seq<char>, st: PState) -> Option<(ExprV, PState)>
    decreases pm(s, st), 60nat,
{
    let simple = match st.la {
        TokenView::Ident(n) => Some(ExprV::Identifier(n)),
        TokenView::True => Some(ExprV::Literal(LitView::Bool(true))),
        TokenView::False => Some(ExprV::Literal(LitView::Bool(false))),
        TokenView::NoneKw => Some(ExprV::Literal(LitView::Null)),
        TokenView::Number(n) => Some(ExprV::Literal(LitView::Number(n))),
        TokenView::Str(v) => Some(ExprV::Literal(LitView::Str(v))),
        TokenView::Bytes(b) => Some(ExprV::Literal(LitView::Bytes(b))),
        _ => None,
    };
    match simple {
        Some(e) => match adv(s, st) {
            None => None,
            Some(st1) => Some((e, st1)),
        },
        None => if st.la == TokenView::Symbol('(') || st.la == TokenView::Symbol('[') || st.la
            == TokenView::Symbol('{') {
            match adv(s, st) {
                None => None,
                Some(st1) => if pm(s, st1) < pm(s, st) {
                    if st.la == TokenView::Symbol('(') {
                        match p_bin(s, st1, 0) {
                            None => None,
                            Some((e, st2)) => match expect_sym(s, st2, ')') {
                                None => None,
                                Some(st3) => Some((e, st3)),
                            },
                        }
                    } else if st.la == TokenView::Symbol('[') {
                        if st1.la == TokenView::Symbol(']') {
                            match adv(s, st1) {
                                None => None,
                                Some(st2) => Some((ExprV::ListLiteral(Seq::empty()), st2)),
                            }
                        } else {
                            p_list_items(s, st1, Seq::empty())
                        }
                    } else {
                        if st1.la == TokenView::Symbol('}') {
                            match adv(s, st1) {
                                None => None,
                                Some(st2) => Some((ExprV::MapLiteral(Seq::empty()), st2)),
                            }
                        } else {
                            p_map_items(s, st1, Seq::empty())
                        }
                    }
                } else {
                    None
                },
            }
        } else {
            None
        },
    }
}

/// The items of a list literal after `acc`, up to and including the closing `]`.
pub open spec fn p_list_items(s: Seq<char>, st: PState, acc: Seq<ExprV>) -> Option<(ExprV, PState)>
    decreases pm(s, st), 130nat,
{
    match p_bin(s, st, 0) {
        None => None,
        Some((item, st1)) => if pm(s, st1) <= pm(s, st) {
            if st1.la == TokenView::Symbol(',') {
                match adv(s, st1) {
                    None => None,
                    Some(st2) => if pm(s, st2) < pm(s, st) {
                        p_list_items(s, st2, acc.push(item))
                    } else {
                        None
                    },
                }
            } else {
                match expect_sym(s, st1, ']') {
                    None => None,
                    Some(st2) => Some((ExprV::ListLiteral(acc.push(item)), st2)),
                }
            }
        } else {
            None
        },
    }
}

/// The entries of a map literal after `acc`, up to and including the closing `}`.
pub open spec fn p_map_items(s: Seq<char>, st: PState, acc: Seq<(ExprV, ExprV)>) -> Option<(ExprV, PState)>
    decreases pm(s, st), 140nat,
{
    match p_bin(s, st, 0) {
        None => None,
        Some((k, st1)) => match expect_sym(s, st1, ':') {
            None => None,
            Some(st2) => if pm(s, st2) <= pm(s, st) {
                match p_bin(s, st2, 0) {
                    None => None,
                    Some((v, st3)) => if pm(s, st3) <= pm(s, st) {
                        if st3.la == TokenView::Symbol(',') {
                            match adv(s, st3) {
                                None => None,
                                Some(st4) => if pm(s, st4) < pm(s, st) {
                                    p_map_items(s, st4, acc.push((k, v)))
                                } else {
                                    None
                                },
                            }
                        } else {
                            match expect_sym(s, st3, '}') {
                                None => None,
                                Some(st4) => Some((ExprV::MapLiteral(acc.push((k, v))), st4)),
                            }
                        }
                    } else {
                        None
                    },
                }
            } else {
                None
            },
        },
    }
}

/// Whether the lookahead and the token after it are a name and `=`.
pub open spec fn peek_named(s: Seq<char>, st: PState) -> bool {
    &&& st.la is Ident
    &&& spec_next_token(s, st.pos) matches Some((t, _)) && t == TokenView::Operator(seq!['='])
}

/// A named argument `name = value`.
pub open spec fn p_named_arg(s: Seq<char>, st: PState) -> Option<((Option<Seq<char>>, ExprV), PState)>
    decreases pm(s, st), 110nat,
{
    match st.la {
        TokenView::Ident(name) => match adv(s, st) {
            None => None,
            Some(st1) => if st1.la == TokenView::Operator(seq!['=']) {
                match adv(s, st1) {
                    None => None,
                    Some(st2) => if pm(s, st2) < pm(s, st) {
                        match p_bin(s, st2, 0) {
                            None => None,
                            Some((v, st3)) => Some(((Some(name), v), st3)),
                        }
                    } else {
                        None
                    },
                }
            } else {
                None
            },
        },
        _ => None,
    }
}

/// The arguments of a call after `acc`, up to and including the closing `)`.
pub open spec fn p_args_items(s: Seq<char>, st: PState, acc: Seq<(Option<Seq<char>>, ExprV)>) -> Option<
    (Seq<(Option<Seq<char>>, ExprV)>, PState),
>
    decreases pm(s, st), 120nat,
{
    let a = if peek_named(s, st) {
        p_named_arg(s, st)
    } else {
        match p_bin(s, st, 0) {
            None => None,
            Some((e, st1)) => Some(((None::<Seq<char>>, e), st1)),
        }
    };
    match a {
        None => None,
        Some((arg, st1)) => if pm(s, st1) <= pm(s, st) {
            if st1.la == TokenView::Symbol(',') {
                match adv(s, st1) {
                    None => None,
                    Some(st2) => if pm(s, st2) < pm(s, st) {
                        p_args_items(s, st2, acc.push(arg))
                    } else {
                        None
                    },
                }
            } else {
                match expect_sym(s, st1, ')') {
                    None => None,
                    Some(st2) => Some((acc.push(arg), st2)),
                }
            }
        } else {
            None
        },
    }
}

/// The arguments of a call, up to and including the closing `)`.
pub open spec fn p_call_args(s: Seq<char>, st: PState) -> Option<(Seq<(Option<Seq<char>>, ExprV)>, PState)>
    decreases pm(s, st), 150nat,
{
    if st.la == TokenView::Symbol(')') {
        match adv(s, st) {
            None => None,
            Some(st1) => Some((Seq::empty(), st1)),
        }
    } else {
        p_args_items(s, st, Seq::empty())
    }
}

/// The expression a text parses to: the longest expression at its start (what follows is
/// not read); none where it does not start with one or a character cannot be read.
pub open spec fn spec_parse_expr(s: Seq<char>) -> Option<ExprV> {
    match adv(s, PState { pos: 0, la: TokenView::Eof }) {
        None => None,
        Some(st) => match p_bin(s, st, 0) {
            None => None,
            Some((e, _)) => Some(e),
        },
    }
}

/// A recursive-descent parser over the tokens of one expression.
struct ExprParser<'a> {
    tokenizer: Tokenizer<'a>,
    lookahead: Token,
}

impl<'a> ExprParser<'a> {
    spec fn wf(&self) -> bool {
        &&& self.tokenizer.wf()
        &&& ((self.lookahead is Eof) ==> self.tokenizer.pos == self.tokenizer.input@.len())
    }

    /// Characters and pending token left: strictly decreases whenever a token is consumed.
    spec fn measure(&self) -> nat {
        self.tokenizer.remaining() + self.pending()
    }

    /// One while a token is held in the lookahead.
    spec fn pending(&self) -> nat {
        if (self.lookahead is Eof) {
            0
        } else {
            1
        }
    }

    /// The position after the lookahead, and the lookahead.
    spec fn state(&self) -> PState {
        PState { pos: self.tokenizer.pos as int, la: self.lookahead.view_token() }
    }

    fn new(input: &'a [char]) -> (r: Result<Self, DslParseError>)
        ensures
            r is Ok <==> adv(input@, PState { pos: 0, la: TokenView::Eof }) is Some,
            r matches Ok(p) ==> p.wf() && p.tokenizer.input@ == input@ && adv(
                input@,
                PState { pos: 0, la: TokenView::Eof },
            ) == Some(p.state()),
    {
        let mut tokenizer = Tokenizer::new(input);
        let lookahead = tokenizer.next_token()?;
        Ok(ExprParser { tokenizer, lookahead })
    }

    fn parse(self) -> (r: Result<DslExpr, DslParseError>)
        requires
            self.wf(),
        ensures
            r is Ok <==> p_bin(self.tokenizer.input@, self.state(), 0) is Some,
            r matches Ok(e) ==> (p_bin(self.tokenizer.input@, self.state(), 0) matches Some((v, _)) && v == e@),
    {
        let mut parser = self;
        let expr = parser.parse_or()?;
        Ok(expr)
    }

    /// Reads the next token into the lookahead.
    fn bump(&mut self) -> (r: Result<(), DslParseError>)
        requires
            old(self).wf(),
        ensures
            final(self).wf(),
            final(self).tokenizer.input == old(self).tokenizer.input,
            final(self).measure() <= old(self).measure(),
            (r is Ok && !(old(self).lookahead is Eof)) ==> final(self).measure() < old(self).measure(),
            r is Ok <==> adv(old(self).tokenizer.input@, old(self).state()) is Some,
            r is Ok ==> adv(old(self).tokenizer.input@, old(self).state()) == Some(final(self).state()),
    {
        self.lookahead = self.tokenizer.next_token()?;
        Ok(())
    }

    fn parse_or(&mut self) -> (r: Result<DslExpr, DslParseError>)
        requires
            old(self).wf(),
        ensures
            final(self).wf(),
            final(self).tokenizer.input == old(self).tokenizer.input,
            final(self).measure() <= old(self).measure(),
            r is Ok <==> p_bin(old(self).tokenizer.input@, old(self).state(), 0) is Some,
            r matches Ok(e) ==> p_bin(old(self).tokenizer.input@, old(self).state(), 0) == Some(
                (e@, final(self).state()),
            ),
        decreases old(self).measure(), 9nat,
    {
        let ghost s = self.tokenizer.input@;
        let ghost st0 = self.state();
        let mut expr = self.parse_and()?;
        let w_or: Vec<char> = vec!['o', 'r'];
        assert(w_or@ == seq!['o', 'r']);
        loop
            invariant
                w_or@ == seq!['o', 'r'],
                self.wf(),
                self.tokenizer.input == old(self).tokenizer.input,
                s == self.tokenizer.input@,
                st0 == old(self).state(),
                self.measure() <= old(self).measure(),
                p_bin(s, st0, 0) == p_bin_rest(s, expr@, self.state(), 0),
            ensures
                level_op(self.state(), 0) is None,
            decreases self.measure(),
        {
            let op = if is_operator(&self.lookahead, w_or.as_slice()) {
                DslBinaryOp::LogicalOr
            } else {
                break;
            };
            assert(level_op(self.state(), 0) == Some(op));
            self.bump()?;
            let rhs = self.parse_and()?;
            expr = DslExpr::Binary { left: Box::new(expr), op, right: Box::new(rhs) };
        }
        Ok(expr)
    }

    fn parse_and(&mut self) -> (r: Result<DslExpr, DslParseError>)
        requires
            old(self).wf(),
        ensures
            final(self).wf(),
            final(self).tokenizer.input == old(self).tokenizer.input,
            final(self).measure() <= old(self).measure(),
            r is Ok <==> p_bin(old(self).tokenizer.input@, old(self).state(), 1) is Some,
            r matches Ok(e) ==> p_bin(old(self).tokenizer.input@, old(self).state(), 1) == Some(
                (e@, final(self).state()),
            ),
        decreases old(self).measure(), 8nat,
    {
        let ghost s = self.tokenizer.input@;
        let ghost st0 = self.state();
        let mut expr = self.parse_equality()?;
        let w_and: Vec<char> = vec!['a', 'n', 'd'];
        assert(w_and@ == seq!['a', 'n', 'd']);
        loop
            invariant
                w_and@ == seq!['a', 'n', 'd'],
                self.wf(),
                self.tokenizer.input == old(self).tokenizer.input,
                s == self.tokenizer.input@,
                st0 == old(self).state(),
                self.measure() <= old(self).measure(),
                p_bin(s, st0, 1) == p_bin_rest(s, expr@, self.state(), 1),
            ensures
                level_op(self.state(), 1) is None,
            decreases self.measure(),
        {
            let op = if is_operator(&self.lookahead, w_and.as_slice()) {
                DslBinaryOp::LogicalAnd
            } else {
                break;
            };
            assert(level_op(self.state(), 1) == Some(op));
            self.bump()?;
            let rhs = self.parse_equality()?;
            expr = DslExpr::Binary { left: Box::new(expr), op, right: Box::new(rhs) };
        }
        Ok(expr)
    }

    fn parse_equality(&mut self) -> (r: Result<DslExpr, DslParseError>)
        requires
            old(self).wf(),
        ensures
            final(self).wf(),
            final(self).tokenizer.input == old(self).tokenizer.input,
            final(self).measure() <= old(self).measure(),
            r is Ok <==> p_bin(old(self).tokenizer.input@, old(self).state(), 2) is Some,
            r matches Ok(e) ==> p_bin(old(self).tokenizer.input@, old(self).state(), 2) == Some(
                (e@, final(self).state()),
            ),
        decreases old(self).measure(), 7nat,
    {
        let ghost s = self.tokenizer.input@;
        let ghost st0 = self.state();
        let mut expr = self.parse_comparison()?;
        let w_eq: Vec<char> = vec!['=', '='];
        let w_ne: Vec<char> = vec!['!', '='];
        assert(w_eq@ == seq!['=', '='] && w_ne@ == seq!['!', '=']);
        loop
            invariant
                w_eq@ == seq!['=', '='] && w_ne@ == seq!['!', '='],
                self.wf(),
                self.tokenizer.input == old(self).tokenizer.input,
                s == self.tokenizer.input@,
                st0 == old(self).state(),
                self.measure() <= old(self).measure(),
                p_bin(s, st0, 2) == p_bin_rest(s, expr@, self.state(), 2),
            ensures
                level_op(self.state(), 2) is None,
            decreases self.measure(),
        {
            let op = if is_operator(&self.lookahead, w_eq.as_slice()) {
                DslBinaryOp::Equal
            } else if is_operator(&self.lookahead, w_ne.as_slice()) {
                DslBinaryOp::NotEqual
            } else {
                break;
            };
            assert(level_op(self.state(), 2) == Some(op));
            self.bump()?;
            let rhs = self.parse_comparison()?;
            expr = DslExpr::Binary { left: Box::new(expr), op, right: Box::new(rhs) };
        }
        Ok(expr)
    }

    fn parse_comparison(&mut self) -> (r: Result<DslExpr, DslParseError>)
        requires
            old(self).wf(),
        ensures
            final(self).wf(),
            final(self).tokenizer.input == old(self).tokenizer.input,
            final(self).measure() <= old(self).measure(),
            r is Ok <==> p_bin(old(self).tokenizer.input@, old(self).state(), 3) is Some,
            r matches Ok(e) ==> p_bin(old(self).tokenizer.input@, old(self).state(), 3) == Some(
                (e@, final(self).state()),
            ),
        decreases old(self).measure(), 6nat,
    {
        let ghost s = self.tokenizer.input@;
        let ghost st0 = self.state();
        let mut expr = self.parse_additive()?;
        let w_lt: Vec<char> = vec!['<'];
        let w_le: Vec<char> = vec!['<', '='];
        let w_gt: Vec<char> = vec!['>'];
        let w_ge: Vec<char> = vec!['>', '='];
        assert(w_lt@ == seq!['<'] && w_le@ == seq!['<', '='] && w_gt@ == seq!['>'] && w_ge@ == seq!['>', '=']);
        loop
            invariant
                w_lt@ == seq!['<'] && w_le@ == seq!['<', '='] && w_gt@ == seq!['>'] && w_ge@ == seq!['>', '='],
                self.wf(),
                self.tokenizer.input == old(self).tokenizer.input,
                s == self.tokenizer.input@,
                st0 == old(self).state(),
                self.measure() <= old(self).measure(),
                p_bin(s, st0, 3) == p_bin_rest(s, expr@, self.state(), 3),
            ensures
                level_op(self.state(), 3) is None,
            decreases self.measure(),
        {
            let op = if is_operator(&self.lookahead, w_lt.as_slice()) {
                DslBinaryOp::Less
            } else if is_operator(&self.lookahead, w_le.as_slice()) {
                DslBinaryOp::LessEqual
            } else if is_operator(&self.lookahead, w_gt.as_slice()) {
                DslBinaryOp::Greater
            } else if is_operator(&self.lookahead, w_ge.as_slice()) {
                DslBinaryOp::GreaterEqual
            } else {
                break;
            };
            assert(level_op(self.state(), 3) == Some(op));
            self.bump()?;
            let rhs = self.parse_additive()?;
            expr = DslExpr::Binary { left: Box::new(expr), op, right: Box::new(rhs) };
        }
        Ok(expr)
    }

    fn parse_additive(&mut self) -> (r: Result<DslExpr, DslParseError>)
        requires
            old(self).wf(),
        ensures
            final(self).wf(),
            final(self).tokenizer.input == old(self).tokenizer.input,
            final(self).measure() <= old(self).measure(),
            r is Ok <==> p_bin(old(self).tokenizer.input@, old(self).state(), 4) is Some,
            r matches Ok(e) ==> p_bin(old(self).tokenizer.input@, old(self).state(), 4) == Some(
                (e@, final(self).state()),
            ),
        decreases old(self).measure(), 5nat,
    {
        let ghost s = self.tokenizer.input@;
        let ghost st0 = self.state();
        let mut expr = self.parse_multiplicative()?;
        loop
            invariant
                self.wf(),
                self.tokenizer.input == old(self).tokenizer.input,
                s == self.tokenizer.input@,
                st0 == old(self).state(),
                self.measure() <= old(self).measure(),
                p_bin(s, st0, 4) == p_bin_rest(s, expr@, self.state(), 4),
            ensures
                level_op(self.state(), 4) is None,
            decreases self.measure(),
        {
            let op = if is_symbol(&self.lookahead, '+') {
                DslBinaryOp::Add
            } else if is_symbol(&self.lookahead, '-') {
                DslBinaryOp::Sub
            } else {
                break;
            };
            assert(level_op(self.state(), 4) == Some(op));
            self.bump()?;
            let rhs = self.parse_multiplicative()?;
            expr = DslExpr::Binary { left: Box::new(expr), op, right: Box::new(rhs) };
        }
        Ok(expr)
    }

    fn parse_multiplicative(&mut self) -> (r: Result<DslExpr, DslParseError>)
        requires
            old(self).wf(),
        ensures
            final(self).wf(),
            final(self).tokenizer.input == old(self).tokenizer.input,
            final(self).measure() <= old(self).measure(),
            r is Ok <==> p_bin(old(self).tokenizer.input@, old(self).state(), 5) is Some,
            r matches Ok(e) ==> p_bin(old(self).tokenizer.input@, old(self).state(), 5) == Some(
                (e@, final(self).state()),
            ),
        decreases old(self).measure(), 4nat,
    {
        let ghost s = self.tokenizer.input@;
        let ghost st0 = self.state();
        let mut expr = self.parse_unary()?;
        loop
            invariant
                self.wf(),
                self.tokenizer.input == old(self).tokenizer.input,
                s == self.tokenizer.input@,
                st0 == old(self).state(),
                self.measure() <= old(self).measure(),
                p_bin(s, st0, 5) == p_bin_rest(s, expr@, self.state(), 5),
            ensures
                level_op(self.state(), 5) is None,
            decreases self.measure(),
        {
            let op = if is_symbol(&self.lookahead, '*') {
                DslBinaryOp::Mul
            } else if is_symbol(&self.lookahead, '/') {
                DslBinaryOp::Div
            } else if is_symbol(&self.lookahead, '%') {
                DslBinaryOp::Mod
            } else {
                break;
            };
            assert(level_op(self.state(), 5) == Some(op));
            self.bump()?;
            let rhs = self.parse_unary()?;
            expr = DslExpr::Binary { left: Box::new(expr), op, right: Box::new(rhs) };
        }
        Ok(expr)
    }

    fn parse_unary(&mut self) -> (r: Result<DslExpr, DslParseError>)
        requires
            old(self).wf(),
        ensures
            final(self).wf(),
            final(self).tokenizer.input == old(self).tokenizer.input,
            final(self).measure() <= old(self).measure(),
            r is Ok <==> p_unary(old(self).tokenizer.input@, old(self).state()) is Some,
            r matches Ok(e) ==> p_unary(old(self).tokenizer.input@, old(self).state()) == Some((e@, final(self).state())),
        decreases old(self).measure(), 3nat,
    {
        let w_not: Vec<char> = vec!['n', 'o', 't'];
        assert(w_not@ == seq!['n', 'o', 't']);
        if is_symbol(&self.lookahead, '-') {
            self.bump()?;
            let expr = self.parse_unary()?;
            Ok(DslExpr::Unary { op: DslUnaryOp::Neg, expr: Box::new(expr) })
        } else if is_operator(&self.lookahead, w_not.as_slice()) {
            self.bump()?;
            let expr = self.parse_unary()?;
            Ok(DslExpr::Unary { op: DslUnaryOp::Not, expr: Box::new(expr) })
        } else {
            self.parse_postfix()
        }
    }

    #[verifier::rlimit(50)]
    fn parse_postfix(&mut self) -> (r: Result<DslExpr, DslParseError>)
        requires
            old(self).wf(),
        ensures
            final(self).wf(),
            final(self).tokenizer.input == old(self).tokenizer.input,
            final(self).measure() <= old(self).measure(),
            r is Ok <==> p_postfix(old(self).tokenizer.input@, old(self).state()) is Some,
            r matches Ok(e) ==> p_postfix(old(self).tokenizer.input@, old(self).state()) == Some(
                (e@, final(self).state()),
            ),
        decreases old(self).measure(), 2nat,
    {
        let ghost s = self.tokenizer.input@;
        let ghost st0 = self.state();
        let mut expr = self.parse_primary()?;
        loop
            invariant
                self.wf(),
                self.tokenizer.input == old(self).tokenizer.input,
                s == self.tokenizer.input@,
                st0 == old(self).state(),
                self.measure() <= old(self).measure(),
                p_postfix(s, st0) == p_postfix_rest(s, expr@, self.state()),
            ensures
                p_postfix_rest(s, expr@, self.state()) == Some((expr@, self.state())),
            decreases self.measure(),
        {
            let ghost e0 = expr@;
            if is_symbol(&self.lookahead, '(') {
                self.bump()?;
                let args = self.parse_call_args()?;
                expr = DslExpr::Call { callee: Box::new(expr), args };
                assert(expr@ == ExprV::Call { callee: Box::new(e0), args: dsl_args_view(args@) });
            } else if is_symbol(&self.lookahead, '[') {
                self.bump()?;
                let index = self.parse_or()?;
                self.expect_symbol(']')?;
                expr = DslExpr::Index { target: Box::new(expr), index: Box::new(index) };
            } else if is_symbol(&self.lookahead, '.') {
                self.bump()?;
                let name = match &self.lookahead {
                    Token::Ident(name) => from_chars(name.as_slice()),
                    _ => {
                        return Err(DslParseError::Expression(str_to_string("expected identifier after '.'")));
                    },
                };
                self.bump()?;
                expr = DslExpr::Attribute { target: Box::new(expr), attribute: name };
            } else {
                break;
            }
        }
        Ok(expr)
    }

    fn parse_primary(&mut self) -> (r: Result<DslExpr, DslParseError>)
        requires
            old(self).wf(),
        ensures
            final(self).wf(),
            final(self).tokenizer.input == old(self).tokenizer.input,
            final(self).measure() <= old(self).measure(),
            r is Ok <==> p_primary(old(self).tokenizer.input@, old(self).state()) is Some,
            r matches Ok(e) ==> p_primary(old(self).tokenizer.input@, old(self).state()) == Some(
                (e@, final(self).state()),
            ),
        decreases old(self).measure(), 1nat,
    {
        let ghost s = self.tokenizer.input@;
        let ghost st0 = self.state();
        match &self.lookahead {
            Token::Ident(name) => {
                let name = from_chars(name.as_slice());
                self.bump()?;
                Ok(DslExpr::Identifier(name))
            },
            Token::True => {
                self.bump()?;
                Ok(DslExpr::Literal(DslLiteral::Bool(true)))
            },
            Token::False => {
                self.bump()?;
                Ok(DslExpr::Literal(DslLiteral::Bool(false)))
            },
            Token::NoneKw => {
                self.bump()?;
                Ok(DslExpr::Literal(DslLiteral::Null))
            },
            Token::Number(number) => {
                let number = from_chars(number.as_slice());
                self.bump()?;
                Ok(DslExpr::Literal(DslLiteral::Number(number)))
            },
            Token::Str(value) => {
                let value = from_chars(value.as_slice());
                self.bump()?;
                Ok(DslExpr::Literal(DslLiteral::String(value)))
            },
            Token::Bytes(bytes) => {
                let bytes = copy_bytes(bytes);
                self.bump()?;
                Ok(DslExpr::Literal(DslLiteral::Bytes(bytes)))
            },
            Token::Symbol('(') => {
                self.bump()?;
                let expr = self.parse_or()?;
                self.expect_symbol(')')?;
                Ok(expr)
            },
            Token::Symbol('[') => {
                self.bump()?;
                let mut items: Vec<DslExpr> = Vec::new();
                if !is_symbol(&self.lookahead, ']') {
                    let ghost st1 = self.state();
                    assert(dsl_exprs_view(items@) == Seq::<ExprV>::empty());
                    assert(p_primary(s, st0) == p_list_items(s, st1, Seq::empty()));
                    loop
                        invariant_except_break
                            p_list_items(s, st1, Seq::empty()) == p_list_items(s, self.state(), dsl_exprs_view(items@)),
                        invariant
                            self.wf(),
                            self.tokenizer.input == old(self).tokenizer.input,
                            s == self.tokenizer.input@,
                            self.measure() < old(self).measure(),
                            pm(s, self.state()) <= pm(s, st1),
                            st0 == old(self).state(),
                            p_primary(s, st0) == p_list_items(s, st1, Seq::empty()),
                        ensures
                            p_list_items(s, st1, Seq::empty()) == match expect_sym(s, self.state(), ']') {
                                None => None,
                                Some(st2) => Some((ExprV::ListLiteral(dsl_exprs_view(items@)), st2)),
                            },
                        decreases self.measure(),
                    {
                        let ghost acc = dsl_exprs_view(items@);
                        let item = self.parse_or()?;
                        proof {
                            lemma_dsl_exprs_view_push(items@, item);
                        }
                        items.push(item);
                        if is_symbol(&self.lookahead, ',') {
                            self.bump()?;
                            continue;
                        }
                        break;
                    }
                }
                self.expect_symbol(']')?;
                Ok(DslExpr::ListLiteral(items))
            },
            Token::Symbol('{') => {
                self.bump()?;
                let mut entries: Vec<(DslExpr, DslExpr)> = Vec::new();
                if !is_symbol(&self.lookahead, '}') {
                    let ghost st1 = self.state();
                    assert(dsl_entries_view(entries@) == Seq::<(ExprV, ExprV)>::empty());
                    assert(p_primary(s, st0) == p_map_items(s, st1, Seq::empty()));
                    loop
                        invariant_except_break
                            p_map_items(s, st1, Seq::empty()) == p_map_items(s, self.state(), dsl_entries_view(entries@)),
                        invariant
                            self.wf(),
                            self.tokenizer.input == old(self).tokenizer.input,
                            s == self.tokenizer.input@,
                            self.measure() < old(self).measure(),
                            pm(s, self.state()) <= pm(s, st1),
                            st0 == old(self).state(),
                            p_primary(s, st0) == p_map_items(s, st1, Seq::empty()),
                        ensures
                            p_map_items(s, st1, Seq::empty()) == match expect_sym(s, self.state(), '}') {
                                None => None,
                                Some(st2) => Some((ExprV::MapLiteral(dsl_entries_view(entries@)), st2)),
                            },
                        decreases self.measure(),
                    {
                        let key = self.parse_or()?;
                        self.expect_symbol(':')?;
                        let value = self.parse_or()?;
                        proof {
                            lemma_dsl_entries_view_push(entries@, (key, value));
                        }
                        entries.push((key, value));
                        if is_symbol(&self.lookahead, ',') {
                            self.bump()?;
                            continue;
                        }
                        break;
                    }
                }
                self.expect_symbol('}')?;
                Ok(DslExpr::MapLiteral(entries))
            },
            _ => {
                let shown = token_debug(&self.lookahead);
                Err(DslParseError::Expression(message(&["unexpected token: ", shown.as_str()])))
            },
        }
    }

    #[verifier::rlimit(40)]
    fn parse_call_args(&mut self) -> (r: Result<Vec<DslCallArg>, DslParseError>)
        requires
            old(self).wf(),
        ensures
            final(self).wf(),
            final(self).tokenizer.input == old(self).tokenizer.input,
            final(self).measure() <= old(self).measure(),
            r is Ok <==> p_call_args(old(self).tokenizer.input@, old(self).state()) is Some,
            r matches Ok(a) ==> p_call_args(old(self).tokenizer.input@, old(self).state()) == Some(
                (dsl_args_view(a@), final(self).state()),
            ),
        decreases old(self).measure(), 11nat,
    {
        let ghost s = self.tokenizer.input@;
        let ghost st0 = self.state();
        let mut args: Vec<DslCallArg> = Vec::new();
        assert(dsl_args_view(args@) == Seq::<(Option<Seq<char>>, ExprV)>::empty());
        if !is_symbol(&self.lookahead, ')') {
            assert(p_call_args(s, st0) == p_args_items(s, st0, Seq::empty()));
            loop
                invariant_except_break
                    p_args_items(s, st0, Seq::empty()) == p_args_items(s, self.state(), dsl_args_view(args@)),
                invariant
                    self.wf(),
                    self.tokenizer.input == old(self).tokenizer.input,
                    s == self.tokenizer.input@,
                    st0 == old(self).state(),
                    self.measure() <= old(self).measure(),
                    p_call_args(s, st0) == p_args_items(s, st0, Seq::empty()),
                ensures
                    p_args_items(s, st0, Seq::empty()) == match expect_sym(s, self.state(), ')') {
                        None => None,
                        Some(st2) => Some((dsl_args_view(args@), st2)),
                    },
                decreases self.measure(),
            {
                if self.peek_is_named_arg() {
                    let arg = self.parse_named_arg()?;
                    proof {
                        lemma_dsl_args_view_push(args@, arg);
                    }
                    args.push(arg);
                } else {
                    let value = self.parse_or()?;
                    let arg = DslCallArg::Positional(value);
                    proof {
                        lemma_dsl_args_view_push(args@, arg);
                    }
                    args.push(arg);
                }
                if is_symbol(&self.lookahead, ',') {
                    self.bump()?;
                    continue;
                }
                break;
            }
        }
        self.expect_symbol(')')?;
        Ok(args)
    }

    /// Whether the next two tokens are an identifier and `=`.
    fn peek_is_named_arg(&self) -> (r: bool)
        requires
            self.wf(),
        ensures
            r == peek_named(self.tokenizer.input@, self.state()),
    {
        if !is_ident(&self.lookahead) {
            return false;
        }
        let mut tokenizer = self.tokenizer;
        let w_assign: Vec<char> = vec!['='];
        assert(w_assign@ == seq!['=']);
        match tokenizer.next_token() {
            Ok(t) => is_operator(&t, w_assign.as_slice()),
            Err(_) => false,
        }
    }

    fn parse_named_arg(&mut self) -> (r: Result<DslCallArg, DslParseError>)
        requires
            old(self).wf(),
        ensures
            final(self).wf(),
            final(self).tokenizer.input == old(self).tokenizer.input,
            final(self).measure() <= old(self).measure(),
            r is Ok <==> p_named_arg(old(self).tokenizer.input@, old(self).state()) is Some,
            r matches Ok(a) ==> p_named_arg(old(self).tokenizer.input@, old(self).state()) == Some(
                (dsl_arg_view(a), final(self).state()),
            ),
        decreases old(self).measure(), 10nat,
    {
        let name = match &self.lookahead {
            Token::Ident(name) => from_chars(name.as_slice()),
            _ => {
                return Err(DslParseError::Expression(str_to_string("expected identifier for named arg")));
            },
        };
        self.bump()?;
        let w_assign: Vec<char> = vec!['='];
        assert(w_assign@ == seq!['=']);
        if is_operator(&self.lookahead, w_assign.as_slice()) {
            self.bump()?;
        } else {
            return Err(DslParseError::Expression(str_to_string("expected '=' in named arg")));
        }
        let value = self.parse_or()?;
        Ok(DslCallArg::Named { name, value })
    }

    fn expect_symbol(&mut self, symbol: char) -> (r: Result<(), DslParseError>)
        requires
            old(self).wf(),
        ensures
            final(self).wf(),
            final(self).tokenizer.input == old(self).tokenizer.input,
            final(self).measure() <= old(self).measure(),
            (r is Ok && !(old(self).lookahead is Eof)) ==> final(self).measure() < old(self).measure(),
            r is Ok <==> expect_sym(old(self).tokenizer.input@, old(self).state(), symbol) is Some,
            r is Ok ==> expect_sym(old(self).tokenizer.input@, old(self).state(), symbol) == Some(final(self).state()),
    {
        if is_symbol(&self.lookahead, symbol) {
            self.bump()?;
            Ok(())
        } else {
            let mut cs: Vec<char> = Vec::new();
            cs.push(symbol);
            let shown = from_chars(cs.as_slice());
            Err(DslParseError::Expression(message(&["expected '", shown.as_str(), "'"])))
        }
    }
}

/// Appending an expression appends its value.
proof fn lemma_dsl_exprs_view_push(s: Seq<DslExpr>, e: DslExpr)
    ensures
        dsl_exprs_view(s.push(e)) == dsl_exprs_view(s).push(e@),
{
    assert(s.push(e).drop_last() == s);
}

/// Appending an entry appends its value.
proof fn lemma_dsl_entries_view_push(s: Seq<(DslExpr, DslExpr)>, e: (DslExpr, DslExpr))
    ensures
        dsl_entries_view(s.push(e)) == dsl_entries_view(s).push((e.0@, e.1@)),
{
    assert(s.push(e).drop_last() == s);
}

/// Appending an argument appends its value.
/// The value of each argument of a list, position by position.
pub proof fn lemma_dsl_args_view_index(s: Seq<DslCallArg>)
    ensures
        dsl_args_view(s).len() == s.len(),
        forall|k: int| 0 <= k < s.len() ==> #[trigger] dsl_args_view(s)[k] == dsl_arg_view(s[k]),
    decreases s.len(),
{
    if s.len() > 0 {
        lemma_dsl_args_view_index(s.drop_last());
    }
}

proof fn lemma_dsl_args_view_push(s: Seq<DslCallArg>, a: DslCallArg)
    ensures
        dsl_args_view(s.push(a)) == dsl_args_view(s).push(dsl_arg_view(a)),
{
    assert(s.push(a).drop_last() == s);
}

/// Parses one expression; tokens after the first complete expression are ignored.
pub(crate) fn parse_expr(input: &[char]) -> (r: Result<DslExpr, DslParseError>)
    ensures
        r is Ok <==> spec_parse_expr(input@) is Some,
        r matches Ok(e) ==> spec_parse_expr(input@) == Some(e@),
{
    let parser = ExprParser::new(input)?;
    parser.parse()
}


/// Nesting depth, string state and previous character while scanning a statement line.
pub ghost struct ScanState {
    pub depth: nat,
    pub in_string: bool,
    pub prev: char,
}

/// Reading one character: quotes not preceded by a backslash toggle string mode; brackets
/// outside strings nest and unnest (never below zero).
pub open spec fn scan_step(st: ScanState, ch: char) -> ScanState {
    let moved = if ch == '"' && st.prev != '\\' {
        ScanState { in_string: !st.in_string, ..st }
    } else if (ch == '(' || ch == '[' || ch == '{') && !st.in_string {
        ScanState { depth: st.depth + 1, ..st }
    } else if (ch == ')' || ch == ']' || ch == '}') && !st.in_string && st.depth > 0 {
        ScanState { depth: (st.depth - 1) as nat, ..st }
    } else {
        st
    };
    ScanState { prev: ch, ..moved }
}

/// The scanning state after reading `s`.
pub open spec fn scan_fold(s: Seq<char>) -> ScanState
    decreases s.len(),
{
    if s.len() == 0 {
        ScanState { depth: 0, in_string: false, prev: '\0' }
    } else {
        scan_step(scan_fold(s.drop_last()), s.last())
    }
}

fn scan_step_exec(depth: usize, in_string: bool, prev: char, ch: char, bound: Ghost<nat>) -> (r: (usize, bool, char))
    requires
        depth <= bound@,
        bound@ < usize::MAX,
    ensures
        scan_step(ScanState { depth: depth as nat, in_string, prev }, ch) == (ScanState {
            depth: r.0 as nat,
            in_string: r.1,
            prev: r.2,
        }),
        r.0 <= bound@ + 1,
{
    if ch == '"' && prev != '\\' {
        (depth, !in_string, ch)
    } else if (ch == '(' || ch == '[' || ch == '{') && !in_string {
        (depth + 1, in_string, ch)
    } else if (ch == ')' || ch == ']' || ch == '}') && !in_string && depth > 0 {
        (depth - 1, in_string, ch)
    } else {
        (depth, in_string, ch)
    }
}

/// Whether a statement line has an open bracket outside strings.
pub open spec fn spec_needs_continuation(s: Seq<char>) -> bool {
    scan_fold(s).depth > 0
}

fn needs_continuation(line: &[char]) -> (r: bool)
    ensures
        r == spec_needs_continuation(line@),
{
    let mut depth: usize = 0;
    let mut in_string = false;
    let mut prev = '\0';
    let mut i: usize = 0;
    while i < line.len()
        invariant
            i <= line@.len(),
            depth <= i,
            scan_fold(line@.subrange(0, i as int)) == (ScanState { depth: depth as nat, in_string, prev }),
        decreases line@.len() - i,
    {
        proof {
            assert(line@.subrange(0, i + 1).drop_last() == line@.subrange(0, i as int));
        }
        let (d, s, p) = scan_step_exec(depth, in_string, prev, line[i], Ghost(i as nat));
        depth = d;
        in_string = s;
        prev = p;
        i = i + 1;
    }
    assert(line@.subrange(0, line@.len() as int) == line@);
    depth > 0
}

/// The first `=` outside brackets and strings.
pub open spec fn is_assign_at(s: Seq<char>, idx: int) -> bool {
    &&& 0 <= idx < s.len()
    &&& s[idx] == '='
    &&& scan_fold(s.subrange(0, idx)).depth == 0
    &&& !scan_fold(s.subrange(0, idx)).in_string
}

/// The trimmed sides of a plain assignment `target = value`, when the first top-level `=`
/// has text on both sides.
pub open spec fn spec_split_assignment(s: Seq<char>) -> Option<(Seq<char>, Seq<char>)> {
    if exists|idx: int| is_assign_at(s, idx) {
        let idx = choose|idx: int| is_assign_at(s, idx) && forall|j: int| 0 <= j < idx ==> !is_assign_at(s, j);
        let before = spec_trim(s.subrange(0, idx));
        let after = spec_trim(s.subrange(idx + 1, s.len() as int));
        if before.len() == 0 || after.len() == 0 {
            None
        } else {
            Some((before, after))
        }
    } else {
        None
    }
}

pub(crate) fn split_assignment(line: &[char]) -> (r: Option<(Vec<char>, Vec<char>)>)
    ensures
        match r {
            Some((a, b)) => spec_split_assignment(line@) == Some((a@, b@)),
            None => spec_split_assignment(line@) is None,
        },
{
    let mut depth: usize = 0;
    let mut in_string = false;
    let mut prev = '\0';
    let mut i: usize = 0;
    while i < line.len()
        invariant
            i <= line@.len(),
            depth <= i,
            scan_fold(line@.subrange(0, i as int)) == (ScanState { depth: depth as nat, in_string, prev }),
            forall|j: int| 0 <= j < i ==> !is_assign_at(line@, j),
        decreases line@.len() - i,
    {
        let ch = line[i];
        proof {
            assert(line@.subrange(0, i + 1).drop_last() == line@.subrange(0, i as int));
        }
        if ch == '=' && depth == 0 && !in_string {
            assert(is_assign_at(line@, i as int));
            let before = trim(copy_range(line, 0, i).as_slice());
            let after = trim(copy_range(line, i + 1, line.len()).as_slice());
            proof {
                let idx = choose|idx: int| is_assign_at(line@, idx) && forall|j: int| 0 <= j < idx ==> !is_assign_at(line@, j);
                assert(idx == i);
            }
            if before.len() == 0 || after.len() == 0 {
                return None;
            }
            return Some((before, after));
        }
        let (d, s, p) = scan_step_exec(depth, in_string, prev, ch, Ghost(i as nat));
        depth = d;
        in_string = s;
        prev = p;
        i = i + 1;
    }
    None
}

/// An augmented assignment operator (`+=` or `-=`) starting at `idx`, outside brackets and strings
/// once the character at `idx` has been read.
pub open spec fn is_aug_at(s: Seq<char>, idx: int) -> bool {
    &&& 0 <= idx && idx + 1 < s.len()
    &&& scan_fold(s.subrange(0, idx + 1)).depth == 0
    &&& !scan_fold(s.subrange(0, idx + 1)).in_string
    &&& (s[idx] == '+' || s[idx] == '-')
    &&& s[idx + 1] == '='
}

/// The trimmed target, operator and value of `target += value` or `target -= value`.
pub open spec fn spec_split_augmented(s: Seq<char>) -> Option<(Seq<char>, Seq<char>, Seq<char>)> {
    if exists|idx: int| is_aug_at(s, idx) {
        let idx = choose|idx: int| is_aug_at(s, idx) && forall|j: int| 0 <= j < idx ==> !is_aug_at(s, j);
        let before = spec_trim(s.subrange(0, idx));
        let after = spec_trim(s.subrange(idx + 2, s.len() as int));
        if before.len() == 0 || after.len() == 0 {
            None
        } else {
            Some((before, s.subrange(idx, idx + 2), after))
        }
    } else {
        None
    }
}

fn split_augmented_assignment(line: &[char]) -> (r: Option<(Vec<char>, Vec<char>, Vec<char>)>)
    ensures
        match r {
            Some((a, o, b)) => spec_split_augmented(line@) == Some((a@, o@, b@)),
            None => spec_split_augmented(line@) is None,
        },
{
    let mut depth: usize = 0;
    let mut in_string = false;
    let mut prev = '\0';
    let mut i: usize = 0;
    while i < line.len() && i + 1 < line.len()
        invariant
            i <= line@.len(),
            depth <= i,
            scan_fold(line@.subrange(0, i as int)) == (ScanState { depth: depth as nat, in_string, prev }),
            forall|j: int| 0 <= j < i ==> !is_aug_at(line@, j),
        decreases line@.len() - i,
    {
        let ch = line[i];
        proof {
            assert(line@.subrange(0, i + 1).drop_last() == line@.subrange(0, i as int));
        }
        let (d, s, p) = scan_step_exec(depth, in_string, prev, ch, Ghost(i as nat));
        depth = d;
        in_string = s;
        if depth == 0 && !in_string && (ch == '+' || ch == '-') && line[i + 1] == '=' {
            assert(is_aug_at(line@, i as int));
            let before = trim(copy_range(line, 0, i).as_slice());
            let after = trim(copy_range(line, i + 2, line.len()).as_slice());
            let op = copy_range(line, i, i + 2);
            proof {
                let idx = choose|idx: int| is_aug_at(line@, idx) && forall|j: int| 0 <= j < idx ==> !is_aug_at(line@, j);
                assert(idx == i);
            }
            if before.len() == 0 || after.len() == 0 {
                return None;
            }
            return Some((before, op, after));
        }
        assert(!is_aug_at(line@, i as int));
        prev = p;
        i = i + 1;
    }
    assert forall|j: int| 0 <= j implies !is_aug_at(line@, j) by {
        if j >= i {
            assert(j + 1 >= line@.len());
        }
    }
    None
}


/// A copy of a byte vector.
pub fn copy_bytes(v: &Vec<u8>) -> (r: Vec<u8>)
    ensures
        r@ == v@,
{
    let mut out: Vec<u8> = Vec::new();
    let mut i: usize = 0;
    while i < v.len()
        invariant
            i <= v@.len(),
            out@ == v@.subrange(0, i as int),
        decreases v@.len() - i,
    {
        out.push(v[i]);
        i = i + 1;
        assert(out@ == v@.subrange(0, i as int));
    }
    assert(v@.subrange(0, v@.len() as int) == v@);
    out
}

impl DslLiteral {
    /// A copy of this literal.
    pub fn copy(&self) -> (r: DslLiteral)
        ensures
            r.view_lit() == self.view_lit(),
    {
        match self {
            DslLiteral::Bool(b) => DslLiteral::Bool(*b),
            DslLiteral::Number(n) => DslLiteral::Number(n.clone()),
            DslLiteral::Bytes(b) => DslLiteral::Bytes(copy_bytes(b)),
            DslLiteral::String(v) => DslLiteral::String(v.clone()),
            DslLiteral::Null => DslLiteral::Null,
        }
    }
}

impl DslExpr {
    /// A copy of this expression.
    #[verifier::loop_isolation(false)]
    pub fn copy(&self) -> (r: DslExpr)
        ensures
            r@ == self@,
        decreases self,
    {
        match self {
            DslExpr::Identifier(name) => DslExpr::Identifier(name.clone()),
            DslExpr::Literal(lit) => DslExpr::Literal(lit.copy()),
            DslExpr::ListLiteral(items) => {
                let mut out: Vec<DslExpr> = Vec::new();
                let mut i: usize = 0;
                while i < items.len()
                    invariant
                        i <= items@.len(),
                        dsl_exprs_view(out@) == dsl_exprs_view(items@.subrange(0, i as int)),
                    decreases items@.len() - i,
                {
                    proof {
                        assert(decreases_to!(self => *items));
                        assert(decreases_to!(*items => items@));
                        assert(decreases_to!(items@ => items@[i as int]));
                    }
                    let e = items[i].copy();
                    proof {
                        lemma_dsl_exprs_view_push(out@, e);
                        lemma_dsl_exprs_view_push(items@.subrange(0, i as int), items@[i as int]);
                        assert(items@.subrange(0, i as int).push(items@[i as int]) == items@.subrange(0, i + 1));
                    }
                    out.push(e);
                    i = i + 1;
                }
                assert(items@.subrange(0, items@.len() as int) == items@);
                DslExpr::ListLiteral(out)
            },
            DslExpr::MapLiteral(entries) => {
                let mut out: Vec<(DslExpr, DslExpr)> = Vec::new();
                let mut i: usize = 0;
                while i < entries.len()
                    invariant
                        i <= entries@.len(),
                        dsl_entries_view(out@) == dsl_entries_view(entries@.subrange(0, i as int)),
                    decreases entries@.len() - i,
                {
                    proof {
                        assert(decreases_to!(self => *entries));
                        assert(decreases_to!(*entries => entries@));
                        assert(decreases_to!(entries@ => entries@[i as int]));
                        assert(decreases_to!(entries@[i as int] => entries@[i as int].0));
                        assert(decreases_to!(entries@[i as int] => entries@[i as int].1));
                    }
                    let k = entries[i].0.copy();
                    let v = entries[i].1.copy();
                    proof {
                        lemma_dsl_entries_view_push(out@, (k, v));
                        lemma_dsl_entries_view_push(entries@.subrange(0, i as int), entries@[i as int]);
                        assert(entries@.subrange(0, i as int).push(entries@[i as int]) == entries@.subrange(0, i + 1));
                    }
                    out.push((k, v));
                    i = i + 1;
                }
                assert(entries@.subrange(0, entries@.len() as int) == entries@);
                DslExpr::MapLiteral(out)
            },
            DslExpr::Binary { left, op, right } => DslExpr::Binary {
                left: Box::new((**left).copy()),
                op: *op,
                right: Box::new((**right).copy()),
            },
            DslExpr::Unary { op, expr } => DslExpr::Unary { op: *op, expr: Box::new((**expr).copy()) },
            DslExpr::Call { callee, args } => {
                let mut out: Vec<DslCallArg> = Vec::new();
                let mut i: usize = 0;
                while i < args.len()
                    invariant
                        i <= args@.len(),
                        dsl_args_view(out@) == dsl_args_view(args@.subrange(0, i as int)),
                    decreases args@.len() - i,
                {
                    proof {
                        assert(decreases_to!(self => *args));
                        assert(decreases_to!(*args => args@));
                        assert(decreases_to!(args@ => args@[i as int]));
                    }
                    let a = match &args[i] {
                        DslCallArg::Positional(e) => DslCallArg::Positional(e.copy()),
                        DslCallArg::Named { name, value } => DslCallArg::Named {
                            name: name.clone(),
                            value: value.copy(),
                        },
                    };
                    proof {
                        lemma_dsl_args_view_push(out@, a);
                        lemma_dsl_args_view_push(args@.subrange(0, i as int), args@[i as int]);
                        assert(args@.subrange(0, i as int).push(args@[i as int]) == args@.subrange(0, i + 1));
                    }
                    out.push(a);
                    i = i + 1;
                }
                assert(args@.subrange(0, args@.len() as int) == args@);
                DslExpr::Call { callee: Box::new((**callee).copy()), args: out }
            },
            DslExpr::Index { target, index } => DslExpr::Index {
                target: Box::new((**target).copy()),
                index: Box::new((**index).copy()),
            },
            DslExpr::Attribute { target, attribute } => DslExpr::Attribute {
                target: Box::new((**target).copy()),
                attribute: attribute.clone(),
            },
        }
    }
}

impl DslParseError {
    /// The message of the error.
    pub open spec fn spec_text(self) -> Seq<char> {
        match self {
            DslParseError::MissingModule => "missing module name"@,
            DslParseError::UnexpectedTopLevel(s) => "unexpected top-level content: "@ + s@,
            DslParseError::InvalidSignature { signature, reason } => "invalid function signature `"@ + signature@ + "`: "@ + reason@,
            DslParseError::Statement(s) => "statement parse error: "@ + s@,
            DslParseError::Expression(s) => "expression parse error: "@ + s@,
        }
    }

    /// The message of the error, as its `Display` shows it.
    pub fn text(&self) -> (r: String)
        ensures
            r@ == self.spec_text(),
    {
        match self {
            DslParseError::MissingModule => {
                let parts = ["missing module name"];
                assert(parts@ == seq!["missing module name"]);
                proof {
                    reveal_with_fuel(crate::text::spec_concat, 2);
                }
                crate::text::message(&parts)
            },
            DslParseError::UnexpectedTopLevel(s) => {
                let p1 = s.as_str();
                let parts = ["unexpected top-level content: ", p1];
                assert(parts@ == seq!["unexpected top-level content: ", p1]);
                proof {
                    reveal_with_fuel(crate::text::spec_concat, 3);
                }
                crate::text::message(&parts)
            },
            DslParseError::InvalidSignature { signature, reason } => {
                let p1 = signature.as_str();
                let p3 = reason.as_str();
                let parts = ["invalid function signature `", p1, "`: ", p3];
                assert(parts@ == seq!["invalid function signature `", p1, "`: ", p3]);
                proof {
                    reveal_with_fuel(crate::text::spec_concat, 5);
                }
                crate::text::message(&parts)
            },
            DslParseError::Statement(s) => {
                let p1 = s.as_str();
                let parts = ["statement parse error: ", p1];
                assert(parts@ == seq!["statement parse error: ", p1]);
                proof {
                    reveal_with_fuel(crate::text::spec_concat, 3);
                }
                crate::text::message(&parts)
            },
            DslParseError::Expression(s) => {
                let p1 = s.as_str();
                let parts = ["expression parse error: ", p1];
                assert(parts@ == seq!["expression parse error: ", p1]);
                proof {
                    reveal_with_fuel(crate::text::spec_concat, 3);
                }
                crate::text::message(&parts)
            },
        }
    }
}

/// The message of an error, as its `Display` shows it.
pub fn error_text(e: &DslParseError) -> (r: String)
    ensures
        r@ == e.spec_text(),
{
    e.text()
}

/// `line <n>` with the one-based number of a zero-based line index.
fn line_label(line_no: usize) -> (r: String)
    requires
        line_no < usize::MAX,
{
    let n = decimal(line_no + 1);
    let mut cs: Vec<char> = vec!['l', 'i', 'n', 'e', ' '];
    let mut n2 = n;
    cs.append(&mut n2);
    from_chars(cs.as_slice())
}

/// A statement error located at a line.
fn statement_error(line_no: usize, what: &str) -> DslParseError
    requires
        line_no < usize::MAX,
{
    let label = line_label(line_no);
    DslParseError::Statement(message(&[label.as_str(), ": ", what]))
}

/// An expression error located at a line, quoting the text that failed.
fn located_expression_error(line_no: usize, err: DslParseError, text: &[char]) -> DslParseError
    requires
        line_no < usize::MAX,
{
    let label = line_label(line_no);
    let inner = error_text(&err);
    let shown = from_chars(text);
    DslParseError::Expression(message(&[label.as_str(), ": ", inner.as_str(), " in `", shown.as_str(), "`"]))
}

/// The parse of `text`, with errors located at a line.
fn parse_expr_at(line_no: usize, text: &[char]) -> (r: Result<DslExpr, DslParseError>)
    requires
        line_no < usize::MAX,
    ensures
        r is Ok <==> spec_parse_expr(text@) is Some,
        r matches Ok(e) ==> spec_parse_expr(text@) == Some(e@),
{
    match parse_expr(text) {
        Ok(e) => Ok(e),
        Err(err) => Err(located_expression_error(line_no, err, text)),
    }
}

/// The number of leading spaces.
pub open spec fn spec_indent(line: Seq<char>) -> nat
    decreases line.len(),
{
    if line.len() > 0 && line[0] == ' ' {
        1 + spec_indent(line.drop_first())
    } else {
        0
    }
}

/// The number of leading spaces of a line.
fn indent_of(line: &[char]) -> (r: usize)
    ensures
        r == spec_indent(line@),
        r <= line@.len(),
{
    let mut i: usize = 0;
    assert(line@.subrange(0, line@.len() as int) == line@);
    while i < line.len() && line[i] == ' '
        invariant
            i <= line@.len(),
            spec_indent(line@) == i + spec_indent(line@.subrange(i as int, line@.len() as int)),
        decreases line@.len() - i,
    {
        assert(line@.subrange(i as int, line@.len() as int).drop_first() == line@.subrange(i + 1, line@.len() as int));
        i = i + 1;
    }
    i
}

/// Whether a line is empty once trailing white space is removed.
pub(crate) fn is_blank(line: &[char]) -> (r: bool)
    ensures
        r == (spec_trim_end(line@).len() == 0),
{
    let t = trim_end(line);
    t.len() == 0
}

/// The pieces before and after the first `c`.
pub(crate) fn split_once_char(s: &[char], c: char) -> (r: Option<(Vec<char>, Vec<char>)>)
    ensures
        match r {
            Some((a, b)) => spec_split_char(s@, c) == Some((a@, b@)),
            None => spec_split_char(s@, c) is None,
        },
{
    match find_char(s, c) {
        Some(i) => {
            assert(s@.len() == s.len());
            assert(s@.contains(c)) by {
                assert(s@[i as int] == c);
            }
            proof {
                let k = choose|k: int| 0 <= k < s@.len() && s@[k] == c && forall|j: int| 0 <= j < k ==> s@[j] != c;
                assert(k == i);
            }
            Some((copy_range(s, 0, i), copy_range(s, i + 1, s.len())))
        },
        None => {
            assert(!s@.contains(c));
            None
        },
    }
}

/// The pieces before and after the first occurrence of `pat`.
pub(crate) fn split_once_str(s: &[char], pat: &[char]) -> (r: Option<(Vec<char>, Vec<char>)>)
    ensures
        match r {
            Some((a, b)) => spec_split_str(s@, pat@) == Some((a@, b@)),
            None => spec_split_str(s@, pat@) is None,
        },
{
    match find_str(s, pat) {
        Some(i) => {
            assert(s@.len() == s.len());
            assert(spec_starts_with(s@.subrange(i as int, s@.len() as int), pat@)) by {
                assert(s@.subrange(i as int, s@.len() as int).subrange(0, pat@.len() as int) == s@.subrange(
                    i as int,
                    i + pat@.len(),
                ));
            }
            proof {
                let k = choose|k: int|
                    0 <= k <= s@.len() && spec_starts_with(s@.subrange(k, s@.len() as int), pat@) && forall|m: int|
                        0 <= m < k ==> !(#[trigger] spec_starts_with(s@.subrange(m, s@.len() as int), pat@));
                assert(k == i);
            }
            Some((copy_range(s, 0, i), copy_range(s, i + pat.len(), s.len())))
        },
        None => None,
    }
}

/// The value of a statement.
pub ghost enum StmtV {
    Let { name: Seq<char>, ty: Option<TypeView>, value: ExprV },
    Assign { target: ExprV, value: ExprV },
    If { branches: Seq<(ExprV, Seq<StmtV>)>, else_branch: Option<Seq<StmtV>> },
    While { condition: ExprV, body: Seq<StmtV> },
    For { binding: Seq<char>, iterable: ExprV, body: Seq<StmtV> },
    Return(Option<ExprV>),
    Raise(ExprV),
    Break,
    Continue,
    Pass,
    Expr(ExprV),
}

impl DslStmt {
    /// The value of the statement.
    pub open spec fn view_stmt(&self) -> StmtV
        decreases self, 0nat,
    {
        match self {
            DslStmt::Let { name, ty, value } => StmtV::Let {
                name: name@,
                ty: match ty {
                    Some(t) => Some(t@),
                    None => None,
                },
                value: value@,
            },
            DslStmt::Assign { target, value } => StmtV::Assign { target: target@, value: value@ },
            DslStmt::If { branches, else_branch } => {
                proof {
                    assert(decreases_to!(self => *branches));
                }
                StmtV::If {
                    branches: dsl_branches_view(branches@),
                    else_branch: match else_branch {
                        Some(b) => {
                            proof {
                                assert(decreases_to!(self => *b));
                            }
                            Some(dsl_stmts_view(b@))
                        },
                        None => None,
                    },
                }
            },
            DslStmt::While { condition, body } => {
                proof {
                    assert(decreases_to!(self => *body));
                }
                StmtV::While { condition: condition@, body: dsl_stmts_view(body@) }
            },
            DslStmt::For { binding, iterable, body } => {
                proof {
                    assert(decreases_to!(self => *body));
                }
                StmtV::For { binding: binding@, iterable: iterable@, body: dsl_stmts_view(body@) }
            },
            DslStmt::Return(v) => StmtV::Return(
                match v {
                    Some(e) => Some(e@),
                    None => None,
                },
            ),
            DslStmt::Raise(e) => StmtV::Raise(e@),
            DslStmt::Break => StmtV::Break,
            DslStmt::Continue => StmtV::Continue,
            DslStmt::Pass => StmtV::Pass,
            DslStmt::Expr(e) => StmtV::Expr(e@),
        }
    }
}

/// The values of a list of statements.
pub open spec fn dsl_stmts_view(s: Seq<DslStmt>) -> Seq<StmtV>
    decreases s, s.len(),
{
    if s.len() == 0 {
        Seq::empty()
    } else {
        proof {
            assert(decreases_to!(s => s[s.len() - 1]));
        }
        dsl_stmts_view(s.drop_last()).push(s[s.len() - 1].view_stmt())
    }
}

/// The values of a list of `if`/`elif` branches: condition and body.
pub open spec fn dsl_branches_view(s: Seq<DslIfBranch>) -> Seq<(ExprV, Seq<StmtV>)>
    decreases s, s.len(),
{
    if s.len() == 0 {
        Seq::empty()
    } else {
        proof {
            assert(decreases_to!(s => s[s.len() - 1]));
            assert(decreases_to!(s[s.len() - 1] => s[s.len() - 1].body));
        }
        dsl_branches_view(s.drop_last()).push((s[s.len() - 1].condition@, dsl_stmts_view(s[s.len() - 1].body@)))
    }
}

impl View for DslStmt {
    type V = StmtV;

    open spec fn view(&self) -> StmtV {
        self.view_stmt()
    }
}

/// The first occurrence of `c`, splitting `s` around it.
pub open spec fn spec_split_char(s: Seq<char>, c: char) -> Option<(Seq<char>, Seq<char>)> {
    if s.contains(c) {
        let i = choose|i: int| 0 <= i < s.len() && s[i] == c && forall|j: int| 0 <= j < i ==> s[j] != c;
        Some((s.subrange(0, i), s.subrange(i + 1, s.len() as int)))
    } else {
        None
    }
}

/// The first occurrence of `pat`, splitting `s` around it.
pub open spec fn spec_split_str(s: Seq<char>, pat: Seq<char>) -> Option<(Seq<char>, Seq<char>)> {
    if exists|j: int| 0 <= j <= s.len() && #[trigger] spec_starts_with(s.subrange(j, s.len() as int), pat) {
        let j = choose|j: int|
            0 <= j <= s.len() && spec_starts_with(s.subrange(j, s.len() as int), pat) && forall|k: int|
                0 <= k < j ==> !(#[trigger] spec_starts_with(s.subrange(k, s.len() as int), pat));
        Some((s.subrange(0, j), s.subrange(j + pat.len(), s.len() as int)))
    } else {
        None
    }
}

/// The line `line` extended by the following non-blank lines, trimmed and joined with a
/// space, while it leaves a bracket open; and the index of the first line not taken.
pub open spec fn sp_collect(ls: Seq<(usize, Seq<char>)>, idx: int, line: Seq<char>) -> Option<(Seq<char>, int)>
    decreases ls.len() - idx,
{
    if !spec_needs_continuation(line) {
        Some((line, idx))
    } else if idx < 0 || idx >= ls.len() {
        None
    } else {
        let t = spec_trim(ls[idx].1);
        if t.len() == 0 {
            sp_collect(ls, idx + 1, line)
        } else {
            sp_collect(ls, idx + 1, line + seq![' '] + t)
        }
    }
}

/// The first line at or after `idx` that is not blank (or the end).
pub open spec fn first_nonblank(ls: Seq<(usize, Seq<char>)>, idx: int) -> int
    decreases ls.len() - idx,
{
    if 0 <= idx < ls.len() && spec_trim_end(ls[idx].1).len() == 0 {
        first_nonblank(ls, idx + 1)
    } else {
        idx
    }
}

/// The statements of the block at `idx` indented deeper than `indent`: the lines of the
/// block's own indentation (the first such line fixes it), blank lines skipped; the block
/// ends at the first line indented `indent` or less. Returns them after `acc`, with the index
/// of the line after the block.
pub open spec fn sp_block(
    ls: Seq<(usize, Seq<char>)>,
    idx: int,
    indent: int,
    bi: Option<int>,
    acc: Seq<StmtV>,
) -> Option<(Seq<StmtV>, int)>
    decreases ls.len() - idx, 0nat,
{
    if idx < 0 || idx >= ls.len() {
        Some((acc, idx))
    } else {
        let line = ls[idx].1;
        if spec_trim_end(line).len() == 0 {
            sp_block(ls, idx + 1, indent, bi, acc)
        } else {
            let ci = spec_indent(line) as int;
            if ci <= indent {
                Some((acc, idx))
            } else {
                let b = match bi {
                    Some(b) => b,
                    None => ci,
                };
                if ci != b {
                    None
                } else {
                    let text = spec_trim(line);
                    if text.len() == 0 {
                        sp_block(ls, idx + 1, indent, Some(b), acc)
                    } else {
                        match sp_statement(ls, idx + 1, text, b) {
                            None => None,
                            Some((st, idx2)) => if idx < idx2 <= ls.len() {
                                sp_block(ls, idx2, indent, Some(b), acc.push(st))
                            } else {
                                None
                            },
                        }
                    }
                }
            }
        }
    }
}

/// The `elif` and `else` branches at `indent` that follow the `if` branches `branches`, from
/// line `idx`.
pub open spec fn sp_if_rest(
    ls: Seq<(usize, Seq<char>)>,
    idx: int,
    indent: int,
    branches: Seq<(ExprV, Seq<StmtV>)>,
) -> Option<(StmtV, int)>
    decreases ls.len() - idx, 1nat,
{
    let done = Some((StmtV::If { branches, else_branch: None }, idx));
    if idx < 0 || idx >= ls.len() {
        done
    } else {
        let nl = ls[idx].1;
        let nt = spec_trim(nl);
        if spec_indent(nl) != indent {
            done
        } else if spec_starts_with(nt, seq!['e', 'l', 'i', 'f', ' ']) {
            let cond = spec_trim(spec_trim_end_matches(nt.subrange(5, nt.len() as int), ':'));
            match sp_block(ls, idx + 1, indent, None, Seq::empty()) {
                None => None,
                Some((body, idx1)) => match spec_parse_expr(cond) {
                    None => None,
                    Some(c) => if idx < idx1 <= ls.len() {
                        sp_if_rest(ls, idx1, indent, branches.push((c, body)))
                    } else {
                        None
                    },
                },
            }
        } else if nt == seq!['e', 'l', 's', 'e', ':'] {
            match sp_block(ls, idx + 1, indent, None, Seq::empty()) {
                None => None,
                Some((body, idx1)) => Some((StmtV::If { branches, else_branch: Some(body) }, idx1)),
            }
        } else {
            done
        }
    }
}

/// The body of a block statement at `indent` whose header ends before line `idx`: the
/// indented block, or the one statement on the next line at the same indentation.
pub open spec fn sp_inline_body(ls: Seq<(usize, Seq<char>)>, idx: int, indent: int) -> Option<(Seq<StmtV>, int)>
    decreases ls.len() - idx, 2nat,
{
    let c = first_nonblank(ls, idx);
    if idx < 0 || c >= ls.len() {
        None
    } else {
        let ci = spec_indent(ls[c].1) as int;
        if ci > indent {
            sp_block(ls, idx, indent, None, Seq::empty())
        } else if ci < indent {
            None
        } else if idx >= ls.len() {
            None
        } else {
            match sp_statement(ls, idx + 1, spec_trim(ls[idx].1), indent) {
                None => None,
                Some((st, idx2)) => Some((seq![st], idx2)),
            }
        }
    }
}

/// An `if` statement whose header, after `if `, is `rest`: the condition and its body, then
/// the `elif`/`else` branches.
pub open spec fn sp_if_stmt(ls: Seq<(usize, Seq<char>)>, idx: int, rest: Seq<char>, indent: int) -> Option<(StmtV, int)>
    decreases ls.len() - idx, 3nat,
{
    let cond = spec_trim(spec_trim_end_matches(rest, ':'));
    match sp_inline_body(ls, idx, indent) {
        None => None,
        Some((body, idx1)) => match spec_parse_expr(cond) {
            None => None,
            Some(c) => if idx <= idx1 <= ls.len() {
                sp_if_rest(ls, idx1, indent, seq![(c, body)])
            } else {
                None
            },
        },
    }
}

/// A `while` statement whose header, after `while `, is `rest`.
pub open spec fn sp_while_stmt(ls: Seq<(usize, Seq<char>)>, idx: int, rest: Seq<char>, indent: int) -> Option<
    (StmtV, int),
>
    decreases ls.len() - idx, 3nat,
{
    let cond = spec_trim(spec_trim_end_matches(rest, ':'));
    match sp_inline_body(ls, idx, indent) {
        None => None,
        Some((body, idx1)) => match spec_parse_expr(cond) {
            None => None,
            Some(c) => Some((StmtV::While { condition: c, body }, idx1)),
        },
    }
}

/// A `for` statement whose header, after `for `, is `rest`: `binding in iterable`.
pub open spec fn sp_for_stmt(ls: Seq<(usize, Seq<char>)>, idx: int, rest: Seq<char>, indent: int) -> Option<
    (StmtV, int),
>
    decreases ls.len() - idx, 3nat,
{
    let r = spec_trim(spec_trim_end_matches(rest, ':'));
    match spec_split_str(r, seq![' ', 'i', 'n', ' ']) {
        None => None,
        Some((binding, iterable)) => match sp_inline_body(ls, idx, indent) {
            None => None,
            Some((body, idx1)) => match spec_parse_expr(spec_trim(iterable)) {
                None => None,
                Some(it) => Some((StmtV::For { binding: spec_trim(binding), iterable: it, body }, idx1)),
            },
        },
    }
}

/// A `let` statement whose text, after `let `, is `rest`: `name [: type] = value`.
pub open spec fn sp_let_stmt(ls: Seq<(usize, Seq<char>)>, idx: int, rest: Seq<char>) -> Option<(StmtV, int)> {
    match sp_collect(ls, idx, spec_trim(rest)) {
        None => None,
        Some((text, idx1)) => match spec_split_char(text, '=') {
            None => None,
            Some((left, right)) => {
                let binding: Option<(Seq<char>, Option<TypeView>)> = match spec_split_char(left, ':') {
                    Some((rn, rt)) => {
                        let n = spec_trim(rn);
                        let t = spec_trim(rt);
                        if n.len() == 0 || t.len() == 0 {
                            None
                        } else {
                            match spec_parse_type(t) {
                                None => None,
                                Some(ty) => Some((n, Some(ty))),
                            }
                        }
                    },
                    None => {
                        let n = spec_trim(left);
                        if n.len() == 0 {
                            None
                        } else {
                            Some((n, None))
                        }
                    },
                };
                match binding {
                    None => None,
                    Some((n, ty)) => match spec_parse_expr(spec_trim(right)) {
                        None => None,
                        Some(v) => Some((StmtV::Let { name: n, ty, value: v }, idx1)),
                    },
                }
            },
        },
    }
}

/// An augmented assignment `left op right`, read as `left = left + right` (or `-`).
pub open spec fn sp_augmented(left: Seq<char>, op: Seq<char>, right: Seq<char>) -> Option<StmtV> {
    match (spec_parse_expr(left), spec_parse_expr(right)) {
        (Some(t), Some(r)) => if op == seq!['+', '='] {
            Some(
                StmtV::Assign {
                    target: t,
                    value: ExprV::Binary { left: Box::new(t), op: DslBinaryOp::Add, right: Box::new(r) },
                },
            )
        } else if op == seq!['-', '='] {
            Some(
                StmtV::Assign {
                    target: t,
                    value: ExprV::Binary { left: Box::new(t), op: DslBinaryOp::Sub, right: Box::new(r) },
                },
            )
        } else {
            None
        },
        _ => None,
    }
}

/// Each operator symbol of an expression denotes the operator that computes what the symbol
/// means, on any operands.
pub proof fn law_operator_symbols(st: PState, a: int, b: int)
    ensures
        st.la == TokenView::Symbol('+') ==> (level_op(st, 4) matches Some(op) && spec_dsl_binary_value(op, a, b) == a + b),
        st.la == TokenView::Symbol('-') ==> (level_op(st, 4) matches Some(op) && spec_dsl_binary_value(op, a, b) == a - b),
        st.la == TokenView::Symbol('*') ==> (level_op(st, 5) matches Some(op) && spec_dsl_binary_value(op, a, b) == a * b),
        st.la == TokenView::Symbol('/') ==> (level_op(st, 5) matches Some(op) && spec_dsl_binary_value(op, a, b) == a / b),
        st.la == TokenView::Symbol('%') ==> (level_op(st, 5) matches Some(op) && spec_dsl_binary_value(op, a, b) == a % b),
        st.la == TokenView::Operator(seq!['<']) ==> (level_op(st, 3) matches Some(op) && spec_dsl_binary_value(op, a, b)
            == if a < b { 1int } else { 0 }),
        st.la == TokenView::Operator(seq!['<', '=']) ==> (level_op(st, 3) matches Some(op) && spec_dsl_binary_value(
            op,
            a,
            b,
        ) == if a <= b { 1int } else { 0 }),
        st.la == TokenView::Operator(seq!['>']) ==> (level_op(st, 3) matches Some(op) && spec_dsl_binary_value(op, a, b)
            == if a > b { 1int } else { 0 }),
        st.la == TokenView::Operator(seq!['>', '=']) ==> (level_op(st, 3) matches Some(op) && spec_dsl_binary_value(
            op,
            a,
            b,
        ) == if a >= b { 1int } else { 0 }),
        st.la == TokenView::Operator(seq!['=', '=']) ==> (level_op(st, 2) matches Some(op) && spec_dsl_binary_value(
            op,
            a,
            b,
        ) == if a == b { 1int } else { 0 }),
        st.la == TokenView::Operator(seq!['!', '=']) ==> (level_op(st, 2) matches Some(op) && spec_dsl_binary_value(
            op,
            a,
            b,
        ) == if a != b { 1int } else { 0 }),
{
    let lt = seq!['<'];
    let le = seq!['<', '='];
    let gt = seq!['>'];
    let ge = seq!['>', '='];
    assert(lt != le && gt != ge) by {
        assert(lt.len() != le.len() && gt.len() != ge.len());
    }
    assert(gt != lt && gt != le && ge != lt && ge != le) by {
        assert(gt[0] != lt[0] && gt[0] != le[0] && ge[0] != lt[0] && ge[0] != le[0]);
    }
    assert(seq!['!', '='] != seq!['=', '=']) by {
        assert(seq!['!', '='][0] != seq!['=', '='][0]);
    }
}

/// An augmented assignment `t += e` reads as `t = t + e`, and `t -= e` as `t = t - e`: the
/// target is assigned the operator applied to the target and the value, and the operator
/// adds, or subtracts, on any operands.
pub proof fn law_augmented_assignment(left: Seq<char>, right: Seq<char>, a: int, b: int)
    requires
        spec_parse_expr(left) is Some,
        spec_parse_expr(right) is Some,
    ensures
        (sp_augmented(left, seq!['+', '='], right) matches Some(StmtV::Assign { target, value: ExprV::Binary { left: l, op, right: r } })
            && target == spec_parse_expr(left)->Some_0 && *l == target && *r == spec_parse_expr(right)->Some_0
            && spec_dsl_binary_value(op, a, b) == a + b),
        (sp_augmented(left, seq!['-', '='], right) matches Some(StmtV::Assign { target, value: ExprV::Binary { left: l, op, right: r } })
            && target == spec_parse_expr(left)->Some_0 && *l == target && *r == spec_parse_expr(right)->Some_0
            && spec_dsl_binary_value(op, a, b) == a - b),
{
}

/// The statement on a joined line that is an assignment (`=`, `+=`, `-=`) or an expression.
pub open spec fn sp_simple_text(l2: Seq<char>) -> Option<StmtV> {
    match spec_split_augmented(l2) {
        Some((left, op, right)) => sp_augmented(left, op, right),
        None => match spec_split_assignment(l2) {
            Some((left, right)) => match (spec_parse_expr(left), spec_parse_expr(right)) {
                (Some(t), Some(v)) => Some(StmtV::Assign { target: t, value: v }),
                _ => None,
            },
            None => match spec_parse_expr(l2) {
                None => None,
                Some(x) => Some(StmtV::Expr(x)),
            },
        },
    }
}

/// An assignment or expression statement, extended by continuation lines.
pub open spec fn sp_simple_stmt(ls: Seq<(usize, Seq<char>)>, idx: int, line: Seq<char>) -> Option<(StmtV, int)> {
    match sp_collect(ls, idx, line) {
        None => None,
        Some((l2, idx1)) => match sp_simple_text(l2) {
            None => None,
            Some(st) => Some((st, idx1)),
        },
    }
}

/// A `return` or `raise` statement's expression text `e`, extended by continuation lines.
pub open spec fn sp_keyword_expr(ls: Seq<(usize, Seq<char>)>, idx: int, e: Seq<char>) -> Option<(ExprV, int)> {
    match sp_collect(ls, idx, e) {
        None => None,
        Some((t, idx1)) => match spec_parse_expr(t) {
            None => None,
            Some(x) => Some((x, idx1)),
        },
    }
}

/// The statement on a line, trimmed, at `indent`; `idx` is the index of the next line.
/// Returns it with the index of the first line it does not take.
pub open spec fn sp_statement(ls: Seq<(usize, Seq<char>)>, idx: int, line: Seq<char>, indent: int) -> Option<
    (StmtV, int),
>
    decreases ls.len() - idx, 4nat,
{
    if spec_starts_with(line, seq!['r', 'e', 't', 'u', 'r', 'n']) {
        let e = spec_trim(line.subrange(6, line.len() as int));
        if e.len() == 0 {
            Some((StmtV::Return(None), idx))
        } else {
            match sp_keyword_expr(ls, idx, e) {
                None => None,
                Some((x, idx1)) => Some((StmtV::Return(Some(x)), idx1)),
            }
        }
    } else if spec_starts_with(line, seq!['r', 'a', 'i', 's', 'e']) {
        let e = spec_trim(line.subrange(5, line.len() as int));
        if e.len() == 0 {
            None
        } else {
            match sp_keyword_expr(ls, idx, e) {
                None => None,
                Some((x, idx1)) => Some((StmtV::Raise(x), idx1)),
            }
        }
    } else if line == seq!['b', 'r', 'e', 'a', 'k'] {
        Some((StmtV::Break, idx))
    } else if line == seq!['c', 'o', 'n', 't', 'i', 'n', 'u', 'e'] {
        Some((StmtV::Continue, idx))
    } else if line == seq!['p', 'a', 's', 's'] {
        Some((StmtV::Pass, idx))
    } else if spec_starts_with(line, seq!['i', 'f', ' ']) {
        sp_if_stmt(ls, idx, line.subrange(3, line.len() as int), indent)
    } else if spec_starts_with(line, seq!['w', 'h', 'i', 'l', 'e', ' ']) {
        sp_while_stmt(ls, idx, line.subrange(6, line.len() as int), indent)
    } else if spec_starts_with(line, seq!['f', 'o', 'r', ' ']) {
        sp_for_stmt(ls, idx, line.subrange(4, line.len() as int), indent)
    } else if spec_starts_with(line, seq!['l', 'e', 't', ' ']) {
        sp_let_stmt(ls, idx, line.subrange(4, line.len() as int))
    } else {
        sp_simple_stmt(ls, idx, line)
    }
}

/// Line-indexed statements of a function body.
struct BlockParser {
    lines: Vec<(usize, Vec<char>)>,
    index: usize,
}

impl BlockParser {
    spec fn wf(&self) -> bool {
        &&& self.index <= self.lines@.len()
        &&& forall|k: int| 0 <= k < self.lines@.len() ==> #[trigger] self.lines@[k].0 < usize::MAX
    }

    spec fn left(&self) -> nat {
        (self.lines@.len() - self.index) as nat
    }

    /// The lines, numbered, as characters.
    spec fn lv(&self) -> Seq<(usize, Seq<char>)> {
        lines_view(self.lines@)
    }

    fn new(lines: Vec<(usize, Vec<char>)>) -> (r: Self)
        requires
            forall|k: int| 0 <= k < lines@.len() ==> #[trigger] lines@[k].0 < usize::MAX,
        ensures
            r.wf(),
            r.index == 0,
            r.lines@ == lines@,
    {
        BlockParser { lines, index: 0 }
    }

    fn next_line(&mut self) -> (r: Option<(usize, Vec<char>)>)
        requires
            old(self).wf(),
        ensures
            final(self).wf(),
            final(self).lines == old(self).lines,
            r is Some <==> old(self).index < old(self).lines@.len(),
            r is Some ==> final(self).index == old(self).index + 1,
            r is None ==> final(self).index == old(self).index,
            r matches Some((n, l)) ==> n < usize::MAX && l@ == old(self).lv()[old(self).index as int].1,
    {
        if self.index >= self.lines.len() {
            return None;
        }
        let n = self.lines[self.index].0;
        let l = copy_range(self.lines[self.index].1.as_slice(), 0, self.lines[self.index].1.len());
        assert(self.lines[self.index as int].1@.subrange(0, self.lines[self.index as int].1@.len() as int)
            =~= self.lines[self.index as int].1@);
        self.index = self.index + 1;
        Some((n, l))
    }

    #[verifier::rlimit(40)]
    fn parse_block(&mut self, indent: usize) -> (r: Result<Vec<DslStmt>, DslParseError>)
        requires
            old(self).wf(),
        ensures
            final(self).wf(),
            final(self).lines == old(self).lines,
            old(self).index <= final(self).index,
            r is Ok <==> sp_block(old(self).lv(), old(self).index as int, indent as int, None, Seq::empty()) is Some,
            r matches Ok(v) ==> sp_block(old(self).lv(), old(self).index as int, indent as int, None, Seq::empty())
                == Some((dsl_stmts_view(v@), final(self).index as int)),
        decreases old(self).left(), 0nat,
    {
        let ghost ls = self.lv();
        let ghost target = sp_block(ls, self.index as int, indent as int, None, Seq::empty());
        let mut statements: Vec<DslStmt> = Vec::new();
        let mut block_indent: Option<usize> = None;
        assert(dsl_stmts_view(statements@) == Seq::<StmtV>::empty());
        while self.index < self.lines.len()
            invariant
                self.wf(),
                self.lines == old(self).lines,
                ls == self.lv(),
                old(self).index <= self.index,
                target == sp_block(ls, old(self).index as int, indent as int, None, Seq::empty()),
                target == sp_block(ls, self.index as int, indent as int, opt_int(block_indent), dsl_stmts_view(statements@)),
            ensures
                target == Some((dsl_stmts_view(statements@), self.index as int)),
            decreases self.left(),
        {
            let line = self.lines[self.index].1.as_slice();
            assert(line@ == ls[self.index as int].1);
            if is_blank(line) {
                self.index = self.index + 1;
                continue;
            }
            let current_indent = indent_of(line);
            if current_indent <= indent {
                break;
            }
            let bi = match block_indent {
                Some(b) => b,
                None => current_indent,
            };
            block_indent = Some(bi);
            if current_indent != bi {
                let trimmed = trim_end(line);
                let shown = from_chars(trimmed.as_slice());
                return Err(DslParseError::Statement(message(&["unexpected indent: ", shown.as_str()])));
            }
            let ghost here = self.index as int;
            let (line_no, line_text) = match self.next_line() {
                Some(x) => x,
                None => {
                    return Err(DslParseError::Statement(str_to_string("missing block body")));
                },
            };
            let line_text = trim(line_text.as_slice());
            if line_text.len() == 0 {
                continue;
            }
            let stmt = self.parse_statement(line_no, line_text.as_slice(), bi)?;
            proof {
                lemma_dsl_stmts_view_push(statements@, stmt);
            }
            statements.push(stmt);
        }
        Ok(statements)
    }

    #[verifier::rlimit(60)]
    fn parse_statement(&mut self, line_no: usize, line: &[char], indent: usize) -> (r: Result<DslStmt, DslParseError>)
        requires
            old(self).wf(),
            line_no < usize::MAX,
        ensures
            final(self).wf(),
            final(self).lines == old(self).lines,
            old(self).index <= final(self).index,
            r is Ok <==> sp_statement(old(self).lv(), old(self).index as int, line@, indent as int) is Some,
            r matches Ok(st) ==> sp_statement(old(self).lv(), old(self).index as int, line@, indent as int) == Some(
                (st@, final(self).index as int),
            ),
        decreases old(self).left(), 3nat,
    {
        let w_return: Vec<char> = vec!['r', 'e', 't', 'u', 'r', 'n'];
        let w_raise: Vec<char> = vec!['r', 'a', 'i', 's', 'e'];
        let w_break: Vec<char> = vec!['b', 'r', 'e', 'a', 'k'];
        let w_continue: Vec<char> = vec!['c', 'o', 'n', 't', 'i', 'n', 'u', 'e'];
        let w_pass: Vec<char> = vec!['p', 'a', 's', 's'];
        let w_if: Vec<char> = vec!['i', 'f', ' '];
        let w_while: Vec<char> = vec!['w', 'h', 'i', 'l', 'e', ' '];
        let w_for: Vec<char> = vec!['f', 'o', 'r', ' '];
        let w_let: Vec<char> = vec!['l', 'e', 't', ' '];
        assert(w_return@ == seq!['r', 'e', 't', 'u', 'r', 'n'] && w_raise@ == seq!['r', 'a', 'i', 's', 'e']
            && w_break@ == seq!['b', 'r', 'e', 'a', 'k'] && w_continue@ == seq!['c', 'o', 'n', 't', 'i', 'n', 'u', 'e']
            && w_pass@ == seq!['p', 'a', 's', 's'] && w_if@ == seq!['i', 'f', ' '] && w_while@ == seq![
            'w',
            'h',
            'i',
            'l',
            'e',
            ' ',
        ] && w_for@ == seq!['f', 'o', 'r', ' '] && w_let@ == seq!['l', 'e', 't', ' ']);
        if let Some(rest) = strip_prefix(line, w_return.as_slice()) {
            let expr = trim(rest.as_slice());
            if expr.len() == 0 {
                return Ok(DslStmt::Return(None));
            }
            let expr_line = self.collect_continuation(expr)?;
            let parsed = parse_expr_at(line_no, expr_line.as_slice())?;
            return Ok(DslStmt::Return(Some(parsed)));
        }
        if let Some(rest) = strip_prefix(line, w_raise.as_slice()) {
            let expr = trim(rest.as_slice());
            if expr.len() == 0 {
                return Err(statement_error(line_no, "raise missing expression"));
            }
            let expr_line = self.collect_continuation(expr)?;
            let parsed = parse_expr_at(line_no, expr_line.as_slice())?;
            return Ok(DslStmt::Raise(parsed));
        }
        if chars_eq(line, w_break.as_slice()) {
            return Ok(DslStmt::Break);
        }
        if chars_eq(line, w_continue.as_slice()) {
            return Ok(DslStmt::Continue);
        }
        if chars_eq(line, w_pass.as_slice()) {
            return Ok(DslStmt::Pass);
        }
        if let Some(rest) = strip_prefix(line, w_if.as_slice()) {
            return self.parse_if(rest.as_slice(), indent);
        }
        if let Some(rest) = strip_prefix(line, w_while.as_slice()) {
            return self.parse_while(rest.as_slice(), indent);
        }
        if let Some(rest) = strip_prefix(line, w_for.as_slice()) {
            return self.parse_for(line_no, rest.as_slice(), indent);
        }
        if let Some(rest) = strip_prefix(line, w_let.as_slice()) {
            return self.parse_let(line_no, rest.as_slice());
        }
        self.parse_simple(line_no, line)
    }

    /// An `if` statement, after `if `, with its `elif` and `else` branches.
    #[verifier::rlimit(60)]
    fn parse_if(&mut self, rest: &[char], indent: usize) -> (r: Result<DslStmt, DslParseError>)
        requires
            old(self).wf(),
        ensures
            final(self).wf(),
            final(self).lines == old(self).lines,
            old(self).index <= final(self).index,
            r is Ok <==> sp_if_stmt(old(self).lv(), old(self).index as int, rest@, indent as int) is Some,
            r matches Ok(st) ==> sp_if_stmt(old(self).lv(), old(self).index as int, rest@, indent as int) == Some(
                (st@, final(self).index as int),
            ),
        decreases old(self).left(), 2nat,
    {
        let ghost ls = self.lv();
        let w_elif: Vec<char> = vec!['e', 'l', 'i', 'f', ' '];
        let w_else: Vec<char> = vec!['e', 'l', 's', 'e', ':'];
        assert(w_elif@ == seq!['e', 'l', 'i', 'f', ' '] && w_else@ == seq!['e', 'l', 's', 'e', ':']);
        let condition = trim(trim_end_matches(rest, ':').as_slice());
        let body = self.parse_inline_body(indent)?;
        let first = parse_expr(condition.as_slice())?;
        let mut branches: Vec<DslIfBranch> = Vec::new();
        let ghost bv = dsl_stmts_view(body@);
        let ghost fv = first@;
        let branch0 = DslIfBranch { condition: first, body };
        proof {
            lemma_dsl_branches_view_push(branches@, branch0);
        }
        branches.push(branch0);
        assert(dsl_branches_view(branches@) =~= seq![(fv, bv)]);
        let ghost target = sp_if_stmt(ls, old(self).index as int, rest@, indent as int);
        let mut else_branch: Option<Vec<DslStmt>> = None;
        while self.index < self.lines.len()
            invariant_except_break
                else_branch is None,
                target == sp_if_rest(ls, self.index as int, indent as int, dsl_branches_view(branches@)),
            invariant
                self.wf(),
                self.lines == old(self).lines,
                ls == self.lv(),
                ls == old(self).lv(),
                target == sp_if_stmt(old(self).lv(), old(self).index as int, rest@, indent as int),
                old(self).index <= self.index,
                w_elif@ == seq!['e', 'l', 'i', 'f', ' '],
                w_else@ == seq!['e', 'l', 's', 'e', ':'],
            ensures
                target == Some(
                    (
                        StmtV::If {
                            branches: dsl_branches_view(branches@),
                            else_branch: match else_branch {
                                Some(b) => Some(dsl_stmts_view(b@)),
                                None => None,
                            },
                        },
                        self.index as int,
                    ),
                ),
            decreases self.left(),
        {
            let next_line = self.lines[self.index].1.as_slice();
            assert(next_line@ == ls[self.index as int].1);
            let next_trimmed = trim(next_line);
            let next_indent = indent_of(next_line);
            if next_indent != indent {
                break;
            }
            if let Some(elif_cond) = strip_prefix(next_trimmed.as_slice(), w_elif.as_slice()) {
                self.index = self.index + 1;
                let cond = trim(trim_end_matches(elif_cond.as_slice(), ':').as_slice());
                let body = self.parse_block(indent)?;
                let parsed = parse_expr(cond.as_slice())?;
                let branch = DslIfBranch { condition: parsed, body };
                proof {
                    lemma_dsl_branches_view_push(branches@, branch);
                }
                branches.push(branch);
                continue;
            }
            if chars_eq(next_trimmed.as_slice(), w_else.as_slice()) {
                self.index = self.index + 1;
                let body = self.parse_block(indent)?;
                else_branch = Some(body);
                break;
            }
            break;
        }
        Ok(DslStmt::If { branches, else_branch })
    }

    /// A `while` statement, after `while `.
    fn parse_while(&mut self, rest: &[char], indent: usize) -> (r: Result<DslStmt, DslParseError>)
        requires
            old(self).wf(),
        ensures
            final(self).wf(),
            final(self).lines == old(self).lines,
            old(self).index <= final(self).index,
            r is Ok <==> sp_while_stmt(old(self).lv(), old(self).index as int, rest@, indent as int) is Some,
            r matches Ok(st) ==> sp_while_stmt(old(self).lv(), old(self).index as int, rest@, indent as int) == Some(
                (st@, final(self).index as int),
            ),
        decreases old(self).left(), 2nat,
    {
        let condition = trim(trim_end_matches(rest, ':').as_slice());
        let body = self.parse_inline_body(indent)?;
        let parsed = parse_expr(condition.as_slice())?;
        Ok(DslStmt::While { condition: parsed, body })
    }

    /// A `for` statement, after `for `.
    #[verifier::rlimit(40)]
    fn parse_for(&mut self, line_no: usize, rest: &[char], indent: usize) -> (r: Result<DslStmt, DslParseError>)
        requires
            old(self).wf(),
            line_no < usize::MAX,
        ensures
            final(self).wf(),
            final(self).lines == old(self).lines,
            old(self).index <= final(self).index,
            r is Ok <==> sp_for_stmt(old(self).lv(), old(self).index as int, rest@, indent as int) is Some,
            r matches Ok(st) ==> sp_for_stmt(old(self).lv(), old(self).index as int, rest@, indent as int) == Some(
                (st@, final(self).index as int),
            ),
        decreases old(self).left(), 2nat,
    {
        let w_in: Vec<char> = vec![' ', 'i', 'n', ' '];
        assert(w_in@ == seq![' ', 'i', 'n', ' ']);
        let rest = trim(trim_end_matches(rest, ':').as_slice());
        let (binding, iterable) = match split_once_str(rest.as_slice(), w_in.as_slice()) {
            Some(x) => x,
            None => {
                return Err(statement_error(line_no, "invalid for-loop syntax"));
            },
        };
        let body = self.parse_inline_body(indent)?;
        let iterable = trim(iterable.as_slice());
        let iterable_expr = parse_expr_at(line_no, iterable.as_slice())?;
        let binding = trim(binding.as_slice());
        Ok(DslStmt::For { binding: from_chars(binding.as_slice()), iterable: iterable_expr, body })
    }

    /// A `let` statement, after `let `.
    #[verifier::rlimit(60)]
    fn parse_let(&mut self, line_no: usize, rest: &[char]) -> (r: Result<DslStmt, DslParseError>)
        requires
            old(self).wf(),
            line_no < usize::MAX,
        ensures
            final(self).wf(),
            final(self).lines == old(self).lines,
            old(self).index <= final(self).index,
            r is Ok <==> sp_let_stmt(old(self).lv(), old(self).index as int, rest@) is Some,
            r matches Ok(st) ==> sp_let_stmt(old(self).lv(), old(self).index as int, rest@) == Some(
                (st@, final(self).index as int),
            ),
    {
        let rest = trim(rest);
        let rest = self.collect_continuation(rest)?;
        let (left, right) = match split_once_char(rest.as_slice(), '=') {
            Some(x) => x,
            None => {
                return Err(statement_error(line_no, "let statement missing '='"));
            },
        };
        let (name, ty) = match split_once_char(left.as_slice(), ':') {
            Some((raw_name, raw_ty)) => {
                let name = trim(raw_name.as_slice());
                let ty = trim(raw_ty.as_slice());
                if name.len() == 0 || ty.len() == 0 {
                    return Err(statement_error(line_no, "invalid let binding"));
                }
                let parsed = parse_type(ty.as_slice())?;
                (name, Some(parsed))
            },
            None => {
                let name = trim(left.as_slice());
                if name.len() == 0 {
                    return Err(statement_error(line_no, "invalid let binding"));
                }
                (name, None)
            },
        };
        let right = trim(right.as_slice());
        let value = parse_expr_at(line_no, right.as_slice())?;
        Ok(DslStmt::Let { name: from_chars(name.as_slice()), ty, value })
    }

    /// An assignment or expression statement.
    fn parse_simple(&mut self, line_no: usize, line: &[char]) -> (r: Result<DslStmt, DslParseError>)
        requires
            old(self).wf(),
            line_no < usize::MAX,
        ensures
            final(self).wf(),
            final(self).lines == old(self).lines,
            old(self).index <= final(self).index,
            r is Ok <==> sp_simple_stmt(old(self).lv(), old(self).index as int, line@) is Some,
            r matches Ok(st) ==> sp_simple_stmt(old(self).lv(), old(self).index as int, line@) == Some(
                (st@, final(self).index as int),
            ),
    {
        let owned = copy_range(line, 0, line.len());
        assert(line@.subrange(0, line@.len() as int) =~= line@);
        let line = self.collect_continuation(owned)?;
        parse_simple_text(line_no, line.as_slice())
    }

    /// Joins the following lines while brackets are left open.
    fn collect_continuation(&mut self, line: Vec<char>) -> (r: Result<Vec<char>, DslParseError>)
        requires
            old(self).wf(),
        ensures
            final(self).wf(),
            final(self).lines == old(self).lines,
            old(self).index <= final(self).index,
            r is Ok <==> sp_collect(old(self).lv(), old(self).index as int, line@) is Some,
            r matches Ok(l) ==> sp_collect(old(self).lv(), old(self).index as int, line@) == Some(
                (l@, final(self).index as int),
            ),
    {
        let ghost ls = self.lv();
        let ghost target = sp_collect(ls, self.index as int, line@);
        let mut line = line;
        let mut complete = true;
        while needs_continuation(line.as_slice())
            invariant_except_break
                complete,
                target == sp_collect(ls, self.index as int, line@),
            invariant
                self.wf(),
                self.lines == old(self).lines,
                ls == self.lv(),
                old(self).index <= self.index,
            ensures
                complete ==> target == Some((line@, self.index as int)),
                !complete ==> target is None,
            decreases self.left(),
        {
            assert(ls.len() == self.lines@.len());
            if self.index >= self.lines.len() {
                assert(sp_collect(ls, self.index as int, line@) is None);
                complete = false;
                break;
            }
            let trimmed = trim(self.lines[self.index].1.as_slice());
            assert(trimmed@ == spec_trim(ls[self.index as int].1));
            assert(sp_collect(ls, self.index as int, line@) == if trimmed@.len() == 0 {
                sp_collect(ls, self.index + 1, line@)
            } else {
                sp_collect(ls, self.index + 1, line@ + seq![' '] + trimmed@)
            });
            self.index = self.index + 1;
            if trimmed.len() == 0 {
                continue;
            }
            let ghost before = line@;
            line.push(' ');
            let mut t = trimmed;
            line.append(&mut t);
            assert(line@ == before + seq![' '] + trimmed@);
        }
        if !complete {
            return Err(DslParseError::Expression(str_to_string("unexpected end of expression")));
        }
        Ok(line)
    }

    /// The body of a block statement: an indented block, or the next line at the same indent.
    fn parse_inline_body(&mut self, indent: usize) -> (r: Result<Vec<DslStmt>, DslParseError>)
        requires
            old(self).wf(),
        ensures
            final(self).wf(),
            final(self).lines == old(self).lines,
            old(self).index <= final(self).index,
            r is Ok <==> sp_inline_body(old(self).lv(), old(self).index as int, indent as int) is Some,
            r matches Ok(v) ==> sp_inline_body(old(self).lv(), old(self).index as int, indent as int) == Some(
                (dsl_stmts_view(v@), final(self).index as int),
            ),
        decreases old(self).left(), 1nat,
    {
        let ghost ls = self.lv();
        let mut cursor = self.index;
        while cursor < self.lines.len()
            invariant
                self.wf(),
                self.lines == old(self).lines,
                ls == self.lv(),
                self.index == old(self).index,
                self.index <= cursor <= self.lines@.len(),
                first_nonblank(ls, self.index as int) == first_nonblank(ls, cursor as int),
            decreases self.lines@.len() - cursor,
        {
            let line = self.lines[cursor].1.as_slice();
            assert(line@ == ls[cursor as int].1);
            if is_blank(line) {
                cursor = cursor + 1;
                continue;
            }
            let next_indent = indent_of(line);
            if next_indent > indent {
                return self.parse_block(indent);
            }
            if next_indent < indent {
                return Err(DslParseError::Statement(str_to_string("unexpected block end")));
            }
            let (line_no, line_text) = match self.next_line() {
                Some(x) => x,
                None => {
                    return Err(DslParseError::Statement(str_to_string("missing block body")));
                },
            };
            let text = trim(line_text.as_slice());
            let stmt = self.parse_statement(line_no, text.as_slice(), indent)?;
            let mut out: Vec<DslStmt> = Vec::new();
            proof {
                lemma_dsl_stmts_view_push(out@, stmt);
            }
            out.push(stmt);
            return Ok(out);
        }
        Err(DslParseError::Statement(str_to_string("missing block body")))
    }
}

/// An augmented assignment `left op right`.
fn parse_augmented(line_no: usize, left: &[char], op: &[char], right: &[char]) -> (r: Result<DslStmt, DslParseError>)
    requires
        line_no < usize::MAX,
    ensures
        r is Ok <==> sp_augmented(left@, op@, right@) is Some,
        r matches Ok(st) ==> sp_augmented(left@, op@, right@) == Some(st@),
{
    let w_plus_eq: Vec<char> = vec!['+', '='];
    let w_minus_eq: Vec<char> = vec!['-', '='];
    assert(w_plus_eq@ == seq!['+', '='] && w_minus_eq@ == seq!['-', '=']);
    let target = parse_expr_at(line_no, left)?;
    let rhs = parse_expr_at(line_no, right)?;
    let op = if chars_eq(op, w_plus_eq.as_slice()) {
        DslBinaryOp::Add
    } else if chars_eq(op, w_minus_eq.as_slice()) {
        DslBinaryOp::Sub
    } else {
        let shown = from_chars(op);
        let label = line_label(line_no);
        return Err(DslParseError::Statement(message(
            &[label.as_str(), ": unsupported assignment operator ", shown.as_str()],
        )));
    };
    let value = DslExpr::Binary { left: Box::new(target.copy()), op, right: Box::new(rhs) };
    Ok(DslStmt::Assign { target, value })
}

/// The assignment or expression statement on a joined line.
fn parse_simple_text(line_no: usize, line: &[char]) -> (r: Result<DslStmt, DslParseError>)
    requires
        line_no < usize::MAX,
    ensures
        r is Ok <==> sp_simple_text(line@) is Some,
        r matches Ok(st) ==> sp_simple_text(line@) == Some(st@),
{
    if let Some((left, op, right)) = split_augmented_assignment(line) {
        return parse_augmented(line_no, left.as_slice(), op.as_slice(), right.as_slice());
    }
    if let Some((left, right)) = split_assignment(line) {
        let target = parse_expr_at(line_no, left.as_slice())?;
        let value = parse_expr_at(line_no, right.as_slice())?;
        return Ok(DslStmt::Assign { target, value });
    }
    let parsed = parse_expr_at(line_no, line)?;
    Ok(DslStmt::Expr(parsed))
}

/// The numbered lines, as characters.
pub open spec fn lines_view(ls: Seq<(usize, Vec<char>)>) -> Seq<(usize, Seq<char>)> {
    ls.map_values(|p: (usize, Vec<char>)| (p.0, p.1@))
}

/// An optional indentation, as an integer.
pub open spec fn opt_int(b: Option<usize>) -> Option<int> {
    match b {
        Some(x) => Some(x as int),
        None => None,
    }
}

/// Appending a statement appends its value.
proof fn lemma_dsl_stmts_view_push(s: Seq<DslStmt>, st: DslStmt)
    ensures
        dsl_stmts_view(s.push(st)) == dsl_stmts_view(s).push(st@),
{
    assert(s.push(st).drop_last() == s);
}

/// Appending a branch appends its value.
proof fn lemma_dsl_branches_view_push(s: Seq<DslIfBranch>, b: DslIfBranch)
    ensures
        dsl_branches_view(s.push(b)) == dsl_branches_view(s).push((b.condition@, dsl_stmts_view(b.body@))),
{
    assert(s.push(b).drop_last() == s);
}


/// The value of a parameter.
pub ghost struct ParamV {
    pub name: Seq<char>,
    pub ty: Option<TypeView>,
}

/// The value of a function: name, parameters, return type and body.
pub ghost struct FunctionV {
    pub name: Seq<char>,
    pub params: Seq<ParamV>,
    pub return_type: Option<TypeView>,
    pub body: Seq<StmtV>,
}

/// The value of a struct declaration: its name and its named field types.
pub ghost struct StructV {
    pub name: Seq<char>,
    pub fields: Seq<(Seq<char>, TypeView)>,
}

/// The value of a module.
pub ghost struct ModuleV {
    pub name: Seq<char>,
    pub state_fields: Seq<(Seq<char>, TypeView)>,
    pub structs: Seq<StructV>,
    pub functions: Seq<FunctionV>,
}

impl View for DslParam {
    type V = ParamV;

    open spec fn view(&self) -> ParamV {
        ParamV {
            name: self.name@,
            ty: match self.ty {
                Some(t) => Some(t@),
                None => None,
            },
        }
    }
}

/// The named types of struct fields.
pub open spec fn struct_fields_view(s: Seq<DslStructField>) -> Seq<(Seq<char>, TypeView)> {
    s.map_values(|f: DslStructField| (f.name@, f.ty@))
}

/// The named types of state entries.
pub open spec fn state_fields_view(s: Seq<DslStateField>) -> Seq<(Seq<char>, TypeView)> {
    s.map_values(|f: DslStateField| (f.name@, f.ty@))
}

impl View for DslStruct {
    type V = StructV;

    open spec fn view(&self) -> StructV {
        StructV { name: self.name@, fields: struct_fields_view(self.fields@) }
    }
}

impl View for DslFunction {
    type V = FunctionV;

    open spec fn view(&self) -> FunctionV {
        FunctionV {
            name: self.name@,
            params: self.params@.map_values(|p: DslParam| p@),
            return_type: match self.return_type {
                Some(t) => Some(t@),
                None => None,
            },
            body: dsl_stmts_view(self.body@),
        }
    }
}

impl View for DslModule {
    type V = ModuleV;

    open spec fn view(&self) -> ModuleV {
        ModuleV {
            name: self.name@,
            state_fields: state_fields_view(self.state_fields@),
            structs: self.structs@.map_values(|d: DslStruct| d@),
            functions: self.functions@.map_values(|f: DslFunction| f@),
        }
    }
}

/// One piece of a parameter list: `None` where it is malformed, `Some(None)` where it is
/// blank, else the parameter (`name` or `name: type`).
pub open spec fn sp_param(piece: Seq<char>) -> Option<Option<ParamV>> {
    let param = spec_trim(piece);
    if param.len() == 0 {
        Some(None)
    } else {
        let parsed: Option<(Seq<char>, Option<TypeView>)> = match spec_split_char(param, ':') {
            Some((left, right)) => match spec_parse_type(spec_trim(right)) {
                None => None,
                Some(t) => Some((spec_trim(left), Some(t))),
            },
            None => Some((param, None)),
        };
        match parsed {
            None => None,
            Some((name, ty)) => if name.len() == 0 {
                None
            } else {
                Some(Some(ParamV { name, ty }))
            },
        }
    }
}

/// The parameters of the pieces from `i` on, after `acc`.
pub open spec fn sp_params_from(pieces: Seq<Seq<char>>, i: int, acc: Seq<ParamV>) -> Option<Seq<ParamV>>
    decreases pieces.len() - i,
{
    if i < 0 || i >= pieces.len() {
        Some(acc)
    } else {
        match sp_param(pieces[i]) {
            None => None,
            Some(None) => sp_params_from(pieces, i + 1, acc),
            Some(Some(p)) => sp_params_from(pieces, i + 1, acc.push(p)),
        }
    }
}

/// The parameters of a parameter list.
pub open spec fn sp_params(raw: Seq<char>) -> Option<Seq<ParamV>> {
    if raw.len() == 0 {
        Some(Seq::empty())
    } else {
        sp_params_from(spec_split_params(raw), 0, Seq::empty())
    }
}

/// A function name with a leading `pub ` and then `fn ` removed.
pub open spec fn sp_function_name(head_name: Seq<char>) -> Seq<char> {
    let n1 = if spec_starts_with(head_name, seq!['p', 'u', 'b', ' ']) {
        spec_trim_start(head_name.subrange(4, head_name.len() as int))
    } else {
        head_name
    };
    if spec_starts_with(n1, seq!['f', 'n', ' ']) {
        spec_trim_start(n1.subrange(3, n1.len() as int))
    } else {
        n1
    }
}

/// A signature without its `:` split at its first `->`: the trimmed head and the return type.
pub open spec fn sp_head_ret(sig: Seq<char>) -> Option<(Seq<char>, Option<TypeView>)> {
    match spec_split_str(sig, seq!['-', '>']) {
        Some((left, right)) => match spec_parse_type(spec_trim(right)) {
            None => None,
            Some(t) => Some((spec_trim(left), Some(t))),
        },
        None => Some((sig, None)),
    }
}

/// The name and the trimmed parameter text of a signature head `name(params)`: the
/// parameters lie between the first `(` and the last `)`.
pub open spec fn sp_head_parts(head: Seq<char>) -> Option<(Seq<char>, Seq<char>)> {
    match (spec_find(head, '('), spec_rfind(head, ')')) {
        (Some(open), Some(close)) => if close < open + 1 {
            None
        } else {
            let name = sp_function_name(spec_trim(head.subrange(0, open)));
            if name.len() == 0 {
                None
            } else {
                Some((name, spec_trim(head.subrange(open + 1, close))))
            }
        },
        _ => None,
    }
}

/// The function with signature `signature` (ending in `:`) and body lines `body`.
pub open spec fn sp_function(signature: Seq<char>, body: Seq<(usize, Seq<char>)>) -> Option<FunctionV> {
    let sig0 = spec_trim(signature);
    if !(sig0.len() > 0 && sig0.last() == ':') {
        None
    } else {
        match sp_head_ret(sig0.drop_last()) {
            None => None,
            Some((head, return_type)) => match sp_head_parts(head) {
                None => None,
                Some((name, params_raw)) => match sp_params(params_raw) {
                    None => None,
                    Some(params) => match sp_block(body, 0, 0, None, Seq::empty()) {
                        None => None,
                        Some((b, _)) => Some(FunctionV { name, params, return_type, body: b }),
                    },
                },
            },
        }
    }
}

/// One struct field line: `None` where it is malformed, `Some(None)` where it is blank or a
/// comment, else the field `name: type`.
pub open spec fn sp_field(line: Seq<char>) -> Option<Option<(Seq<char>, TypeView)>> {
    let t = spec_trim(line);
    if t.len() == 0 || t[0] == '#' {
        Some(None)
    } else {
        match spec_split_char(t, ':') {
            None => None,
            Some((n, ty)) => {
                let name = spec_trim(n);
                let tt = spec_trim(ty);
                if name.len() == 0 || tt.len() == 0 {
                    None
                } else {
                    match spec_parse_type(tt) {
                        None => None,
                        Some(tv) => Some(Some((name, tv))),
                    }
                }
            },
        }
    }
}

/// The struct fields of the lines from `i` on, after `acc`.
pub open spec fn sp_fields_from(ls: Seq<(usize, Seq<char>)>, i: int, acc: Seq<(Seq<char>, TypeView)>) -> Option<
    Seq<(Seq<char>, TypeView)>,
>
    decreases ls.len() - i,
{
    if i < 0 || i >= ls.len() {
        Some(acc)
    } else {
        match sp_field(ls[i].1) {
            None => None,
            Some(None) => sp_fields_from(ls, i + 1, acc),
            Some(Some(f)) => sp_fields_from(ls, i + 1, acc.push(f)),
        }
    }
}

/// From line `pos`: the indented lines up to the first non-blank line at indentation zero,
/// blank lines left out, numbered, after `acc`; and the index where they stop.
pub open spec fn sp_indented(lines: Seq<Seq<char>>, pos: int, acc: Seq<(usize, Seq<char>)>) -> (
    Seq<(usize, Seq<char>)>,
    int,
)
    decreases lines.len() - pos,
{
    if pos < 0 || pos >= lines.len() {
        (acc, pos)
    } else if spec_trim_end(lines[pos]).len() == 0 {
        sp_indented(lines, pos + 1, acc)
    } else if spec_indent(lines[pos]) == 0 {
        (acc, pos)
    } else {
        sp_indented(lines, pos + 1, acc.push((pos as usize, lines[pos])))
    }
}

/// Whether a signature is complete: it ends in `:` and holds `)`.
pub open spec fn sig_done(sig: Seq<char>) -> bool {
    spec_ends_with(spec_trim_end(sig), seq![':']) && sig.contains(')')
}

/// A signature joined with the following lines, trimmed, until it is complete; and the index
/// of the first line not taken.
pub open spec fn sp_signature(lines: Seq<Seq<char>>, pos: int, sig: Seq<char>) -> (Seq<char>, int)
    decreases lines.len() - pos,
{
    if sig_done(sig) || pos < 0 || pos >= lines.len() {
        (sig, pos)
    } else {
        sp_signature(lines, pos + 1, sig + seq![' '] + spec_trim(lines[pos]))
    }
}

/// A struct header `name:` (trimmed text `ts`) whose field lines start at `pos`: the struct
/// and the index after its fields.
pub open spec fn sp_struct_entry(lines: Seq<Seq<char>>, pos: int, ts: Seq<char>) -> Option<(StructV, int)> {
    let name = spec_trim(spec_trim_end_matches(ts, ':'));
    if name.len() == 0 {
        None
    } else {
        let (fl, p2) = sp_indented(lines, pos, Seq::empty());
        match sp_fields_from(fl, 0, Seq::empty()) {
            None => None,
            Some(fields) => Some((StructV { name, fields }, p2)),
        }
    }
}

/// A state entry `name: type` (trimmed text `ts`).
pub open spec fn sp_state_entry(ts: Seq<char>) -> Option<(Seq<char>, TypeView)> {
    match spec_split_char(ts, ':') {
        None => None,
        Some((n, t)) => {
            let name = spec_trim(n);
            let tt = spec_trim(t);
            if name.len() == 0 || tt.len() == 0 {
                None
            } else {
                match spec_parse_type(tt) {
                    None => None,
                    Some(tv) => Some((name, tv)),
                }
            }
        },
    }
}

/// A function whose first signature line `raw` comes before line `pos`: the function and
/// the index after its body.
pub open spec fn sp_function_entry(lines: Seq<Seq<char>>, pos: int, raw: Seq<char>) -> Option<(FunctionV, int)> {
    let (sig, p1) = sp_signature(lines, pos, spec_trim(raw));
    let (body, p2) = sp_indented(lines, p1, Seq::empty());
    match sp_function(sig, body) {
        None => None,
        Some(f) => Some((f, p2)),
    }
}

/// The state of reading a module: the next line, what was read so far and the open section.
pub ghost struct MState {
    pub pos: int,
    pub name: Option<Seq<char>>,
    pub state_fields: Seq<(Seq<char>, TypeView)>,
    pub structs: Seq<StructV>,
    pub functions: Seq<FunctionV>,
    pub in_functions: bool,
    pub in_state: bool,
    pub in_structs: bool,
}

/// Why a line of a module is refused: a top-level line, before the module's name, that does
/// not open a section the module may start with (its text, trimmed at the start); or another
/// reason.
pub ghost enum ModuleRefusal {
    TopLevel(Seq<char>),
    Other,
}

/// Reading one line of a module: the next state, or why the line is refused.
pub open spec fn sp_module_step(lines: Seq<Seq<char>>, st: MState) -> Result<MState, ModuleRefusal> {
    let raw = lines[st.pos];
    let s = MState { pos: st.pos + 1, ..st };
    let te = spec_trim_end(raw);
    let ts = spec_trim_start(te);
    let top = spec_indent(raw) == 0;
    let header_like = spec_ends_with(ts, seq![':']) && !ts.contains('(');
    if te.len() == 0 || (ts.len() > 0 && ts[0] == '#') {
        Ok(s)
    } else if top && spec_starts_with(ts, seq!['m', 'o', 'd', 'u', 'l', 'e', ':']) {
        Ok(
            MState {
                name: Some(spec_trim(spec_trim_start_matches(ts, seq!['m', 'o', 'd', 'u', 'l', 'e', ':']))),
                ..s
            },
        )
    } else if top && spec_starts_with(ts, seq!['s', 't', 'a', 't', 'e', ':']) {
        Ok(MState { in_state: true, in_functions: false, in_structs: false, ..s })
    } else if top && spec_starts_with(ts, seq!['s', 't', 'r', 'u', 'c', 't', 's', ':']) {
        Ok(MState { in_structs: true, in_state: false, in_functions: false, ..s })
    } else if top && spec_starts_with(ts, seq!['f', 'u', 'n', 'c', 't', 'i', 'o', 'n', 's', ':']) {
        Ok(MState { in_functions: true, in_state: false, in_structs: false, ..s })
    } else if s.in_structs && header_like {
        match sp_struct_entry(lines, s.pos, ts) {
            None => Err(ModuleRefusal::Other),
            Some((d, p2)) => Ok(MState { pos: p2, structs: s.structs.push(d), ..s }),
        }
    } else {
        let s2 = if s.in_structs && top {
            MState { in_structs: false, ..s }
        } else {
            s
        };
        if s2.in_state {
            match sp_state_entry(ts) {
                None => Err(ModuleRefusal::Other),
                Some(f) => Ok(MState { state_fields: s2.state_fields.push(f), ..s2 }),
            }
        } else if top && s2.in_functions {
            if header_like {
                Ok(MState { in_functions: false, ..s2 })
            } else {
                match sp_function_entry(lines, s2.pos, raw) {
                    None => Err(ModuleRefusal::Other),
                    Some((f, p2)) => Ok(MState { pos: p2, functions: s2.functions.push(f), ..s2 }),
                }
            }
        } else if top && s2.name is None && !spec_starts_with(ts, seq!['i', 'm', 'p', 'o', 'r', 't', 's', ':'])
            && !spec_starts_with(ts, seq!['s', 't', 'a', 't', 'e', ':']) {
            Err(ModuleRefusal::TopLevel(ts))
        } else {
            Ok(s2)
        }
    }
}

/// The state after reading the lines from `st.pos` on, in state `st`, or why a line is
/// refused.
pub open spec fn sp_module_walk(lines: Seq<Seq<char>>, st: MState) -> Result<MState, ModuleRefusal>
    decreases lines.len() - st.pos,
{
    if st.pos < 0 || st.pos >= lines.len() {
        Ok(st)
    } else {
        match sp_module_step(lines, st) {
            Err(e) => Err(e),
            Ok(s2) => if st.pos < s2.pos <= lines.len() {
                sp_module_walk(lines, s2)
            } else {
                Err(ModuleRefusal::Other)
            },
        }
    }
}

/// The module read from the lines from `st.pos` on, in state `st`: the state at the end, when
/// no line is refused and a module name was read.
pub open spec fn sp_module_from(lines: Seq<Seq<char>>, st: MState) -> Option<ModuleV> {
    match sp_module_walk(lines, st) {
        Err(_) => None,
        Ok(f) => match f.name {
            None => None,
            Some(n) => Some(ModuleV { name: n, state_fields: f.state_fields, structs: f.structs, functions: f.functions }),
        },
    }
}

/// The state in which a module is read from its first line.
pub open spec fn sp_module_start() -> MState {
    MState {
        pos: 0,
        name: None,
        state_fields: Seq::empty(),
        structs: Seq::empty(),
        functions: Seq::empty(),
        in_functions: false,
        in_state: false,
        in_structs: false,
    }
}

/// The module that a DSL text describes, if it is well formed.
pub open spec fn spec_parse_module(contents: Seq<char>) -> Option<ModuleV> {
    sp_module_from(spec_lines(contents), sp_module_start())
}

/// The lines of a text as character sequences.
pub open spec fn text_lines_view(lines: Seq<Vec<char>>) -> Seq<Seq<char>> {
    lines.map_values(|l: Vec<char>| l@)
}

/// An optional character vector, as a sequence.
pub open spec fn opt_chars(o: Option<Vec<char>>) -> Option<Seq<char>> {
    match o {
        Some(v) => Some(v@),
        None => None,
    }
}

/// Parses the statements of a function body.
fn parse_block(lines: Vec<(usize, Vec<char>)>) -> (r: Result<Vec<DslStmt>, DslParseError>)
    requires
        forall|k: int| 0 <= k < lines@.len() ==> #[trigger] lines@[k].0 < usize::MAX,
    ensures
        r is Ok <==> sp_block(lines_view(lines@), 0, 0, None, Seq::empty()) is Some,
        r matches Ok(v) ==> sp_block(lines_view(lines@), 0, 0, None, Seq::empty()) matches Some((b, _)) && b
            == dsl_stmts_view(v@),
{
    let mut parser = BlockParser::new(lines);
    parser.parse_block(0)
}

/// Parses a parameter list `a: uint64, b, c: map<address, bool>`; a parameter may omit its type.
fn parse_params(params_raw: &[char]) -> (r: Result<Vec<DslParam>, DslParseError>)
    ensures
        r is Ok <==> sp_params(params_raw@) is Some,
        r matches Ok(ps) ==> sp_params(params_raw@) == Some(ps@.map_values(|p: DslParam| p@)),
        r matches Ok(ps) ==> ps@.len() <= spec_split_params(params_raw@).len(),
{
    let mut params: Vec<DslParam> = Vec::new();
    if params_raw.len() == 0 {
        assert(params@.map_values(|p: DslParam| p@) =~= Seq::<ParamV>::empty());
        return Ok(params);
    }
    let pieces = split_params(params_raw);
    let ghost pv = spec_split_params(params_raw@);
    let mut i: usize = 0;
    assert(params@.map_values(|p: DslParam| p@) =~= Seq::<ParamV>::empty());
    while i < pieces.len()
        invariant
            i <= pieces@.len(),
            params@.len() <= i,
            params_raw@.len() > 0,
            pieces@.map_values(|v: Vec<char>| v@) == pv,
            pv == spec_split_params(params_raw@),
            sp_params(params_raw@) == sp_params_from(pv, i as int, params@.map_values(|p: DslParam| p@)),
        decreases pieces@.len() - i,
    {
        assert(pieces[i as int]@ == pv[i as int]);
        let param = trim(pieces[i].as_slice());
        i = i + 1;
        if param.len() == 0 {
            continue;
        }
        let (name, ty) = match split_once_char(param.as_slice(), ':') {
            Some((left, right)) => {
                let t = parse_type(trim(right.as_slice()).as_slice())?;
                (trim(left.as_slice()), Some(t))
            },
            None => (param, None),
        };
        if name.len() == 0 {
            return Err(invalid_signature(params_raw, "parameter missing name"));
        }
        let p = DslParam { name: from_chars(name.as_slice()), ty };
        let ghost before = params@;
        params.push(p);
        assert(params@.map_values(|q: DslParam| q@) =~= before.map_values(|q: DslParam| q@).push(p@));
    }
    Ok(params)
}

/// Splits a signature (its `:` removed) at its first `->`, parsing the return type.
fn split_return_type(signature: &[char]) -> (r: Result<(Vec<char>, Option<DslType>), DslParseError>)
    ensures
        match sp_head_ret(signature@) {
            None => r is Err,
            Some((head, t)) => r matches Ok((h, u)) && h@ == head && match (u, t) {
                (Some(x), Some(y)) => x@ == y,
                (None, None) => true,
                _ => false,
            },
        },
{
    let w_arrow: Vec<char> = vec!['-', '>'];
    assert(w_arrow@ == seq!['-', '>']);
    match split_once_str(signature, w_arrow.as_slice()) {
        Some((left, right)) => {
            let t = parse_type(trim(right.as_slice()).as_slice())?;
            Ok((trim(left.as_slice()), Some(t)))
        },
        None => {
            assert(signature@.subrange(0, signature@.len() as int) == signature@);
            Ok((copy_range(signature, 0, signature.len()), None))
        },
    }
}

/// The name and the parameter text of a signature head; `signature` is quoted in errors.
fn split_head(signature: &[char], head: &[char]) -> (r: Result<(Vec<char>, Vec<char>), DslParseError>)
    ensures
        match sp_head_parts(head@) {
            None => r is Err,
            Some((name, params)) => r matches Ok((n, p)) && n@ == name && p@ == params,
        },
{
    let open_paren = match find_char(head, '(') {
        Some(i) => i,
        None => {
            return Err(invalid_signature(signature, "missing '('"));
        },
    };
    let close_paren = match rfind_char(head, ')') {
        Some(i) => i,
        None => {
            assert(spec_rfind(head@, ')') is None);
            return Err(invalid_signature(signature, "missing ')'"));
        },
    };
    proof {
        let o = choose|k: int| 0 <= k < head@.len() && head@[k] == '(' && forall|j: int| 0 <= j < k ==> head@[j] != '(';
        assert(o == open_paren);
        let c = choose|k: int|
            0 <= k < head@.len() && head@[k] == ')' && forall|j: int| k < j < head@.len() ==> head@[j] != ')';
        assert(c == close_paren);
    }
    if close_paren <= open_paren {
        return Err(invalid_signature(signature, "missing ')'"));
    }
    let mut name = trim(copy_range(head, 0, open_paren).as_slice());
    let w_pub: Vec<char> = vec!['p', 'u', 'b', ' '];
    let w_fn: Vec<char> = vec!['f', 'n', ' '];
    assert(w_pub@ == seq!['p', 'u', 'b', ' '] && w_fn@ == seq!['f', 'n', ' ']);
    if let Some(stripped) = strip_prefix(name.as_slice(), w_pub.as_slice()) {
        name = trim_start(stripped.as_slice());
    }
    if let Some(stripped) = strip_prefix(name.as_slice(), w_fn.as_slice()) {
        name = trim_start(stripped.as_slice());
    }
    if name.len() == 0 {
        return Err(invalid_signature(signature, "missing function name"));
    }
    let params_raw = trim(copy_range(head, open_paren + 1, close_paren).as_slice());
    Ok((name, params_raw))
}

/// Builds a function from its (possibly multi-line) signature and its body lines.
fn parse_function(signature: Vec<char>, body_lines: Vec<(usize, Vec<char>)>) -> (r: Result<
    DslFunction,
    DslParseError,
>)
    requires
        forall|k: int| 0 <= k < body_lines@.len() ==> #[trigger] body_lines@[k].0 < usize::MAX,
    ensures
        r is Ok <==> sp_function(signature@, lines_view(body_lines@)) is Some,
        r matches Ok(f) ==> sp_function(signature@, lines_view(body_lines@)) == Some(f@),
{
    let ghost sig_in = signature@;
    let signature = trim(signature.as_slice());
    if !(signature.len() > 0 && signature[signature.len() - 1] == ':') {
        return Err(invalid_signature(signature.as_slice(), "missing ':'"));
    }
    let signature = copy_range(signature.as_slice(), 0, signature.len() - 1);
    assert(signature@ == spec_trim(sig_in).drop_last());
    let (head, return_type) = split_return_type(signature.as_slice())?;
    let (name, params_raw) = split_head(signature.as_slice(), head.as_slice())?;
    let params = parse_params(params_raw.as_slice())?;
    let body = parse_block(body_lines)?;
    Ok(DslFunction { name: from_chars(name.as_slice()), params, return_type, body })
}

/// Takes the indented lines that follow a header, skipping blank ones, up to the first
/// non-blank line at indentation zero.
fn collect_indented(lines: &Vec<Vec<char>>, pos: &mut usize) -> (r: Vec<(usize, Vec<char>)>)
    requires
        *old(pos) <= lines@.len(),
    ensures
        *old(pos) <= *final(pos) <= lines@.len(),
        forall|k: int| 0 <= k < r@.len() ==> #[trigger] r@[k].0 < lines@.len(),
        sp_indented(text_lines_view(lines@), *old(pos) as int, Seq::empty()) == (lines_view(r@), *final(pos) as int),
{
    let ghost lv = text_lines_view(lines@);
    let mut field_lines: Vec<(usize, Vec<char>)> = Vec::new();
    assert(lines_view(field_lines@) =~= Seq::<(usize, Seq<char>)>::empty());
    while *pos < lines.len()
        invariant_except_break
            sp_indented(lv, *old(pos) as int, Seq::empty()) == sp_indented(lv, *pos as int, lines_view(field_lines@)),
        invariant
            *old(pos) <= *pos <= lines@.len(),
            lv == text_lines_view(lines@),
            forall|k: int| 0 <= k < field_lines@.len() ==> #[trigger] field_lines@[k].0 < lines@.len(),
        ensures
            sp_indented(lv, *old(pos) as int, Seq::empty()) == (lines_view(field_lines@), *pos as int),
        decreases lines@.len() - *pos,
    {
        let next_line = lines[*pos].as_slice();
        assert(next_line@ == lv[*pos as int]);
        if is_blank(next_line) {
            *pos = *pos + 1;
            continue;
        }
        if indent_of(next_line) == 0 {
            break;
        }
        let entry = (*pos, copy_range(next_line, 0, next_line.len()));
        assert(next_line@.subrange(0, next_line@.len() as int) == next_line@);
        let ghost before = field_lines@;
        field_lines.push(entry);
        assert(lines_view(field_lines@) =~= lines_view(before).push((*pos, lv[*pos as int])));
        *pos = *pos + 1;
    }
    field_lines
}

/// Parses `name: type` struct field lines.
fn parse_struct_fields(lines: Vec<(usize, Vec<char>)>) -> (r: Result<Vec<DslStructField>, DslParseError>)
    requires
        forall|k: int| 0 <= k < lines@.len() ==> #[trigger] lines@[k].0 < usize::MAX,
    ensures
        r is Ok <==> sp_fields_from(lines_view(lines@), 0, Seq::empty()) is Some,
        r matches Ok(fs) ==> sp_fields_from(lines_view(lines@), 0, Seq::empty()) == Some(struct_fields_view(fs@)),
{
    let ghost ls = lines_view(lines@);
    let mut fields: Vec<DslStructField> = Vec::new();
    let mut i: usize = 0;
    assert(struct_fields_view(fields@) =~= Seq::<(Seq<char>, TypeView)>::empty());
    while i < lines.len()
        invariant
            i <= lines@.len(),
            ls == lines_view(lines@),
            forall|k: int| 0 <= k < lines@.len() ==> #[trigger] lines@[k].0 < usize::MAX,
            sp_fields_from(ls, 0, Seq::empty()) == sp_fields_from(ls, i as int, struct_fields_view(fields@)),
        decreases lines@.len() - i,
    {
        let line_no = lines[i].0;
        assert(lines[i as int].1@ == ls[i as int].1);
        let trimmed = trim(lines[i].1.as_slice());
        i = i + 1;
        if trimmed.len() == 0 || trimmed[0] == '#' {
            continue;
        }
        let (name, ty) = match split_once_char(trimmed.as_slice(), ':') {
            Some(x) => x,
            None => {
                return Err(statement_error(line_no, "invalid struct field"));
            },
        };
        let name = trim(name.as_slice());
        let ty = trim(ty.as_slice());
        if name.len() == 0 || ty.len() == 0 {
            return Err(statement_error(line_no, "invalid struct field"));
        }
        let parsed = parse_type(ty.as_slice())?;
        let f = DslStructField { name: from_chars(name.as_slice()), ty: parsed };
        let ghost before = fields@;
        fields.push(f);
        assert(struct_fields_view(fields@) =~= struct_fields_view(before).push((f.name@, f.ty@)));
    }
    Ok(fields)
}

/// Reads a function signature, joining the following lines until it ends in `:` and holds `)`.
fn collect_signature(first_line: &[char], lines: &Vec<Vec<char>>, pos: &mut usize) -> (r: Vec<char>)
    requires
        *old(pos) <= lines@.len(),
    ensures
        *old(pos) <= *final(pos) <= lines@.len(),
        sp_signature(text_lines_view(lines@), *old(pos) as int, spec_trim(first_line@)) == (r@, *final(pos) as int),
{
    let ghost lv = text_lines_view(lines@);
    let w_colon: Vec<char> = vec![':'];
    assert(w_colon@ == seq![':']);
    let mut signature = trim(first_line);
    while !ends_with(trim_end(signature.as_slice()).as_slice(), w_colon.as_slice()) || !contains_char(
        signature.as_slice(),
        ')',
    )
        invariant_except_break
            sp_signature(lv, *old(pos) as int, spec_trim(first_line@)) == sp_signature(lv, *pos as int, signature@),
        invariant
            *old(pos) <= *pos <= lines@.len(),
            lv == text_lines_view(lines@),
            w_colon@ == seq![':'],
        ensures
            sp_signature(lv, *old(pos) as int, spec_trim(first_line@)) == (signature@, *pos as int),
        decreases lines@.len() - *pos,
    {
        if *pos < lines.len() {
            let ghost before = signature@;
            signature.push(' ');
            let mut t = trim(lines[*pos].as_slice());
            assert(t@ == spec_trim(lv[*pos as int]));
            signature.append(&mut t);
            assert(signature@ == before + seq![' '] + spec_trim(lv[*pos as int]));
            *pos = *pos + 1;
        } else {
            break;
        }
    }
    signature
}

/// A struct declaration whose header text is `ts`, its field lines following from `pos`.
fn parse_struct_entry(ts: &[char], lines: &Vec<Vec<char>>, pos: &mut usize) -> (r: Result<DslStruct, DslParseError>)
    requires
        *old(pos) <= lines@.len(),
    ensures
        *old(pos) <= *final(pos) <= lines@.len(),
        match sp_struct_entry(text_lines_view(lines@), *old(pos) as int, ts@) {
            None => r is Err,
            Some((d, p2)) => r matches Ok(x) && x@ == d && *final(pos) == p2,
        },
{
    let struct_name = trim(trim_end_matches(ts, ':').as_slice());
    if struct_name.len() == 0 {
        return Err(DslParseError::Statement(str_to_string("invalid struct name")));
    }
    let n: usize = lines.len();
    assert(n == lines@.len());
    let fields = collect_indented(lines, pos);
    let parsed_fields = parse_struct_fields(fields)?;
    Ok(DslStruct { name: from_chars(struct_name.as_slice()), fields: parsed_fields })
}

/// A state entry `name: type`.
fn parse_state_entry(ts: &[char]) -> (r: Result<DslStateField, DslParseError>)
    ensures
        match sp_state_entry(ts@) {
            None => r is Err,
            Some((n, t)) => r matches Ok(f) && f.name@ == n && f.ty@ == t,
        },
{
    let shown = from_chars(ts);
    let (name, ty) = match split_once_char(ts, ':') {
        Some(x) => x,
        None => {
            return Err(DslParseError::Statement(message(&["invalid state entry: ", shown.as_str()])));
        },
    };
    let name = trim(name.as_slice());
    let ty = trim(ty.as_slice());
    if name.len() == 0 || ty.len() == 0 {
        return Err(DslParseError::Statement(message(&["invalid state entry: ", shown.as_str()])));
    }
    let parsed = parse_type(ty.as_slice())?;
    Ok(DslStateField { name: from_chars(name.as_slice()), ty: parsed })
}

/// A function whose first signature line is `raw`, the rest of it and its body following from
/// `pos`.
fn parse_function_entry(raw: &[char], lines: &Vec<Vec<char>>, pos: &mut usize) -> (r: Result<DslFunction, DslParseError>)
    requires
        *old(pos) <= lines@.len(),
    ensures
        *old(pos) <= *final(pos) <= lines@.len(),
        match sp_function_entry(text_lines_view(lines@), *old(pos) as int, raw@) {
            None => r is Err,
            Some((f, p2)) => r matches Ok(x) && x@ == f && *final(pos) == p2,
        },
{
    let n: usize = lines.len();
    assert(n == lines@.len());
    let signature = collect_signature(raw, lines, pos);
    let body_lines = collect_indented(lines, pos);
    parse_function(signature, body_lines)
}

/// The state of reading a module, as a value.
pub open spec fn module_state(
    pos: usize,
    name: Option<Vec<char>>,
    state_fields: Seq<DslStateField>,
    structs: Seq<DslStruct>,
    functions: Seq<DslFunction>,
    in_functions: bool,
    in_state: bool,
    in_structs: bool,
) -> MState {
    MState {
        pos: pos as int,
        name: opt_chars(name),
        state_fields: state_fields_view(state_fields),
        structs: structs.map_values(|d: DslStruct| d@),
        functions: functions.map_values(|f: DslFunction| f@),
        in_functions,
        in_state,
        in_structs,
    }
}

/// Parses a DSL module: a `module:` name, then `state:`, `structs:` and `functions:` sections.
#[verifier::rlimit(100)]
pub fn parse_module(contents: &str) -> (r: Result<DslModule, DslParseError>)
    ensures
        r is Ok <==> spec_parse_module(contents@) is Some,
        r matches Ok(m) ==> spec_parse_module(contents@) == Some(m@),
        sp_module_walk(spec_lines(contents@), sp_module_start()) matches Ok(f) && f.name is None ==> r matches Err(
            DslParseError::MissingModule,
        ),
        sp_module_walk(spec_lines(contents@), sp_module_start()) matches Err(ModuleRefusal::TopLevel(t)) ==> r matches Err(
            DslParseError::UnexpectedTopLevel(x),
        ) && x@ == t,
{
    let chars = to_chars(contents);
    let lines = lines(chars.as_slice());
    let ghost lv = text_lines_view(lines@);
    let ghost target = spec_parse_module(contents@);
    let ghost walk = sp_module_walk(spec_lines(contents@), sp_module_start());
    let w_module: Vec<char> = vec!['m', 'o', 'd', 'u', 'l', 'e', ':'];
    let w_state: Vec<char> = vec!['s', 't', 'a', 't', 'e', ':'];
    let w_structs: Vec<char> = vec!['s', 't', 'r', 'u', 'c', 't', 's', ':'];
    let w_functions: Vec<char> = vec!['f', 'u', 'n', 'c', 't', 'i', 'o', 'n', 's', ':'];
    let w_imports: Vec<char> = vec!['i', 'm', 'p', 'o', 'r', 't', 's', ':'];
    let w_colon: Vec<char> = vec![':'];
    let mut module_name: Option<Vec<char>> = None;
    let mut state_fields: Vec<DslStateField> = Vec::new();
    let mut structs: Vec<DslStruct> = Vec::new();
    let mut functions: Vec<DslFunction> = Vec::new();
    let mut in_functions = false;
    let mut in_state = false;
    let mut in_structs = false;
    let mut pos: usize = 0;
    assert(state_fields_view(state_fields@) =~= Seq::<(Seq<char>, TypeView)>::empty());
    assert(structs@.map_values(|d: DslStruct| d@) =~= Seq::<StructV>::empty());
    assert(functions@.map_values(|f: DslFunction| f@) =~= Seq::<FunctionV>::empty());
    assert(lines@.map_values(|l: Vec<char>| l@) == spec_lines(chars@));
    while pos < lines.len()
        invariant
            pos <= lines@.len(),
            lv == text_lines_view(lines@),
            lv == spec_lines(contents@),
            target == spec_parse_module(contents@),
            w_module@ == seq!['m', 'o', 'd', 'u', 'l', 'e', ':'],
            w_state@ == seq!['s', 't', 'a', 't', 'e', ':'],
            w_structs@ == seq!['s', 't', 'r', 'u', 'c', 't', 's', ':'],
            w_functions@ == seq!['f', 'u', 'n', 'c', 't', 'i', 'o', 'n', 's', ':'],
            w_imports@ == seq!['i', 'm', 'p', 'o', 'r', 't', 's', ':'],
            w_colon@ == seq![':'],
            target == sp_module_from(
                lv,
                module_state(pos, module_name, state_fields@, structs@, functions@, in_functions, in_state, in_structs),
            ),
            walk == sp_module_walk(spec_lines(contents@), sp_module_start()),
            walk == sp_module_walk(
                lv,
                module_state(pos, module_name, state_fields@, structs@, functions@, in_functions, in_state, in_structs),
            ),
        decreases lines@.len() - pos,
    {
        let ghost st = module_state(pos, module_name, state_fields@, structs@, functions@, in_functions, in_state, in_structs);
        let raw_line = lines[pos].as_slice();
        assert(raw_line@ == lv[pos as int]);
        pos = pos + 1;
        let trimmed_end = trim_end(raw_line);
        let trimmed_start = trim_start(trimmed_end.as_slice());
        if trimmed_end.len() == 0 || (trimmed_start.len() > 0 && trimmed_start[0] == '#') {
            continue;
        }
        let is_top_level = indent_of(raw_line) == 0;
        if is_top_level && starts_with(trimmed_start.as_slice(), w_module.as_slice()) {
            let rest = trim_start_matches(trimmed_start.as_slice(), w_module.as_slice());
            module_name = Some(trim(rest.as_slice()));
            continue;
        }
        if is_top_level && starts_with(trimmed_start.as_slice(), w_state.as_slice()) {
            in_state = true;
            in_functions = false;
            in_structs = false;
            continue;
        }
        if is_top_level && starts_with(trimmed_start.as_slice(), w_structs.as_slice()) {
            in_structs = true;
            in_state = false;
            in_functions = false;
            continue;
        }
        if is_top_level && starts_with(trimmed_start.as_slice(), w_functions.as_slice()) {
            in_functions = true;
            in_state = false;
            in_structs = false;
            continue;
        }
        let header_like = ends_with(trimmed_start.as_slice(), w_colon.as_slice()) && !contains_char(
            trimmed_start.as_slice(),
            '(',
        );
        if in_structs && header_like {
            let d = parse_struct_entry(trimmed_start.as_slice(), &lines, &mut pos)?;
            let ghost before = structs@;
            structs.push(d);
            assert(structs@.map_values(|x: DslStruct| x@) =~= before.map_values(|x: DslStruct| x@).push(d@));
            continue;
        }
        if in_structs && is_top_level {
            in_structs = false;
        }
        if in_state {
            let f = parse_state_entry(trimmed_start.as_slice())?;
            let ghost before = state_fields@;
            state_fields.push(f);
            assert(state_fields_view(state_fields@) =~= state_fields_view(before).push((f.name@, f.ty@)));
            continue;
        }
        if is_top_level && in_functions {
            if header_like {
                in_functions = false;
                continue;
            }
            let function = parse_function_entry(raw_line, &lines, &mut pos)?;
            let ghost before = functions@;
            functions.push(function);
            assert(functions@.map_values(|x: DslFunction| x@) =~= before.map_values(|x: DslFunction| x@).push(
                function@,
            ));
            continue;
        }
        if is_top_level && module_name.is_none() && !starts_with(trimmed_start.as_slice(), w_imports.as_slice())
            && !starts_with(trimmed_start.as_slice(), w_state.as_slice()) {
            return Err(DslParseError::UnexpectedTopLevel(from_chars(trimmed_start.as_slice())));
        }
    }
    match module_name {
        Some(name) => Ok(DslModule { name: from_chars(name.as_slice()), state_fields, structs, functions }),
        None => Err(DslParseError::MissingModule),
    }
}

} // verus!
