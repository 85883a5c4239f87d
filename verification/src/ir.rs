//! Intermediate representation shared by the lowering passes and code generation.

use vstd::prelude::*;
use crate::text::{from_chars, to_chars, chars_eq};
pub use crate::lower::{lower_to_ir, IrError};

verus! {

/// The WebAssembly value types the IR uses.
#[derive(Debug, Clone, Copy, PartialEq, Eq, Structural)]
pub enum ValueType {
    I32,
    I64,
}

impl ValueType {
    /// The textual name of the type.
    pub open spec fn spec_name(self) -> Seq<char> {
        match self {
            ValueType::I32 => seq!['i', '3', '2'],
            ValueType::I64 => seq!['i', '6', '4'],
        }
    }

    /// The textual name of the type (`i32` or `i64`).
    pub fn name(&self) -> (r: String)
        ensures
            r@ == self.spec_name(),
    {
        match self {
            ValueType::I32 => {
                let cs: Vec<char> = vec!['i', '3', '2'];
                from_chars(cs.as_slice())
            },
            ValueType::I64 => {
                let cs: Vec<char> = vec!['i', '6', '4'];
                from_chars(cs.as_slice())
            },
        }
    }
}

/// Width of a memory store.
#[derive(Debug, Clone, Copy, PartialEq, Eq, Structural)]
pub enum StoreWidth {
    I8,
    I16,
    I32,
    I64,
}

/// Binary operators of the IR.
#[derive(Debug, Clone, Copy, PartialEq, Eq, Structural)]
pub enum BinaryOp {
    Add,
    Sub,
    Mul,
    DivUInt,
    RemUInt,
    Equal,
    NotEqual,
    Less,
    LessEqual,
    Greater,
    GreaterEqual,
}

/// The integer an IR binary operator computes from two integer operands: the arithmetic
/// result, or 1 when a comparison holds and 0 when it fails.
pub open spec fn spec_ir_binary_value(op: BinaryOp, a: int, b: int) -> int {
    match op {
        BinaryOp::Add => a + b,
        BinaryOp::Sub => a - b,
        BinaryOp::Mul => a * b,
        BinaryOp::DivUInt => a / b,
        BinaryOp::RemUInt => a % b,
        BinaryOp::Equal => if a == b { 1 } else { 0 },
        BinaryOp::NotEqual => if a != b { 1 } else { 0 },
        BinaryOp::Less => if a < b { 1 } else { 0 },
        BinaryOp::LessEqual => if a <= b { 1 } else { 0 },
        BinaryOp::Greater => if a > b { 1 } else { 0 },
        BinaryOp::GreaterEqual => if a >= b { 1 } else { 0 },
    }
}

/// Host functions that generated modules may import.
#[derive(Debug, Clone, Copy, PartialEq, Eq, Structural)]
pub enum HostFunction {
    SystemGetGasRemaining,
    SystemGetExecutionTime,
    SystemAbort,
    MemoryDeterministicMalloc,
    MemoryDeterministicRealloc,
    MemoryUsage,
    StdStateRead,
    StdStateWrite,
}

impl HostFunction {
    /// The import module of the host function.
    pub open spec fn spec_module(self) -> Seq<char> {
        match self {
            HostFunction::SystemGetGasRemaining => seq!['a', 'x', 'i', 'o', 'm', '_', 's', 'y', 's', 't', 'e', 'm'],
            HostFunction::SystemGetExecutionTime => seq!['a', 'x', 'i', 'o', 'm', '_', 's', 'y', 's', 't', 'e', 'm'],
            HostFunction::SystemAbort => seq!['a', 'x', 'i', 'o', 'm', '_', 's', 'y', 's', 't', 'e', 'm'],
            HostFunction::MemoryDeterministicMalloc => seq!['a', 'x', 'i', 'o', 'm', '_', 'm', 'e', 'm', 'o', 'r', 'y'],
            HostFunction::MemoryDeterministicRealloc => seq!['a', 'x', 'i', 'o', 'm', '_', 'm', 'e', 'm', 'o', 'r', 'y'],
            HostFunction::MemoryUsage => seq!['a', 'x', 'i', 'o', 'm', '_', 'm', 'e', 'm', 'o', 'r', 'y'],
            HostFunction::StdStateRead => seq!['a', 'x', 'i', 'o', 'm', '_', 's', 't', 'd'],
            HostFunction::StdStateWrite => seq!['a', 'x', 'i', 'o', 'm', '_', 's', 't', 'd'],
        }
    }

    /// The import field name of the host function.
    pub open spec fn spec_field(self) -> Seq<char> {
        match self {
            HostFunction::SystemGetGasRemaining => seq!['g', 'e', 't', '_', 'g', 'a', 's', '_', 'r', 'e', 'm', 'a', 'i', 'n', 'i', 'n', 'g'],
            HostFunction::SystemGetExecutionTime => seq!['g', 'e', 't', '_', 'e', 'x', 'e', 'c', 'u', 't', 'i', 'o', 'n', '_', 't', 'i', 'm', 'e'],
            HostFunction::SystemAbort => seq!['a', 'b', 'o', 'r', 't'],
            HostFunction::MemoryDeterministicMalloc => seq!['d', 'e', 't', 'e', 'r', 'm', 'i', 'n', 'i', 's', 't', 'i', 'c', '_', 'm', 'a', 'l', 'l', 'o', 'c'],
            HostFunction::MemoryDeterministicRealloc => seq!['d', 'e', 't', 'e', 'r', 'm', 'i', 'n', 'i', 's', 't', 'i', 'c', '_', 'r', 'e', 'a', 'l', 'l', 'o', 'c'],
            HostFunction::MemoryUsage => seq!['m', 'e', 'm', 'o', 'r', 'y', '_', 'u', 's', 'a', 'g', 'e'],
            HostFunction::StdStateRead => seq!['s', 't', 'a', 't', 'e', '_', 'r', 'e', 'a', 'd'],
            HostFunction::StdStateWrite => seq!['s', 't', 'a', 't', 'e', '_', 'w', 'r', 'i', 't', 'e'],
        }
    }

    /// The parameter types of the host function.
    pub open spec fn spec_params(self) -> Seq<ValueType> {
        match self {
            HostFunction::SystemGetGasRemaining => seq![],
            HostFunction::SystemGetExecutionTime => seq![],
            HostFunction::SystemAbort => seq![],
            HostFunction::MemoryDeterministicMalloc => seq![ValueType::I32],
            HostFunction::MemoryDeterministicRealloc => seq![ValueType::I32, ValueType::I32],
            HostFunction::MemoryUsage => seq![],
            HostFunction::StdStateRead => seq![ValueType::I32, ValueType::I32, ValueType::I32],
            HostFunction::StdStateWrite => seq![ValueType::I32, ValueType::I32, ValueType::I32, ValueType::I32],
        }
    }

    /// The result type of the host function.
    pub open spec fn spec_return_type(self) -> Option<ValueType> {
        match self {
            HostFunction::SystemGetGasRemaining => Some(ValueType::I64),
            HostFunction::SystemGetExecutionTime => Some(ValueType::I64),
            HostFunction::SystemAbort => None,
            HostFunction::MemoryDeterministicMalloc => Some(ValueType::I32),
            HostFunction::MemoryDeterministicRealloc => Some(ValueType::I32),
            HostFunction::MemoryUsage => Some(ValueType::I64),
            HostFunction::StdStateRead => Some(ValueType::I32),
            HostFunction::StdStateWrite => Some(ValueType::I32),
        }
    }

    /// The host function a pysub or DSL identifier names, if any.
    pub open spec fn spec_from_identifier(name: Seq<char>) -> Option<HostFunction> {
        if name == seq!['g', 'e', 't', '_', 'g', 'a', 's', '_', 'r', 'e', 'm', 'a', 'i', 'n', 'i', 'n', 'g'] {
            Some(HostFunction::SystemGetGasRemaining)
        }         else if name == seq!['g', 'e', 't', '_', 'e', 'x', 'e', 'c', 'u', 't', 'i', 'o', 'n', '_', 't', 'i', 'm', 'e'] {
            Some(HostFunction::SystemGetExecutionTime)
        }         else if name == seq!['a', 'b', 'o', 'r', 't'] {
            Some(HostFunction::SystemAbort)
        }         else if name == seq!['d', 'e', 't', 'e', 'r', 'm', 'i', 'n', 'i', 's', 't', 'i', 'c', '_', 'm', 'a', 'l', 'l', 'o', 'c'] {
            Some(HostFunction::MemoryDeterministicMalloc)
        }         else if name == seq!['d', 'e', 't', 'e', 'r', 'm', 'i', 'n', 'i', 's', 't', 'i', 'c', '_', 'r', 'e', 'a', 'l', 'l', 'o', 'c'] {
            Some(HostFunction::MemoryDeterministicRealloc)
        }         else if name == seq!['m', 'e', 'm', 'o', 'r', 'y', '_', 'u', 's', 'a', 'g', 'e'] {
            Some(HostFunction::MemoryUsage)
        } else {
            None
        }
    }

    /// The host function a pysub or DSL identifier names, if any.
    pub fn from_identifier(name: &str) -> (r: Option<HostFunction>)
        ensures
            r == HostFunction::spec_from_identifier(name@),
    {
        let cs = to_chars(name);
        let n = cs.as_slice();
        let gas: Vec<char> = vec!['g', 'e', 't', '_', 'g', 'a', 's', '_', 'r', 'e', 'm', 'a', 'i', 'n', 'i', 'n', 'g'];
        let time: Vec<char> = vec!['g', 'e', 't', '_', 'e', 'x', 'e', 'c', 'u', 't', 'i', 'o', 'n', '_', 't', 'i', 'm', 'e'];
        let abort: Vec<char> = vec!['a', 'b', 'o', 'r', 't'];
        let malloc: Vec<char> = vec!['d', 'e', 't', 'e', 'r', 'm', 'i', 'n', 'i', 's', 't', 'i', 'c', '_', 'm', 'a', 'l', 'l', 'o', 'c'];
        let realloc: Vec<char> = vec!['d', 'e', 't', 'e', 'r', 'm', 'i', 'n', 'i', 's', 't', 'i', 'c', '_', 'r', 'e', 'a', 'l', 'l', 'o', 'c'];
        let usage: Vec<char> = vec!['m', 'e', 'm', 'o', 'r', 'y', '_', 'u', 's', 'a', 'g', 'e'];
        if chars_eq(n, gas.as_slice()) {
            Some(HostFunction::SystemGetGasRemaining)
        } else if chars_eq(n, time.as_slice()) {
            Some(HostFunction::SystemGetExecutionTime)
        } else if chars_eq(n, abort.as_slice()) {
            Some(HostFunction::SystemAbort)
        } else if chars_eq(n, malloc.as_slice()) {
            Some(HostFunction::MemoryDeterministicMalloc)
        } else if chars_eq(n, realloc.as_slice()) {
            Some(HostFunction::MemoryDeterministicRealloc)
        } else if chars_eq(n, usage.as_slice()) {
            Some(HostFunction::MemoryUsage)
        } else {
            None
        }
    }

    /// The import module name.
    pub fn module(&self) -> (r: String)
        ensures
            r@ == self.spec_module(),
    {
        let cs: Vec<char> = match self {
            HostFunction::SystemGetGasRemaining => vec!['a', 'x', 'i', 'o', 'm', '_', 's', 'y', 's', 't', 'e', 'm'],
            HostFunction::SystemGetExecutionTime => vec!['a', 'x', 'i', 'o', 'm', '_', 's', 'y', 's', 't', 'e', 'm'],
            HostFunction::SystemAbort => vec!['a', 'x', 'i', 'o', 'm', '_', 's', 'y', 's', 't', 'e', 'm'],
            HostFunction::MemoryDeterministicMalloc => vec!['a', 'x', 'i', 'o', 'm', '_', 'm', 'e', 'm', 'o', 'r', 'y'],
            HostFunction::MemoryDeterministicRealloc => vec!['a', 'x', 'i', 'o', 'm', '_', 'm', 'e', 'm', 'o', 'r', 'y'],
            HostFunction::MemoryUsage => vec!['a', 'x', 'i', 'o', 'm', '_', 'm', 'e', 'm', 'o', 'r', 'y'],
            HostFunction::StdStateRead => vec!['a', 'x', 'i', 'o', 'm', '_', 's', 't', 'd'],
            HostFunction::StdStateWrite => vec!['a', 'x', 'i', 'o', 'm', '_', 's', 't', 'd'],
        };
        from_chars(cs.as_slice())
    }

    /// The import field name.
    pub fn field(&self) -> (r: String)
        ensures
            r@ == self.spec_field(),
    {
        let cs: Vec<char> = match self {
            HostFunction::SystemGetGasRemaining => vec!['g', 'e', 't', '_', 'g', 'a', 's', '_', 'r', 'e', 'm', 'a', 'i', 'n', 'i', 'n', 'g'],
            HostFunction::SystemGetExecutionTime => vec!['g', 'e', 't', '_', 'e', 'x', 'e', 'c', 'u', 't', 'i', 'o', 'n', '_', 't', 'i', 'm', 'e'],
            HostFunction::SystemAbort => vec!['a', 'b', 'o', 'r', 't'],
            HostFunction::MemoryDeterministicMalloc => vec!['d', 'e', 't', 'e', 'r', 'm', 'i', 'n', 'i', 's', 't', 'i', 'c', '_', 'm', 'a', 'l', 'l', 'o', 'c'],
            HostFunction::MemoryDeterministicRealloc => vec!['d', 'e', 't', 'e', 'r', 'm', 'i', 'n', 'i', 's', 't', 'i', 'c', '_', 'r', 'e', 'a', 'l', 'l', 'o', 'c'],
            HostFunction::MemoryUsage => vec!['m', 'e', 'm', 'o', 'r', 'y', '_', 'u', 's', 'a', 'g', 'e'],
            HostFunction::StdStateRead => vec!['s', 't', 'a', 't', 'e', '_', 'r', 'e', 'a', 'd'],
            HostFunction::StdStateWrite => vec!['s', 't', 'a', 't', 'e', '_', 'w', 'r', 'i', 't', 'e'],
        };
        from_chars(cs.as_slice())
    }

    /// The parameter types.
    pub fn params(&self) -> (r: Vec<ValueType>)
        ensures
            r@ == self.spec_params(),
    {
        let r: Vec<ValueType> = match self {
            HostFunction::SystemGetGasRemaining => vec![],
            HostFunction::SystemGetExecutionTime => vec![],
            HostFunction::SystemAbort => vec![],
            HostFunction::MemoryDeterministicMalloc => vec![ValueType::I32],
            HostFunction::MemoryDeterministicRealloc => vec![ValueType::I32, ValueType::I32],
            HostFunction::MemoryUsage => vec![],
            HostFunction::StdStateRead => vec![ValueType::I32, ValueType::I32, ValueType::I32],
            HostFunction::StdStateWrite => vec![ValueType::I32, ValueType::I32, ValueType::I32, ValueType::I32],
        };
        assert(r@ == self.spec_params());
        r
    }

    /// The result type, if the host function returns a value.
    pub fn return_type(&self) -> (r: Option<ValueType>)
        ensures
            r == self.spec_return_type(),
    {
        match self {
            HostFunction::SystemGetGasRemaining => Some(ValueType::I64),
            HostFunction::SystemGetExecutionTime => Some(ValueType::I64),
            HostFunction::SystemAbort => None,
            HostFunction::MemoryDeterministicMalloc => Some(ValueType::I32),
            HostFunction::MemoryDeterministicRealloc => Some(ValueType::I32),
            HostFunction::MemoryUsage => Some(ValueType::I64),
            HostFunction::StdStateRead => Some(ValueType::I32),
            HostFunction::StdStateWrite => Some(ValueType::I32),
        }
    }
}

/// A static data segment placed at a fixed offset of linear memory.
#[derive(Debug)]
pub struct DataSegment {
    pub offset: u32,
    pub bytes: Vec<u8>,
}

/// IR expressions.
#[derive(Debug)]
pub enum Expr {
    Param { index: u32, ty: ValueType },
    Local { index: u32, ty: ValueType },
    ConstI32(i32),
    ConstI64(i64),
    LoadI32 { address: Box<Expr> },
    LoadI8 { address: Box<Expr> },
    LoadI64 { address: Box<Expr> },
    StateRead { key_ptr: u32, key_len: u32, out_len_ptr: u32, ty: ValueType },
    StateReadRaw { key_ptr: u32, key_len: u32, out_len_ptr: u32 },
    Binary { op: BinaryOp, left: Box<Expr>, right: Box<Expr>, ty: ValueType },
    HostCall { function: HostFunction, args: Vec<Expr> },
    Select { condition: Box<Expr>, if_true: Box<Expr>, if_false: Box<Expr>, ty: ValueType },
}

impl Expr {
    /// The type of the value the expression produces.
    pub open spec fn spec_value_type(self) -> ValueType {
        match self {
            Expr::Param { ty, .. } => ty,
            Expr::Local { ty, .. } => ty,
            Expr::ConstI32(_) => ValueType::I32,
            Expr::ConstI64(_) => ValueType::I64,
            Expr::LoadI32 { .. } => ValueType::I32,
            Expr::LoadI8 { .. } => ValueType::I32,
            Expr::LoadI64 { .. } => ValueType::I64,
            Expr::StateRead { ty, .. } => ty,
            Expr::StateReadRaw { .. } => ValueType::I32,
            Expr::Binary { ty, .. } => ty,
            Expr::HostCall { function, .. } => match function.spec_return_type() {
                Some(t) => t,
                None => ValueType::I32,
            },
            Expr::Select { ty, .. } => ty,
        }
    }

    /// The type of the value the expression produces.
    pub fn value_type(&self) -> (r: ValueType)
        ensures
            r == self.spec_value_type(),
            r == self@.value_type(),
    {
        match self {
            Expr::Param { ty, .. } => *ty,
            Expr::Local { ty, .. } => *ty,
            Expr::ConstI32(_) => ValueType::I32,
            Expr::ConstI64(_) => ValueType::I64,
            Expr::LoadI32 { .. } => ValueType::I32,
            Expr::LoadI8 { .. } => ValueType::I32,
            Expr::LoadI64 { .. } => ValueType::I64,
            Expr::StateRead { ty, .. } => *ty,
            Expr::StateReadRaw { .. } => ValueType::I32,
            Expr::Binary { ty, .. } => *ty,
            Expr::HostCall { function, .. } => match function.return_type() {
                Some(t) => t,
                None => ValueType::I32,
            },
            Expr::Select { ty, .. } => *ty,
        }
    }
}

/// The mathematical value of an IR expression.
pub ghost enum ExprView {
    Param { index: u32, ty: ValueType },
    Local { index: u32, ty: ValueType },
    ConstI32(i32),
    ConstI64(i64),
    LoadI32(Box<ExprView>),
    LoadI8(Box<ExprView>),
    LoadI64(Box<ExprView>),
    StateRead { key_ptr: u32, key_len: u32, out_len_ptr: u32, ty: ValueType },
    StateReadRaw { key_ptr: u32, key_len: u32, out_len_ptr: u32 },
    Binary { op: BinaryOp, left: Box<ExprView>, right: Box<ExprView>, ty: ValueType },
    HostCall { function: HostFunction, args: Seq<ExprView> },
    Select { condition: Box<ExprView>, if_true: Box<ExprView>, if_false: Box<ExprView>, ty: ValueType },
}

impl Expr {
    /// The value of this expression.
    pub open spec fn view_expr(&self) -> ExprView
        decreases self, 0nat,
    {
        match self {
            Expr::Param { index, ty } => ExprView::Param { index: *index, ty: *ty },
            Expr::Local { index, ty } => ExprView::Local { index: *index, ty: *ty },
            Expr::ConstI32(v) => ExprView::ConstI32(*v),
            Expr::ConstI64(v) => ExprView::ConstI64(*v),
            Expr::LoadI32 { address } => ExprView::LoadI32(Box::new(address.view_expr())),
            Expr::LoadI8 { address } => ExprView::LoadI8(Box::new(address.view_expr())),
            Expr::LoadI64 { address } => ExprView::LoadI64(Box::new(address.view_expr())),
            Expr::StateRead { key_ptr, key_len, out_len_ptr, ty } => ExprView::StateRead {
                key_ptr: *key_ptr,
                key_len: *key_len,
                out_len_ptr: *out_len_ptr,
                ty: *ty,
            },
            Expr::StateReadRaw { key_ptr, key_len, out_len_ptr } => ExprView::StateReadRaw {
                key_ptr: *key_ptr,
                key_len: *key_len,
                out_len_ptr: *out_len_ptr,
            },
            Expr::Binary { op, left, right, ty } => ExprView::Binary {
                op: *op,
                left: Box::new(left.view_expr()),
                right: Box::new(right.view_expr()),
                ty: *ty,
            },
            Expr::HostCall { function, args } => {
                proof {
                    assert(decreases_to!(self => *args));
                }
                ExprView::HostCall { function: *function, args: exprs_view(args@) }
            },
            Expr::Select { condition, if_true, if_false, ty } => ExprView::Select {
                condition: Box::new(condition.view_expr()),
                if_true: Box::new(if_true.view_expr()),
                if_false: Box::new(if_false.view_expr()),
                ty: *ty,
            },
        }
    }
}

/// The values of a sequence of expressions.
pub open spec fn exprs_view(s: Seq<Expr>) -> Seq<ExprView>
    decreases s, s.len(),
{
    if s.len() == 0 {
        Seq::empty()
    } else {
        proof {
            assert(decreases_to!(s => s[s.len() - 1]));
        }
        exprs_view(s.drop_last()).push(s[s.len() - 1].view_expr())
    }
}

impl ExprView {
    /// The type of the value the expression produces.
    pub open spec fn value_type(self) -> ValueType {
        match self {
            ExprView::Param { ty, .. } => ty,
            ExprView::Local { ty, .. } => ty,
            ExprView::ConstI32(_) => ValueType::I32,
            ExprView::ConstI64(_) => ValueType::I64,
            ExprView::LoadI32(_) => ValueType::I32,
            ExprView::LoadI8(_) => ValueType::I32,
            ExprView::LoadI64(_) => ValueType::I64,
            ExprView::StateRead { ty, .. } => ty,
            ExprView::StateReadRaw { .. } => ValueType::I32,
            ExprView::Binary { ty, .. } => ty,
            ExprView::HostCall { function, .. } => match function.spec_return_type() {
                Some(t) => t,
                None => ValueType::I32,
            },
            ExprView::Select { ty, .. } => ty,
        }
    }
}

impl View for Expr {
    type V = ExprView;

    open spec fn view(&self) -> ExprView {
        self.view_expr()
    }
}

/// Appending an expression appends its value.
pub proof fn lemma_exprs_view_push(s: Seq<Expr>, e: Expr)
    ensures
        exprs_view(s.push(e)) == exprs_view(s).push(e@),
{
    assert(s.push(e).drop_last() == s);
}

/// The values of a sequence of expressions, one by one.
pub proof fn lemma_exprs_view_index(s: Seq<Expr>)
    ensures
        exprs_view(s).len() == s.len(),
        forall|i: int| 0 <= i < s.len() ==> #[trigger] exprs_view(s)[i] == s[i]@,
    decreases s.len(),
{
    if s.len() > 0 {
        lemma_exprs_view_index(s.drop_last());
    }
}

impl Expr {
    /// A copy of this expression.
    #[verifier::loop_isolation(false)]
    pub fn copy(&self) -> (r: Expr)
        ensures
            r@ == self@,
        decreases self,
    {
        match self {
            Expr::Param { index, ty } => Expr::Param { index: *index, ty: *ty },
            Expr::Local { index, ty } => Expr::Local { index: *index, ty: *ty },
            Expr::ConstI32(v) => Expr::ConstI32(*v),
            Expr::ConstI64(v) => Expr::ConstI64(*v),
            Expr::LoadI32 { address } => Expr::LoadI32 { address: Box::new((**address).copy()) },
            Expr::LoadI8 { address } => Expr::LoadI8 { address: Box::new((**address).copy()) },
            Expr::LoadI64 { address } => Expr::LoadI64 { address: Box::new((**address).copy()) },
            Expr::StateRead { key_ptr, key_len, out_len_ptr, ty } => Expr::StateRead {
                key_ptr: *key_ptr,
                key_len: *key_len,
                out_len_ptr: *out_len_ptr,
                ty: *ty,
            },
            Expr::StateReadRaw { key_ptr, key_len, out_len_ptr } => Expr::StateReadRaw {
                key_ptr: *key_ptr,
                key_len: *key_len,
                out_len_ptr: *out_len_ptr,
            },
            Expr::Binary { op, left, right, ty } => Expr::Binary {
                op: *op,
                left: Box::new((**left).copy()),
                right: Box::new((**right).copy()),
                ty: *ty,
            },
            Expr::HostCall { function, args } => {
                let mut out: Vec<Expr> = Vec::new();
                let mut i: usize = 0;
                while i < args.len()
                    invariant
                        i <= args@.len(),
                        exprs_view(out@) == exprs_view(args@.subrange(0, i as int)),
                    decreases args@.len() - i,
                {
                    proof {
                        assert(decreases_to!(self => *args));
                        assert(decreases_to!(*args => args@));
                        assert(decreases_to!(args@ => args@[i as int]));
                    }
                    let e = args[i].copy();
                    proof {
                        lemma_exprs_view_push(out@, e);
                        lemma_exprs_view_push(args@.subrange(0, i as int), args@[i as int]);
                        assert(args@.subrange(0, i as int).push(args@[i as int])
                            == args@.subrange(0, i + 1));
                    }
                    out.push(e);
                    i = i + 1;
                }
                assert(args@.subrange(0, args@.len() as int) == args@);
                Expr::HostCall { function: *function, args: out }
            },
            Expr::Select { condition, if_true, if_false, ty } => Expr::Select {
                condition: Box::new((**condition).copy()),
                if_true: Box::new((**if_true).copy()),
                if_false: Box::new((**if_false).copy()),
                ty: *ty,
            },
        }
    }
}

/// IR statements.
#[derive(Debug)]
pub enum Stmt {
    Let { local: u32, value: Expr },
    Assign { local: u32, value: Expr },
    Store { address: Expr, value: Expr, width: StoreWidth },
    Expr(Expr),
    Return { value: Option<Expr> },
    If { condition: Expr, then_body: Vec<Stmt>, else_body: Vec<Stmt> },
    While { condition: Expr, body: Vec<Stmt> },
    Break,
    Continue,
}

/// The mathematical value of an IR statement.
pub ghost enum StmtView {
    Let { local: u32, value: ExprView },
    Assign { local: u32, value: ExprView },
    Store { address: ExprView, value: ExprView, width: StoreWidth },
    Expr(ExprView),
    Return(Option<ExprView>),
    If { condition: ExprView, then_body: Seq<StmtView>, else_body: Seq<StmtView> },
    While { condition: ExprView, body: Seq<StmtView> },
    Break,
    Continue,
}

impl Stmt {
    /// The value of this statement.
    pub open spec fn view_stmt(&self) -> StmtView
        decreases self, 0nat,
    {
        match self {
            Stmt::Let { local, value } => StmtView::Let { local: *local, value: value@ },
            Stmt::Assign { local, value } => StmtView::Assign { local: *local, value: value@ },
            Stmt::Store { address, value, width } => StmtView::Store {
                address: address@,
                value: value@,
                width: *width,
            },
            Stmt::Expr(e) => StmtView::Expr(e@),
            Stmt::Return { value } => StmtView::Return(
                match value {
                    Some(e) => Some(e@),
                    None => None,
                },
            ),
            Stmt::If { condition, then_body, else_body } => {
                proof {
                    assert(decreases_to!(self => *then_body));
                    assert(decreases_to!(self => *else_body));
                }
                StmtView::If {
                    condition: condition@,
                    then_body: stmts_view(then_body@),
                    else_body: stmts_view(else_body@),
                }
            },
            Stmt::While { condition, body } => {
                proof {
                    assert(decreases_to!(self => *body));
                }
                StmtView::While { condition: condition@, body: stmts_view(body@) }
            },
            Stmt::Break => StmtView::Break,
            Stmt::Continue => StmtView::Continue,
        }
    }
}

/// The values of a sequence of statements.
pub open spec fn stmts_view(s: Seq<Stmt>) -> Seq<StmtView>
    decreases s, s.len(),
{
    if s.len() == 0 {
        Seq::empty()
    } else {
        proof {
            assert(decreases_to!(s => s[s.len() - 1]));
        }
        stmts_view(s.drop_last()).push(s[s.len() - 1].view_stmt())
    }
}

/// Appending a statement appends its value.
pub proof fn lemma_stmts_view_push(s: Seq<Stmt>, e: Stmt)
    ensures
        stmts_view(s.push(e)) == stmts_view(s).push(e@),
{
    assert(s.push(e).drop_last() == s);
}

/// The values of a concatenation are the concatenation of the values.
pub proof fn lemma_stmts_view_append(a: Seq<Stmt>, b: Seq<Stmt>)
    ensures
        stmts_view(a + b) == stmts_view(a) + stmts_view(b),
    decreases b.len(),
{
    if b.len() == 0 {
        assert(a + b == a);
        assert(stmts_view(b) == Seq::<StmtView>::empty());
        assert(stmts_view(a) + stmts_view(b) == stmts_view(a));
    } else {
        lemma_stmts_view_append(a, b.drop_last());
        assert((a + b).drop_last() == a + b.drop_last());
        assert((a + b)[(a + b).len() - 1] == b[b.len() - 1]);
        assert(stmts_view(a) + stmts_view(b) == (stmts_view(a) + stmts_view(b.drop_last())).push(
            b[b.len() - 1]@,
        ));
    }
}

/// The values of a sequence of statements, one by one.
pub proof fn lemma_stmts_view_index(s: Seq<Stmt>)
    ensures
        stmts_view(s).len() == s.len(),
        forall|i: int| 0 <= i < s.len() ==> #[trigger] stmts_view(s)[i] == s[i]@,
    decreases s.len(),
{
    if s.len() > 0 {
        lemma_stmts_view_index(s.drop_last());
    }
}

impl View for Stmt {
    type V = StmtView;

    open spec fn view(&self) -> StmtView {
        self.view_stmt()
    }
}

/// A copy of a list of statements.
pub fn copy_stmts(v: &Vec<Stmt>) -> (r: Vec<Stmt>)
    ensures
        stmts_view(r@) == stmts_view(v@),
    decreases v@, 1int,
{
    let mut out: Vec<Stmt> = Vec::new();
    let mut i: usize = 0;
    while i < v.len()
        invariant
            i <= v@.len(),
            stmts_view(out@) == stmts_view(v@.subrange(0, i as int)),
        decreases v@.len() - i,
    {
        proof {
            assert(decreases_to!(v@ => v@[i as int]));
        }
        let st = v[i].copy();
        proof {
            lemma_stmts_view_push(out@, st);
            lemma_stmts_view_push(v@.subrange(0, i as int), v@[i as int]);
            assert(v@.subrange(0, i as int).push(v@[i as int]) == v@.subrange(0, i + 1));
        }
        out.push(st);
        i = i + 1;
    }
    assert(v@.subrange(0, v@.len() as int) == v@);
    out
}

impl Stmt {
    /// A copy of this statement.
    pub fn copy(&self) -> (r: Stmt)
        ensures
            r@ == self@,
        decreases self, 0int,
    {
        match self {
            Stmt::Let { local, value } => Stmt::Let { local: *local, value: value.copy() },
            Stmt::Assign { local, value } => Stmt::Assign { local: *local, value: value.copy() },
            Stmt::Store { address, value, width } => Stmt::Store {
                address: address.copy(),
                value: value.copy(),
                width: *width,
            },
            Stmt::Expr(e) => Stmt::Expr(e.copy()),
            Stmt::Return { value } => Stmt::Return {
                value: match value {
                    Some(e) => Some(e.copy()),
                    None => None,
                },
            },
            Stmt::If { condition, then_body, else_body } => {
                proof {
                    assert(decreases_to!(self => *then_body));
                    assert(decreases_to!(self => *else_body));
                    assert(decreases_to!(*then_body => then_body@));
                    assert(decreases_to!(*else_body => else_body@));
                }
                Stmt::If {
                    condition: condition.copy(),
                    then_body: copy_stmts(then_body),
                    else_body: copy_stmts(else_body),
                }
            },
            Stmt::While { condition, body } => {
                proof {
                    assert(decreases_to!(self => *body));
                    assert(decreases_to!(*body => body@));
                }
                Stmt::While { condition: condition.copy(), body: copy_stmts(body) }
            },
            Stmt::Break => Stmt::Break,
            Stmt::Continue => Stmt::Continue,
        }
    }
}

/// A function parameter.
#[derive(Debug)]
pub struct Param {
    pub name: String,
    pub ty: ValueType,
}

/// A function-local variable.
#[derive(Debug)]
pub struct Local {
    pub name: String,
    pub ty: ValueType,
}

/// A contract storage field.
#[derive(Debug)]
pub struct Field {
    pub name: String,
    pub ty: ValueType,
}

/// The body of a lowered function.
#[derive(Debug)]
pub enum FunctionBody {
    Return { value: Option<Expr> },
    Block { locals: Vec<Local>, body: Vec<Stmt> },
}

/// A lowered function.
#[derive(Debug)]
pub struct Function {
    pub name: String,
    pub params: Vec<Param>,
    pub return_type: Option<ValueType>,
    pub body: FunctionBody,
}

impl Function {
    /// A copy of this function.
    pub fn copy(&self) -> (r: Function)
        ensures
            r.name@ == self.name@,
            r.return_type == self.return_type,
            r.params@.len() == self.params@.len(),
            forall|i: int| 0 <= i < self.params@.len() ==> (#[trigger] r.params@[i]).name@ == self.params@[i].name@
                && r.params@[i].ty == self.params@[i].ty,
    {
        let mut params: Vec<Param> = Vec::new();
        let mut i: usize = 0;
        while i < self.params.len()
            invariant
                i <= self.params@.len(),
                params@.len() == i,
                forall|k: int| 0 <= k < i ==> (#[trigger] params@[k]).name@ == self.params@[k].name@
                    && params@[k].ty == self.params@[k].ty,
            decreases self.params@.len() - i,
        {
            params.push(Param { name: self.params[i].name.clone(), ty: self.params[i].ty });
            i = i + 1;
        }
        let body = match &self.body {
            FunctionBody::Return { value } => FunctionBody::Return {
                value: match value {
                    Some(e) => Some(e.copy()),
                    None => None,
                },
            },
            FunctionBody::Block { locals, body } => {
                let mut ls: Vec<Local> = Vec::new();
                let mut k: usize = 0;
                while k < locals.len()
                    invariant
                        k <= locals@.len(),
                    decreases locals@.len() - k,
                {
                    ls.push(Local { name: locals[k].name.clone(), ty: locals[k].ty });
                    k = k + 1;
                }
                FunctionBody::Block { locals: ls, body: copy_stmts(body) }
            },
        };
        Function { name: self.name.clone(), params, return_type: self.return_type, body }
    }
}

/// A lowered contract.
#[derive(Debug)]
pub struct Contract {
    pub name: String,
    pub params: Vec<Param>,
    pub storage: Vec<Field>,
    pub functions: Vec<Function>,
}

/// A lowered compilation unit.
#[derive(Debug)]
pub struct Module {
    pub contracts: Vec<Contract>,
    pub functions: Vec<Function>,
    pub data_segments: Vec<DataSegment>,
}

} // verus!
