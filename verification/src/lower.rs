//! Lowering of checked pysub programs into the IR.
//!
//! Integers (`u128`, `u64`) become 64-bit values; booleans, byte strings,
//! strings, addresses and maps become 32-bit values. A function whose body is a
//! single `return` lowers to a return body; any other body to a block with
//! locals. Number literals take the 32-bit type where one is expected.

use vstd::prelude::*;
use crate::ast::{
    BinaryOp as AstBinaryOp, Contract as AstContract, Expression, Function as AstFunction, Literal,
    Param as AstParam, PrimitiveType, Program, Statement, Type, UnaryOp,
};
use crate::ir::{
    BinaryOp, Contract, Expr, Field, Function, FunctionBody, HostFunction, Local, Module, Param, Stmt,
    ValueType,
};
use crate::text::{str_eq, str_to_string, copy_string};

verus! {

/// Errors of lowering.
#[derive(Debug)]
pub enum IrError {
    UnsupportedExpression(String),
    UnsupportedStatement(String),
    UnknownIdentifier(String),
    TypeMismatch { expected: ValueType, found: ValueType },
}

impl IrError {
    /// The message of the error.
    pub open spec fn spec_text(self) -> Seq<char> {
        match self {
            IrError::UnsupportedExpression(e) => "unsupported expression `"@ + e@ + "`"@,
            IrError::UnsupportedStatement(s) => "unsupported statement `"@ + s@ + "`"@,
            IrError::UnknownIdentifier(i) => "unknown identifier `"@ + i@ + "`"@,
            IrError::TypeMismatch { expected, found } => "type mismatch: expected `"@ + expected.spec_name() + "`, found `"@ + found.spec_name() + "`"@,
        }
    }

    /// The message of the error, as its `Display` shows it.
    pub fn text(&self) -> (r: String)
        ensures
            r@ == self.spec_text(),
    {
        match self {
            IrError::UnsupportedExpression(e) => {
                let p1 = e.as_str();
                let parts = ["unsupported expression `", p1, "`"];
                assert(parts@ == seq!["unsupported expression `", p1, "`"]);
                proof {
                    reveal_with_fuel(crate::text::spec_concat, 4);
                }
                crate::text::message(&parts)
            },
            IrError::UnsupportedStatement(s) => {
                let p1 = s.as_str();
                let parts = ["unsupported statement `", p1, "`"];
                assert(parts@ == seq!["unsupported statement `", p1, "`"]);
                proof {
                    reveal_with_fuel(crate::text::spec_concat, 4);
                }
                crate::text::message(&parts)
            },
            IrError::UnknownIdentifier(i) => {
                let p1 = i.as_str();
                let parts = ["unknown identifier `", p1, "`"];
                assert(parts@ == seq!["unknown identifier `", p1, "`"]);
                proof {
                    reveal_with_fuel(crate::text::spec_concat, 4);
                }
                crate::text::message(&parts)
            },
            IrError::TypeMismatch { expected, found } => {
                let p1s = expected.name();
                let p1 = p1s.as_str();
                let p3s = found.name();
                let p3 = p3s.as_str();
                let parts = ["type mismatch: expected `", p1, "`, found `", p3, "`"];
                assert(parts@ == seq!["type mismatch: expected `", p1, "`, found `", p3, "`"]);
                proof {
                    reveal_with_fuel(crate::text::spec_concat, 6);
                }
                crate::text::message(&parts)
            },
        }
    }
}

/// The machine type of a pysub type: integers are `i64`, everything else `i32`.
pub open spec fn spec_value_type(t: Type) -> ValueType {
    match t {
        Type::Primitive(PrimitiveType::U128) | Type::Primitive(PrimitiveType::U64) => ValueType::I64,
        _ => ValueType::I32,
    }
}

/// The value mapping of the runtime ABI: `u128` (and `u64`) are 64-bit machine values; `bool`,
/// `address`, `bytes`, `string` and maps are 32-bit ones.
pub proof fn law_value_mapping(t: Type)
    ensures
        t == Type::Primitive(PrimitiveType::U128) ==> spec_value_type(t) == ValueType::I64,
        t == Type::Primitive(PrimitiveType::U64) ==> spec_value_type(t) == ValueType::I64,
        t == Type::Primitive(PrimitiveType::Bool) ==> spec_value_type(t) == ValueType::I32,
        t == Type::Primitive(PrimitiveType::Address) ==> spec_value_type(t) == ValueType::I32,
        t == Type::Primitive(PrimitiveType::Bytes) ==> spec_value_type(t) == ValueType::I32,
        t == Type::Primitive(PrimitiveType::String) ==> spec_value_type(t) == ValueType::I32,
        t is Mapping ==> spec_value_type(t) == ValueType::I32,
{
}

/// The machine type of a pysub type.
pub fn value_type(t: &Type) -> (r: ValueType)
    ensures
        r == spec_value_type(*t),
{
    match t {
        Type::Primitive(PrimitiveType::U128) | Type::Primitive(PrimitiveType::U64) => ValueType::I64,
        _ => ValueType::I32,
    }
}

/// The IR parameters of pysub parameters, in order.
fn lower_params(ps: &[AstParam]) -> (r: Vec<Param>)
    ensures
        r@.len() == ps@.len(),
        forall|i: int| 0 <= i < ps@.len() ==> (#[trigger] r@[i]).name@ == ps@[i].name.0@ && r@[i].ty
            == spec_value_type(ps@[i].ty),
{
    let mut out: Vec<Param> = Vec::new();
    let mut i: usize = 0;
    while i < ps.len()
        invariant
            i <= ps@.len(),
            out@.len() == i,
            forall|k: int| 0 <= k < i ==> (#[trigger] out@[k]).name@ == ps@[k].name.0@ && out@[k].ty
                == spec_value_type(ps@[k].ty),
        decreases ps@.len() - i,
    {
        out.push(Param { name: copy_string(&ps[i].name.0), ty: value_type(&ps[i].ty) });
        i = i + 1;
    }
    out
}

/// The names in scope while lowering one function: parameters by position, then locals.
struct FnNames {
    params: Vec<(String, ValueType)>,
    locals: Vec<Local>,
}

/// The slot and type of a name, and whether it is a parameter: the last local of that
/// name, else the last parameter.
fn lookup(names: &FnNames, name: &str) -> (r: Option<(u32, ValueType, bool)>) {
    let mut i: usize = names.locals.len();
    while i > 0
        invariant
            i <= names.locals@.len(),
        decreases i,
    {
        if str_eq(names.locals[i - 1].name.as_str(), name) {
            let slot = crate::manifest::slot(names.params.len(), i - 1);
            return Some((slot, names.locals[i - 1].ty, false));
        }
        i = i - 1;
    }
    let mut k: usize = names.params.len();
    while k > 0
        invariant
            k <= names.params@.len(),
        decreases k,
    {
        if str_eq(names.params[k - 1].0.as_str(), name) {
            let slot = crate::manifest::slot(0, k - 1);
            return Some((slot, names.params[k - 1].1, true));
        }
        k = k - 1;
    }
    None
}

/// The IR operator and result type of a pysub operator on operands of type `t`.
fn lower_binary_op(op: AstBinaryOp, t: ValueType) -> (r: (BinaryOp, ValueType))
    ensures
        !(op is LogicalAnd || op is LogicalOr) ==> forall|a: int, b: int|
            #[trigger] crate::ir::spec_ir_binary_value(r.0, a, b) == crate::ast::spec_ast_binary_value(op, a, b),
        (op is LogicalAnd || op is LogicalOr) ==> forall|a: int, b: int|
            0 <= a <= 1 && 0 <= b <= 1 ==> (#[trigger] crate::ir::spec_ir_binary_value(r.0, a, b) != 0)
                == (crate::ast::spec_ast_binary_value(op, a, b) != 0),
        r.1 == (if op is Add || op is Sub || op is Mul || op is Div || op is Mod {
            t
        } else {
            ValueType::I32
        }),
{
    match op {
        AstBinaryOp::Add => (BinaryOp::Add, t),
        AstBinaryOp::Sub => (BinaryOp::Sub, t),
        AstBinaryOp::Mul => (BinaryOp::Mul, t),
        AstBinaryOp::Div => (BinaryOp::DivUInt, t),
        AstBinaryOp::Mod => (BinaryOp::RemUInt, t),
        AstBinaryOp::Equal => (BinaryOp::Equal, ValueType::I32),
        AstBinaryOp::NotEqual => (BinaryOp::NotEqual, ValueType::I32),
        AstBinaryOp::Less => (BinaryOp::Less, ValueType::I32),
        AstBinaryOp::LessEqual => (BinaryOp::LessEqual, ValueType::I32),
        AstBinaryOp::Greater => (BinaryOp::Greater, ValueType::I32),
        AstBinaryOp::GreaterEqual => (BinaryOp::GreaterEqual, ValueType::I32),
        AstBinaryOp::LogicalAnd => (BinaryOp::Mul, ValueType::I32),
        AstBinaryOp::LogicalOr => (BinaryOp::Add, ValueType::I32),
    }
}

/// `e != 0` as a 32-bit truth value.
fn truth(e: Expr) -> (r: Expr) {
    let zero = match e.value_type() {
        ValueType::I32 => Expr::ConstI32(0),
        ValueType::I64 => Expr::ConstI64(0),
    };
    Expr::Binary { op: BinaryOp::NotEqual, left: Box::new(e), right: Box::new(zero), ty: ValueType::I32 }
}

/// The IR expression of a pysub expression; `expected` is the type the context wants, which
/// decides the width of number literals.
#[verifier::loop_isolation(false)]
fn lower_expr(e: &Expression, names: &FnNames, expected: Option<ValueType>) -> (r: Result<Expr, IrError>)
    ensures
        (*e is Binary && !(e->Binary_op is LogicalAnd || e->Binary_op is LogicalOr) && r is Ok) ==> (r->Ok_0 matches Expr::Binary {
            op: o,
            ..
        } && forall|a: int, b: int|
            #[trigger] crate::ir::spec_ir_binary_value(o, a, b) == crate::ast::spec_ast_binary_value(e->Binary_op, a, b)),
        (*e is Unary && e->Unary_op == UnaryOp::Neg && r is Ok) ==> (r->Ok_0 matches Expr::Binary { op: o, .. } && forall|x: int|
            #[trigger] crate::ir::spec_ir_binary_value(o, 0, x) == -x),
        (*e is Unary && e->Unary_op == UnaryOp::Not && r is Ok) ==> (r->Ok_0 matches Expr::Binary { op: o, ty: t, .. } && t
            == ValueType::I32 && forall|x: int| #[trigger] crate::ir::spec_ir_binary_value(o, x, 0) == (if x == 0 {
            1int
        } else {
            0
        })),
    decreases e,
{
    match e {
        Expression::Identifier(id) => match lookup(names, id.0.as_str()) {
            Some((index, ty, true)) => Ok(Expr::Param { index, ty }),
            Some((index, ty, false)) => Ok(Expr::Local { index, ty }),
            None => Err(IrError::UnknownIdentifier(copy_string(&id.0))),
        },
        Expression::Literal(lit) => match lit {
            Literal::Bool(b) => Ok(Expr::ConstI32(if *b { 1 } else { 0 })),
            Literal::Number(raw) => {
                let value = match crate::manifest::number_literal(raw.as_str()) {
                    Some(v) => v,
                    None => {
                        return Err(IrError::UnsupportedExpression(copy_string(raw)));
                    },
                };
                match expected {
                    Some(ValueType::I32) => {
                        if value < -2147483648 || value > 2147483647 {
                            return Err(IrError::UnsupportedExpression(copy_string(raw)));
                        }
                        Ok(Expr::ConstI32(value as i32))
                    },
                    _ => Ok(Expr::ConstI64(value)),
                }
            },
            _ => Err(IrError::UnsupportedExpression(str_to_string("string, bytes or address literal"))),
        },
        Expression::Binary { left, op, right } => {
            let l = lower_expr(left, names, None)?;
            let r = lower_expr(right, names, Some(l.value_type()))?;
            if l.value_type() != r.value_type() {
                return Err(IrError::TypeMismatch { expected: l.value_type(), found: r.value_type() });
            }
            match op {
                AstBinaryOp::LogicalAnd => {
                    Ok(Expr::Binary { op: BinaryOp::Mul, left: Box::new(truth(l)), right: Box::new(truth(r)), ty: ValueType::I32 })
                },
                AstBinaryOp::LogicalOr => {
                    let sum = Expr::Binary { op: BinaryOp::Add, left: Box::new(truth(l)), right: Box::new(truth(r)), ty: ValueType::I32 };
                    Ok(Expr::Binary { op: BinaryOp::NotEqual, left: Box::new(sum), right: Box::new(Expr::ConstI32(0)), ty: ValueType::I32 })
                },
                _ => {
                    let t = l.value_type();
                    let (ir_op, ty) = lower_binary_op(*op, t);
                    Ok(Expr::Binary { op: ir_op, left: Box::new(l), right: Box::new(r), ty })
                },
            }
        },
        Expression::Unary { op, expr } => {
            let inner = lower_expr(expr, names, expected)?;
            match op {
                UnaryOp::Neg => {
                    let ty = inner.value_type();
                    let zero = match ty {
                        ValueType::I32 => Expr::ConstI32(0),
                        ValueType::I64 => Expr::ConstI64(0),
                    };
                    Ok(Expr::Binary { op: BinaryOp::Sub, left: Box::new(zero), right: Box::new(inner), ty })
                },
                UnaryOp::Not => {
                    let zero = match inner.value_type() {
                        ValueType::I32 => Expr::ConstI32(0),
                        ValueType::I64 => Expr::ConstI64(0),
                    };
                    Ok(Expr::Binary { op: BinaryOp::Equal, left: Box::new(inner), right: Box::new(zero), ty: ValueType::I32 })
                },
            }
        },
        Expression::Call { callee, args } => {
            let name = match &**callee {
                Expression::Identifier(id) => id,
                _ => {
                    return Err(IrError::UnsupportedExpression(str_to_string("call of a non-name")));
                },
            };
            let host = match HostFunction::from_identifier(name.0.as_str()) {
                Some(h) => h,
                None => {
                    return Err(IrError::UnknownIdentifier(copy_string(&name.0)));
                },
            };
            let expected_params = host.params();
            if args.len() != expected_params.len() {
                return Err(IrError::UnsupportedExpression(str_to_string("host call arity")));
            }
            let mut lowered: Vec<Expr> = Vec::new();
            let mut i: usize = 0;
            while i < args.len()
                invariant
                    i <= args@.len(),
                    args@.len() == expected_params@.len(),
                decreases args@.len() - i,
            {
                proof {
                    assert(decreases_to!(e => *args));
                    assert(decreases_to!(*args => args@));
                    assert(decreases_to!(args@ => args@[i as int]));
                }
                let a = lower_expr(&args[i], names, Some(expected_params[i]))?;
                if a.value_type() != expected_params[i] {
                    return Err(IrError::TypeMismatch { expected: expected_params[i], found: a.value_type() });
                }
                lowered.push(a);
                i = i + 1;
            }
            Ok(Expr::HostCall { function: host, args: lowered })
        },
        Expression::Index { .. } | Expression::Attribute { .. } => {
            Err(IrError::UnsupportedExpression(str_to_string("index or attribute access")))
        },
    }
}

/// Lowers statements, appending to `out`; `ret` is the function's return type.
fn lower_stmts(body: &[Statement], names: &mut FnNames, ret: Option<ValueType>, out: &mut Vec<Stmt>) -> (r: Result<(), IrError>)
    decreases body@, 1int,
{
    let mut i: usize = 0;
    while i < body.len()
        invariant
            i <= body@.len(),
        decreases body@.len() - i,
    {
        proof {
            assert(decreases_to!(body@ => body@[i as int]));
        }
        lower_stmt(&body[i], names, ret, out)?;
        i = i + 1;
    }
    Ok(())
}

/// Lowers one statement, appending to `out`.
#[verifier::loop_isolation(false)]
fn lower_stmt(st: &Statement, names: &mut FnNames, ret: Option<ValueType>, out: &mut Vec<Stmt>) -> (r: Result<(), IrError>)
    decreases st, 0int,
{
    match st {
        Statement::Let { name, ty, value, .. } => {
            let t = value_type(ty);
            let v = lower_expr(value, names, Some(t))?;
            if v.value_type() != t {
                return Err(IrError::TypeMismatch { expected: t, found: v.value_type() });
            }
            let index = crate::manifest::slot(names.params.len(), names.locals.len());
            names.locals.push(Local { name: copy_string(&name.0), ty: t });
            out.push(Stmt::Let { local: index, value: v });
            Ok(())
        },
        Statement::Assign { target, value } => {
            let id = match target {
                Expression::Identifier(id) => id,
                _ => {
                    return Err(IrError::UnsupportedStatement(str_to_string("assignment to a non-name")));
                },
            };
            let (index, t) = match lookup(names, id.0.as_str()) {
                Some((index, t, _)) => (index, t),
                None => {
                    return Err(IrError::UnknownIdentifier(copy_string(&id.0)));
                },
            };
            let v = lower_expr(value, names, Some(t))?;
            if v.value_type() != t {
                return Err(IrError::TypeMismatch { expected: t, found: v.value_type() });
            }
            out.push(Stmt::Assign { local: index, value: v });
            Ok(())
        },
        Statement::If { branches, else_branch } => {
            let mut else_body: Vec<Stmt> = Vec::new();
            if let Some(eb) = else_branch {
                proof {
                    assert(decreases_to!(st => *else_branch));
                    assert(decreases_to!(*else_branch => *eb));
                    assert(decreases_to!(*eb => eb@));
                }
                lower_stmts(eb.as_slice(), names, ret, &mut else_body)?;
            }
            let mut b: usize = branches.len();
            while b > 0
                invariant
                    b <= branches@.len(),
                decreases b,
            {
                proof {
                    assert(decreases_to!(st => *branches));
                    assert(decreases_to!(*branches => branches@));
                    assert(decreases_to!(branches@ => branches@[b - 1]));
                    assert(decreases_to!(branches@[b - 1] => branches@[b - 1].body));
                    assert(decreases_to!(branches@[b - 1].body => branches@[b - 1].body@));
                }
                let condition = lower_expr(&branches[b - 1].condition, names, None)?;
                let mut then_body: Vec<Stmt> = Vec::new();
                lower_stmts(branches[b - 1].body.as_slice(), names, ret, &mut then_body)?;
                let nested = Stmt::If { condition, then_body, else_body };
                else_body = Vec::new();
                else_body.push(nested);
                b = b - 1;
            }
            out.append(&mut else_body);
            Ok(())
        },
        Statement::While { condition, body } => {
            let c = lower_expr(condition, names, None)?;
            proof {
                assert(decreases_to!(st => *body));
                assert(decreases_to!(*body => body@));
            }
            let mut lowered: Vec<Stmt> = Vec::new();
            lower_stmts(body.as_slice(), names, ret, &mut lowered)?;
            out.push(Stmt::While { condition: c, body: lowered });
            Ok(())
        },
        Statement::Return(value) => {
            let v = match value {
                Some(e) => Some(lower_expr(e, names, ret)?),
                None => None,
            };
            check_return(&v, ret)?;
            out.push(Stmt::Return { value: v });
            Ok(())
        },
        Statement::Break => {
            out.push(Stmt::Break);
            Ok(())
        },
        Statement::Continue => {
            out.push(Stmt::Continue);
            Ok(())
        },
        Statement::Pass => Ok(()),
        Statement::Expr(e) => {
            let v = lower_expr(e, names, None)?;
            out.push(Stmt::Expr(v));
            Ok(())
        },
    }
}

/// A returned value must have the function's return type; a function without one returns
/// nothing.
fn check_return(v: &Option<Expr>, ret: Option<ValueType>) -> (r: Result<(), IrError>)
    ensures
        r is Ok <==> match (v, ret) {
            (Some(e), Some(t)) => e@.value_type() == t,
            (None, None) => true,
            _ => false,
        },
{
    match (v, ret) {
        (Some(e), Some(t)) => {
            if e.value_type() != t {
                Err(IrError::TypeMismatch { expected: t, found: e.value_type() })
            } else {
                Ok(())
            }
        },
        (None, None) => Ok(()),
        (Some(e), None) => Err(IrError::TypeMismatch { expected: ValueType::I32, found: e.value_type() }),
        (None, Some(t)) => Err(IrError::TypeMismatch { expected: t, found: ValueType::I32 }),
    }
}

/// Whether `g` has the name of `f`, and its parameters and return type by the value mapping:
/// `u128` and `u64` as `i64`, every other type as `i32`.
pub open spec fn spec_signature_lowered(g: Function, f: AstFunction) -> bool {
    &&& g.name@ == f.name.0@
    &&& g.params@.len() == f.params@.len()
    &&& forall|i: int| 0 <= i < f.params@.len() ==> (#[trigger] g.params@[i]).name@ == f.params@[i].name.0@
        && g.params@[i].ty == spec_value_type(f.params@[i].ty)
    &&& g.return_type == match f.return_type {
        Some(t) => Some(spec_value_type(t)),
        None => None,
    }
}

/// Lowers a function: a single `return` becomes a return body, anything else a block.
fn lower_function(f: &AstFunction) -> (r: Result<Function, IrError>)
    ensures
        r matches Ok(g) ==> spec_signature_lowered(g, *f),
{
    let params = lower_params(f.params.as_slice());
    let ret = match &f.return_type {
        Some(t) => Some(value_type(t)),
        None => None,
    };
    let mut pnames: Vec<(String, ValueType)> = Vec::new();
    let mut i: usize = 0;
    while i < params.len()
        invariant
            i <= params@.len(),
        decreases params@.len() - i,
    {
        pnames.push((copy_string(&params[i].name), params[i].ty));
        i = i + 1;
    }
    let mut names = FnNames { params: pnames, locals: Vec::new() };
    if f.body.len() == 1 {
        if let Statement::Return(value) = &f.body[0] {
            let v = match value {
                Some(e) => Some(lower_expr(e, &names, ret)?),
                None => None,
            };
            check_return(&v, ret)?;
            return Ok(Function { name: copy_string(&f.name.0), params, return_type: ret, body: FunctionBody::Return { value: v } });
        }
    }
    let mut body: Vec<Stmt> = Vec::new();
    lower_stmts(f.body.as_slice(), &mut names, ret, &mut body)?;
    Ok(Function {
        name: copy_string(&f.name.0),
        params,
        return_type: ret,
        body: FunctionBody::Block { locals: names.locals, body },
    })
}

/// Lowers the functions of a list, in order.
fn lower_functions(fs: &[AstFunction]) -> (r: Result<Vec<Function>, IrError>)
    ensures
        r matches Ok(v) ==> v@.len() == fs@.len() && forall|i: int| 0 <= i < fs@.len()
            ==> spec_signature_lowered(#[trigger] v@[i], fs@[i]),
{
    let mut out: Vec<Function> = Vec::new();
    let mut i: usize = 0;
    while i < fs.len()
        invariant
            i <= fs@.len(),
            out@.len() == i,
            forall|k: int| 0 <= k < i ==> spec_signature_lowered(#[trigger] out@[k], fs@[k]),
        decreases fs@.len() - i,
    {
        let g = lower_function(&fs[i])?;
        out.push(g);
        i = i + 1;
    }
    Ok(out)
}

/// Whether `k` has the name of `c`, its parameters and storage fields by name and by the value
/// mapping, and its functions lowered as `spec_signature_lowered` says.
pub open spec fn spec_contract_lowered(k: Contract, c: AstContract) -> bool {
    &&& k.name@ == c.name.0@
    &&& k.params@.len() == c.params@.len()
    &&& forall|i: int| 0 <= i < c.params@.len() ==> (#[trigger] k.params@[i]).name@ == c.params@[i].name.0@
        && k.params@[i].ty == spec_value_type(c.params@[i].ty)
    &&& k.storage@.len() == c.storage@.len()
    &&& forall|i: int| 0 <= i < c.storage@.len() ==> (#[trigger] k.storage@[i]).name@ == c.storage@[i].name.0@
        && k.storage@[i].ty == spec_value_type(c.storage@[i].ty)
    &&& k.functions@.len() == c.functions@.len()
    &&& forall|i: int| 0 <= i < c.functions@.len() ==> spec_signature_lowered(#[trigger] k.functions@[i], c.functions@[i])
}

/// Whether `m` has the free functions and contracts of `p`, in order, lowered as
/// `spec_signature_lowered` and `spec_contract_lowered` say, and no data segments.
pub open spec fn spec_module_lowered(m: Module, p: Program) -> bool {
    &&& m.functions@.len() == p.functions@.len()
    &&& forall|i: int| 0 <= i < p.functions@.len() ==> spec_signature_lowered(#[trigger] m.functions@[i], p.functions@[i])
    &&& m.contracts@.len() == p.contracts@.len()
    &&& forall|i: int| 0 <= i < p.contracts@.len() ==> spec_contract_lowered(#[trigger] m.contracts@[i], p.contracts@[i])
    &&& m.data_segments@.len() == 0
}

/// Lowers a contract: its parameters, its storage fields (by machine type) and functions.
fn lower_contract(c: &AstContract) -> (r: Result<Contract, IrError>)
    ensures
        r matches Ok(k) ==> spec_contract_lowered(k, *c),
{
    let params = lower_params(c.params.as_slice());
    let mut storage: Vec<Field> = Vec::new();
    let mut i: usize = 0;
    while i < c.storage.len()
        invariant
            i <= c.storage@.len(),
            storage@.len() == i,
            forall|k: int| 0 <= k < i ==> (#[trigger] storage@[k]).name@ == c.storage@[k].name.0@
                && storage@[k].ty == spec_value_type(c.storage@[k].ty),
        decreases c.storage@.len() - i,
    {
        storage.push(Field { name: copy_string(&c.storage[i].name.0), ty: value_type(&c.storage[i].ty) });
        i = i + 1;
    }
    let functions = lower_functions(c.functions.as_slice())?;
    Ok(Contract { name: copy_string(&c.name.0), params, storage, functions })
}

/// Lowers a checked program into the IR: its free functions and its contracts, in order.
pub fn lower_to_ir(program: &Program) -> (r: Result<Module, IrError>)
    ensures
        r matches Ok(m) ==> spec_module_lowered(m, *program),
{
    let functions = lower_functions(program.functions.as_slice())?;
    let mut contracts: Vec<Contract> = Vec::new();
    let mut i: usize = 0;
    while i < program.contracts.len()
        invariant
            i <= program.contracts@.len(),
            contracts@.len() == i,
            forall|k: int| 0 <= k < i ==> spec_contract_lowered(#[trigger] contracts@[k], program.contracts@[k]),
        decreases program.contracts@.len() - i,
    {
        let c = lower_contract(&program.contracts[i])?;
        contracts.push(c);
        i = i + 1;
    }
    Ok(Module { contracts, functions, data_segments: Vec::new() })
}

} // verus!
