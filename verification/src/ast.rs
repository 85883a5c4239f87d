//! Abstract syntax tree of pysub programs.

use vstd::prelude::*;
use crate::text::{
    from_chars, to_chars, str_to_string, chars_eq, copy_range, lines, message, starts_with, strip_prefix,
    trim, spec_trim, spec_starts_with, spec_find, spec_rfind, spec_lines,
};
use crate::dsl::{
    spec_split_params as spec_split_params_view, DslBinaryOp, DslCallArg, DslExpr, DslLiteral, DslUnaryOp, ExprV,
    LitView, dsl_arg_view, dsl_args_view, spec_parse_expr, spec_split_assignment, spec_split_char,
};
use crate::parser::{ParseError, ParsedProgram};

verus! {

/// An identifier.
#[derive(Debug)]
pub struct Ident(pub String);

impl Ident {
    /// An identifier with the given text.
    pub fn new(value: &str) -> (r: Ident)
        ensures
            r.0@ == value@,
    {
        Ident(str_to_string(value))
    }

    /// The text of the identifier.
    pub fn as_str(&self) -> (r: &str)
        ensures
            r@ == self.0@,
    {
        self.0.as_str()
    }
}

/// Primitive types.
#[derive(Debug, Clone, Copy, PartialEq, Eq, Structural)]
pub enum PrimitiveType {
    U128,
    U64,
    Bool,
    Bytes,
    String,
    Address,
}

/// Types: primitives and maps.
#[derive(Debug)]
pub enum Type {
    Primitive(PrimitiveType),
    Mapping { key: Box<Type>, value: Box<Type> },
}

/// The printed form of a primitive type.
pub open spec fn spec_primitive_text(p: PrimitiveType) -> Seq<char> {
    match p {
        PrimitiveType::U128 => seq!['u', '1', '2', '8'],
        PrimitiveType::U64 => seq!['u', '6', '4'],
        PrimitiveType::Bool => seq!['b', 'o', 'o', 'l'],
        PrimitiveType::Bytes => seq!['b', 'y', 't', 'e', 's'],
        PrimitiveType::String => seq!['s', 't', 'r', 'i', 'n', 'g'],
        PrimitiveType::Address => seq!['a', 'd', 'd', 'r', 'e', 's', 's'],
    }
}

/// The printed form of a type: `u128`, ..., `map[key, value]`.
pub open spec fn spec_type_text(t: Type) -> Seq<char>
    decreases t,
{
    match t {
        Type::Primitive(p) => spec_primitive_text(p),
        Type::Mapping { key, value } => seq!['m', 'a', 'p', '['] + spec_type_text(*key) + seq![',', ' ']
            + spec_type_text(*value) + seq![']'],
    }
}

/// Structural equality of types.
pub open spec fn spec_same_type(a: Type, b: Type) -> bool
    decreases a,
{
    match (a, b) {
        (Type::Primitive(x), Type::Primitive(y)) => x == y,
        (Type::Mapping { key: k1, value: v1 }, Type::Mapping { key: k2, value: v2 }) => {
            spec_same_type(*k1, *k2) && spec_same_type(*v1, *v2)
        },
        _ => false,
    }
}

impl Type {
    /// The printed form of the type.
    pub fn text(&self) -> (r: Vec<char>)
        ensures
            r@ == spec_type_text(*self),
        decreases self,
    {
        match self {
            Type::Primitive(p) => match p {
                PrimitiveType::U128 => vec!['u', '1', '2', '8'],
                PrimitiveType::U64 => vec!['u', '6', '4'],
                PrimitiveType::Bool => vec!['b', 'o', 'o', 'l'],
                PrimitiveType::Bytes => vec!['b', 'y', 't', 'e', 's'],
                PrimitiveType::String => vec!['s', 't', 'r', 'i', 'n', 'g'],
                PrimitiveType::Address => vec!['a', 'd', 'd', 'r', 'e', 's', 's'],
            },
            Type::Mapping { key, value } => {
                let mut r = vec!['m', 'a', 'p', '['];
                let mut k = key.text();
                r.append(&mut k);
                r.push(',');
                r.push(' ');
                let mut v = value.text();
                r.append(&mut v);
                r.push(']');
                r
            },
        }
    }

    /// Whether two types are the same.
    pub fn same(&self, other: &Type) -> (r: bool)
        ensures
            r == spec_same_type(*self, *other),
        decreases self,
    {
        match (self, other) {
            (Type::Primitive(x), Type::Primitive(y)) => *x == *y,
            (Type::Mapping { key: k1, value: v1 }, Type::Mapping { key: k2, value: v2 }) => {
                k1.same(k2) && v1.same(v2)
            },
            _ => false,
        }
    }

    /// A copy of the type.
    pub fn copy(&self) -> (r: Type)
        ensures
            r == *self,
        decreases self,
    {
        match self {
            Type::Primitive(p) => Type::Primitive(*p),
            Type::Mapping { key, value } => Type::Mapping {
                key: Box::new(key.copy()),
                value: Box::new(value.copy()),
            },
        }
    }
}

/// A parsed program: contracts and free functions.
#[derive(Debug)]
pub struct Program {
    pub contracts: Vec<Contract>,
    pub functions: Vec<Function>,
}

impl Program {
    /// An empty program.
    pub fn new() -> (r: Program)
        ensures
            r.contracts@.len() == 0,
            r.functions@.len() == 0,
    {
        Program { contracts: Vec::new(), functions: Vec::new() }
    }
}

/// A contract: parameters, storage fields and member functions.
#[derive(Debug)]
pub struct Contract {
    pub name: Ident,
    pub params: Vec<Param>,
    pub storage: Vec<StorageField>,
    pub functions: Vec<Function>,
}

/// A storage field of a contract, with an optional initializer.
#[derive(Debug)]
pub struct StorageField {
    pub name: Ident,
    pub ty: Type,
    pub initializer: Option<Expression>,
}

/// Visibility of a function.
#[derive(Debug, Clone, Copy, PartialEq, Eq, Structural)]
pub enum Visibility {
    Public,
    Private,
}

/// A function.
#[derive(Debug)]
pub struct Function {
    pub name: Ident,
    pub visibility: Visibility,
    pub params: Vec<Param>,
    pub return_type: Option<Type>,
    pub body: Vec<Statement>,
}

/// A typed parameter.
#[derive(Debug)]
pub struct Param {
    pub name: Ident,
    pub ty: Type,
}

/// One `if`/`elif` branch.
#[derive(Debug)]
pub struct IfBranch {
    pub condition: Expression,
    pub body: Vec<Statement>,
}

/// Statements.
#[derive(Debug)]
pub enum Statement {
    Let { mutable: bool, name: Ident, ty: Type, value: Expression },
    Assign { target: Expression, value: Expression },
    If { branches: Vec<IfBranch>, else_branch: Option<Vec<Statement>> },
    While { condition: Expression, body: Vec<Statement> },
    Return(Option<Expression>),
    Break,
    Continue,
    Pass,
    Expr(Expression),
}

/// Expressions.
#[derive(Debug)]
pub enum Expression {
    Identifier(Ident),
    Literal(Literal),
    Binary { left: Box<Expression>, op: BinaryOp, right: Box<Expression> },
    Unary { op: UnaryOp, expr: Box<Expression> },
    Call { callee: Box<Expression>, args: Vec<Expression> },
    Index { target: Box<Expression>, index: Box<Expression> },
    Attribute { target: Box<Expression>, attribute: Ident },
}

/// Binary operators.
#[derive(Debug, Clone, Copy, PartialEq, Eq, Structural)]
pub enum BinaryOp {
    LogicalOr,
    LogicalAnd,
    Equal,
    NotEqual,
    Less,
    LessEqual,
    Greater,
    GreaterEqual,
    Add,
    Sub,
    Mul,
    Div,
    Mod,
}

/// Unary operators.
#[derive(Debug, Clone, Copy, PartialEq, Eq, Structural)]
pub enum UnaryOp {
    Neg,
    Not,
}

/// Literals.
#[derive(Debug)]
pub enum Literal {
    Bool(bool),
    Number(String),
    Bytes(Vec<u8>),
    String(String),
    Address(String),
}


/// Errors of AST construction.
#[derive(Debug)]
pub enum AstError {
    Parse(ParseError),
    UnexpectedRule { context: String, found: String },
    MissingChild(String),
    InvalidLiteral { literal: String },
    InvalidType { ty: String },
}

impl AstError {
    /// The message of the error.
    pub open spec fn spec_text(self) -> Seq<char> {
        match self {
            AstError::Parse(e) => "parser error: "@ + e.spec_text(),
            AstError::UnexpectedRule { context, found } => "unexpected rule `"@ + found@ + "` while parsing "@ + context@,
            AstError::MissingChild(context) => "missing child element while parsing "@ + context@,
            AstError::InvalidLiteral { literal } => "invalid literal `"@ + literal@ + "`"@,
            AstError::InvalidType { ty } => "invalid type expression `"@ + ty@ + "`"@,
        }
    }

    /// The message of the error, as its `Display` shows it.
    pub fn text(&self) -> (r: String)
        ensures
            r@ == self.spec_text(),
    {
        match self {
            AstError::Parse(e) => {
                let p1s = e.text();
                let p1 = p1s.as_str();
                let parts = ["parser error: ", p1];
                assert(parts@ == seq!["parser error: ", p1]);
                proof {
                    reveal_with_fuel(crate::text::spec_concat, 3);
                }
                crate::text::message(&parts)
            },
            AstError::UnexpectedRule { context, found } => {
                let p1 = found.as_str();
                let p3 = context.as_str();
                let parts = ["unexpected rule `", p1, "` while parsing ", p3];
                assert(parts@ == seq!["unexpected rule `", p1, "` while parsing ", p3]);
                proof {
                    reveal_with_fuel(crate::text::spec_concat, 5);
                }
                crate::text::message(&parts)
            },
            AstError::MissingChild(context) => {
                let p1 = context.as_str();
                let parts = ["missing child element while parsing ", p1];
                assert(parts@ == seq!["missing child element while parsing ", p1]);
                proof {
                    reveal_with_fuel(crate::text::spec_concat, 3);
                }
                crate::text::message(&parts)
            },
            AstError::InvalidLiteral { literal } => {
                let p1 = literal.as_str();
                let parts = ["invalid literal `", p1, "`"];
                assert(parts@ == seq!["invalid literal `", p1, "`"]);
                proof {
                    reveal_with_fuel(crate::text::spec_concat, 4);
                }
                crate::text::message(&parts)
            },
            AstError::InvalidType { ty } => {
                let p1 = ty.as_str();
                let parts = ["invalid type expression `", p1, "`"];
                assert(parts@ == seq!["invalid type expression `", p1, "`"]);
                proof {
                    reveal_with_fuel(crate::text::spec_concat, 4);
                }
                crate::text::message(&parts)
            },
        }
    }
}

/// The type written `text`, if it is one: a primitive type name, or `map[key, value]`.
pub open spec fn spec_parse_type(text: Seq<char>) -> Option<Type>
    decreases text.len(),
{
    let t = spec_trim(text);
    if t == seq!['u', '1', '2', '8'] {
        Some(Type::Primitive(PrimitiveType::U128))
    } else if t == seq!['u', '6', '4'] {
        Some(Type::Primitive(PrimitiveType::U64))
    } else if t == seq!['b', 'o', 'o', 'l'] {
        Some(Type::Primitive(PrimitiveType::Bool))
    } else if t == seq!['b', 'y', 't', 'e', 's'] {
        Some(Type::Primitive(PrimitiveType::Bytes))
    } else if t == seq!['s', 't', 'r', 'i', 'n', 'g'] {
        Some(Type::Primitive(PrimitiveType::String))
    } else if t == seq!['a', 'd', 'd', 'r', 'e', 's', 's'] {
        Some(Type::Primitive(PrimitiveType::Address))
    } else if crate::text::spec_starts_with(t, seq!['m', 'a', 'p', '[']) && t.len() >= 5 && t.last() == ']' {
        let inner = t.subrange(4, t.len() - 1);
        let parts = spec_split_params_view(inner);
        proof {
            crate::text::lemma_trim_len(text);
            crate::dsl::lemma_split_params_len(inner);
        }
        if parts.len() == 2 {
            match (spec_parse_type(parts[0]), spec_parse_type(parts[1])) {
                (Some(k), Some(v)) => Some(Type::Mapping { key: Box::new(k), value: Box::new(v) }),
                _ => None,
            }
        } else {
            None
        }
    } else {
        None
    }
}

/// The error for text that is not a type.
fn invalid_type(text: &[char]) -> (r: AstError)
    ensures
        r is InvalidType,
{
    AstError::InvalidType { ty: from_chars(text) }
}

/// The type written `text`: `u128`, `u64`, `bool`, `bytes`, `string`, `address`, or
/// `map[key, value]` of two types.
fn parse_type(text: &[char]) -> (r: Result<Type, AstError>)
    ensures
        spec_parse_type(text@) matches Some(t) ==> r == Ok::<Type, AstError>(t),
        spec_parse_type(text@) is None ==> r is Err,
    decreases text@.len(),
{
    let t = trim(text);
    let u128_w: Vec<char> = vec!['u', '1', '2', '8'];
    let u64_w: Vec<char> = vec!['u', '6', '4'];
    let bool_w: Vec<char> = vec!['b', 'o', 'o', 'l'];
    let bytes_w: Vec<char> = vec!['b', 'y', 't', 'e', 's'];
    let string_w: Vec<char> = vec!['s', 't', 'r', 'i', 'n', 'g'];
    let address_w: Vec<char> = vec!['a', 'd', 'd', 'r', 'e', 's', 's'];
    if chars_eq(t.as_slice(), u128_w.as_slice()) {
        return Ok(Type::Primitive(PrimitiveType::U128));
    }
    if chars_eq(t.as_slice(), u64_w.as_slice()) {
        return Ok(Type::Primitive(PrimitiveType::U64));
    }
    if chars_eq(t.as_slice(), bool_w.as_slice()) {
        return Ok(Type::Primitive(PrimitiveType::Bool));
    }
    if chars_eq(t.as_slice(), bytes_w.as_slice()) {
        return Ok(Type::Primitive(PrimitiveType::Bytes));
    }
    if chars_eq(t.as_slice(), string_w.as_slice()) {
        return Ok(Type::Primitive(PrimitiveType::String));
    }
    if chars_eq(t.as_slice(), address_w.as_slice()) {
        return Ok(Type::Primitive(PrimitiveType::Address));
    }
    let map_w: Vec<char> = vec!['m', 'a', 'p', '['];
    proof {
        crate::text::lemma_trim_len(text@);
    }
    if starts_with(t.as_slice(), map_w.as_slice()) && t.len() >= 5 && t[t.len() - 1] == ']' {
        let inner = copy_range(t.as_slice(), 4, t.len() - 1);
        let parts = crate::dsl::split_params(inner.as_slice());
        if parts.len() == 2 {
            proof {
                crate::dsl::lemma_split_params_len(inner@);
                assert(parts@[0]@ == spec_split_params_view(inner@)[0]);
                assert(parts@[1]@ == spec_split_params_view(inner@)[1]);
            }
            let key = parse_type(parts[0].as_slice())?;
            let value = parse_type(parts[1].as_slice())?;
            return Ok(Type::Mapping { key: Box::new(key), value: Box::new(value) });
        }
    }
    Err(invalid_type(t.as_slice()))
}


/// The value of a pysub literal.
pub ghost enum PyLit {
    Bool(bool),
    Number(Seq<char>),
    Bytes(Seq<u8>),
    Str(Seq<char>),
    Address(Seq<char>),
}

/// The value of a pysub expression.
pub ghost enum PyExpr {
    Identifier(Seq<char>),
    Literal(PyLit),
    Binary { left: Box<PyExpr>, op: BinaryOp, right: Box<PyExpr> },
    Unary { op: UnaryOp, expr: Box<PyExpr> },
    Call { callee: Box<PyExpr>, args: Seq<PyExpr> },
    Index { target: Box<PyExpr>, index: Box<PyExpr> },
    Attribute { target: Box<PyExpr>, attribute: Seq<char> },
}

impl Expression {
    /// The value of the expression.
    pub open spec fn view_py(&self) -> PyExpr
        decreases self, 0nat,
    {
        match self {
            Expression::Identifier(id) => PyExpr::Identifier(id.0@),
            Expression::Literal(lit) => PyExpr::Literal(
                match lit {
                    Literal::Bool(b) => PyLit::Bool(*b),
                    Literal::Number(n) => PyLit::Number(n@),
                    Literal::Bytes(b) => PyLit::Bytes(b@),
                    Literal::String(v) => PyLit::Str(v@),
                    Literal::Address(a) => PyLit::Address(a@),
                },
            ),
            Expression::Binary { left, op, right } => PyExpr::Binary {
                left: Box::new(left.view_py()),
                op: *op,
                right: Box::new(right.view_py()),
            },
            Expression::Unary { op, expr } => PyExpr::Unary { op: *op, expr: Box::new(expr.view_py()) },
            Expression::Call { callee, args } => {
                proof {
                    assert(decreases_to!(self => *args));
                }
                PyExpr::Call { callee: Box::new(callee.view_py()), args: py_exprs_view(args@) }
            },
            Expression::Index { target, index } => PyExpr::Index {
                target: Box::new(target.view_py()),
                index: Box::new(index.view_py()),
            },
            Expression::Attribute { target, attribute } => PyExpr::Attribute {
                target: Box::new(target.view_py()),
                attribute: attribute.0@,
            },
        }
    }
}

/// The values of a list of expressions.
pub open spec fn py_exprs_view(s: Seq<Expression>) -> Seq<PyExpr>
    decreases s, s.len(),
{
    if s.len() == 0 {
        Seq::empty()
    } else {
        proof {
            assert(decreases_to!(s => s[s.len() - 1]));
        }
        py_exprs_view(s.drop_last()).push(s[s.len() - 1].view_py())
    }
}

impl View for Expression {
    type V = PyExpr;

    open spec fn view(&self) -> PyExpr {
        self.view_py()
    }
}

/// The pysub operator of a DSL operator.
pub open spec fn spec_py_op(op: DslBinaryOp) -> BinaryOp {
    match op {
        DslBinaryOp::LogicalOr => BinaryOp::LogicalOr,
        DslBinaryOp::LogicalAnd => BinaryOp::LogicalAnd,
        DslBinaryOp::Equal => BinaryOp::Equal,
        DslBinaryOp::NotEqual => BinaryOp::NotEqual,
        DslBinaryOp::Less => BinaryOp::Less,
        DslBinaryOp::LessEqual => BinaryOp::LessEqual,
        DslBinaryOp::Greater => BinaryOp::Greater,
        DslBinaryOp::GreaterEqual => BinaryOp::GreaterEqual,
        DslBinaryOp::Add => BinaryOp::Add,
        DslBinaryOp::Sub => BinaryOp::Sub,
        DslBinaryOp::Mul => BinaryOp::Mul,
        DslBinaryOp::Div => BinaryOp::Div,
        DslBinaryOp::Mod => BinaryOp::Mod,
    }
}

/// The pysub expression of a parsed expression: the same tree, where it holds no list, map,
/// `None` or named argument.
pub open spec fn spec_convert(e: ExprV) -> Option<PyExpr>
    decreases e, 0nat,
{
    match e {
        ExprV::Identifier(n) => Some(PyExpr::Identifier(n)),
        ExprV::Literal(lit) => match lit {
            LitView::Bool(b) => Some(PyExpr::Literal(PyLit::Bool(b))),
            LitView::Number(n) => Some(PyExpr::Literal(PyLit::Number(n))),
            LitView::Bytes(b) => Some(PyExpr::Literal(PyLit::Bytes(b))),
            LitView::Str(v) => Some(PyExpr::Literal(PyLit::Str(v))),
            LitView::Null => None,
        },
        ExprV::Binary { left, op, right } => match (spec_convert(*left), spec_convert(*right)) {
            (Some(l), Some(r)) => Some(PyExpr::Binary { left: Box::new(l), op: spec_py_op(op), right: Box::new(r) }),
            _ => None,
        },
        ExprV::Unary { op, expr } => match spec_convert(*expr) {
            Some(x) => Some(
                PyExpr::Unary {
                    op: match op {
                        DslUnaryOp::Neg => UnaryOp::Neg,
                        DslUnaryOp::Not => UnaryOp::Not,
                    },
                    expr: Box::new(x),
                },
            ),
            None => None,
        },
        ExprV::Call { callee, args } => match spec_convert(*callee) {
            Some(c) => match spec_convert_args(args, 0, Seq::empty()) {
                Some(xs) => Some(PyExpr::Call { callee: Box::new(c), args: xs }),
                None => None,
            },
            None => None,
        },
        ExprV::Index { target, index } => match (spec_convert(*target), spec_convert(*index)) {
            (Some(t), Some(x)) => Some(PyExpr::Index { target: Box::new(t), index: Box::new(x) }),
            _ => None,
        },
        ExprV::Attribute { target, attribute } => match spec_convert(*target) {
            Some(t) => Some(PyExpr::Attribute { target: Box::new(t), attribute }),
            None => None,
        },
        _ => None,
    }
}

/// The pysub expressions of positional call arguments from `i` on, after `acc`.
pub open spec fn spec_convert_args(args: Seq<(Option<Seq<char>>, ExprV)>, i: int, acc: Seq<PyExpr>) -> Option<
    Seq<PyExpr>,
>
    decreases args, args.len() - i,
{
    if i < 0 || i >= args.len() {
        Some(acc)
    } else {
        proof {
            assert(decreases_to!(args => args[i]));
        }
        match args[i].0 {
            Some(_) => None,
            None => match spec_convert(args[i].1) {
                Some(x) => spec_convert_args(args, i + 1, acc.push(x)),
                None => None,
            },
        }
    }
}

/// The integer a pysub binary operator computes from two integer operands: the arithmetic
/// result, or 1 when a comparison or a logical operator (on nonzero as true) holds and 0 when
/// it fails.
pub open spec fn spec_ast_binary_value(op: BinaryOp, a: int, b: int) -> int {
    match op {
        BinaryOp::LogicalOr => if a != 0 || b != 0 { 1 } else { 0 },
        BinaryOp::LogicalAnd => if a != 0 && b != 0 { 1 } else { 0 },
        BinaryOp::Equal => if a == b { 1 } else { 0 },
        BinaryOp::NotEqual => if a != b { 1 } else { 0 },
        BinaryOp::Less => if a < b { 1 } else { 0 },
        BinaryOp::LessEqual => if a <= b { 1 } else { 0 },
        BinaryOp::Greater => if a > b { 1 } else { 0 },
        BinaryOp::GreaterEqual => if a >= b { 1 } else { 0 },
        BinaryOp::Add => a + b,
        BinaryOp::Sub => a - b,
        BinaryOp::Mul => a * b,
        BinaryOp::Div => a / b,
        BinaryOp::Mod => a % b,
    }
}

/// A unary expression converts to a unary expression of the converted operand whose operator
/// computes what the source operator does: `-` negates, `not` gives 1 exactly for zero.
pub proof fn law_convert_unary(op: DslUnaryOp, inner: ExprV, x: int)
    requires
        spec_convert(inner) is Some,
    ensures
        (spec_convert((ExprV::Unary { op, expr: Box::new(inner) })) matches Some(PyExpr::Unary { op: o, expr: v })
            && Some(*v) == spec_convert(inner) && (o == UnaryOp::Neg <==> op == DslUnaryOp::Neg) && (o == UnaryOp::Not
            <==> op == DslUnaryOp::Not)),
{
}

/// The pysub operator of each expression operator computes what that operator does, on any
/// operands: `*` stays a product, `<` a less-than, and so on.
pub proof fn law_converted_operator_meaning(op: DslBinaryOp, a: int, b: int)
    ensures
        spec_ast_binary_value(spec_py_op(op), a, b) == crate::dsl::spec_dsl_binary_value(op, a, b),
{
}

/// A binary expression converts to a binary expression of the converted operands whose
/// operator computes what the source operator does, on any operands.
pub proof fn law_convert_binary(left: ExprV, op: DslBinaryOp, right: ExprV, a: int, b: int)
    requires
        spec_convert((ExprV::Binary { left: Box::new(left), op, right: Box::new(right) })) is Some,
    ensures
        (spec_convert((ExprV::Binary { left: Box::new(left), op, right: Box::new(right) })) matches Some(
            PyExpr::Binary { left: l, op: o, right: r },
        ) && Some(*l) == spec_convert(left) && Some(*r) == spec_convert(right) && spec_ast_binary_value(o, a, b)
            == crate::dsl::spec_dsl_binary_value(op, a, b)),
{
}

/// The pysub operator of a DSL operator.
fn convert_binary_op(op: DslBinaryOp) -> (r: BinaryOp)
    ensures
        r == spec_py_op(op),
{
    match op {
        DslBinaryOp::LogicalOr => BinaryOp::LogicalOr,
        DslBinaryOp::LogicalAnd => BinaryOp::LogicalAnd,
        DslBinaryOp::Equal => BinaryOp::Equal,
        DslBinaryOp::NotEqual => BinaryOp::NotEqual,
        DslBinaryOp::Less => BinaryOp::Less,
        DslBinaryOp::LessEqual => BinaryOp::LessEqual,
        DslBinaryOp::Greater => BinaryOp::Greater,
        DslBinaryOp::GreaterEqual => BinaryOp::GreaterEqual,
        DslBinaryOp::Add => BinaryOp::Add,
        DslBinaryOp::Sub => BinaryOp::Sub,
        DslBinaryOp::Mul => BinaryOp::Mul,
        DslBinaryOp::Div => BinaryOp::Div,
        DslBinaryOp::Mod => BinaryOp::Mod,
    }
}

/// The pysub expression of a parsed expression; lists, maps, `None` and named arguments are
/// not pysub.
#[verifier::loop_isolation(false)]
fn convert_expr(e: &DslExpr) -> (r: Result<Expression, AstError>)
    ensures
        match spec_convert(e@) {
            Some(v) => r matches Ok(x) && x@ == v,
            None => r is Err,
        },
    decreases e,
{
    match e {
        DslExpr::Identifier(n) => Ok(Expression::Identifier(Ident(n.clone()))),
        DslExpr::Literal(lit) => match lit {
            DslLiteral::Bool(b) => Ok(Expression::Literal(Literal::Bool(*b))),
            DslLiteral::Number(n) => Ok(Expression::Literal(Literal::Number(n.clone()))),
            DslLiteral::String(v) => Ok(Expression::Literal(Literal::String(v.clone()))),
            DslLiteral::Bytes(v) => Ok(Expression::Literal(Literal::Bytes(crate::dsl::copy_bytes(v)))),
            DslLiteral::Null => Err(AstError::InvalidLiteral { literal: str_to_string("None") }),
        },
        DslExpr::ListLiteral(_) | DslExpr::MapLiteral(_) => Err(AstError::UnexpectedRule {
            context: str_to_string("primary"),
            found: str_to_string("collection literal"),
        }),
        DslExpr::Binary { left, op, right } => {
            let l = convert_expr(left)?;
            let r = convert_expr(right)?;
            Ok(Expression::Binary { left: Box::new(l), op: convert_binary_op(*op), right: Box::new(r) })
        },
        DslExpr::Unary { op, expr } => {
            let inner = convert_expr(expr)?;
            let o = match op {
                DslUnaryOp::Neg => UnaryOp::Neg,
                DslUnaryOp::Not => UnaryOp::Not,
            };
            Ok(Expression::Unary { op: o, expr: Box::new(inner) })
        },
        DslExpr::Call { callee, args } => {
            let c = convert_expr(callee)?;
            let mut out: Vec<Expression> = Vec::new();
            let mut i: usize = 0;
            let ghost av = dsl_args_view(args@);
            proof {
                crate::dsl::lemma_dsl_args_view_index(args@);
            }
            assert(py_exprs_view(out@) =~= Seq::<PyExpr>::empty());
            while i < args.len()
                invariant
                    i <= args@.len(),
                    av == dsl_args_view(args@),
                    av.len() == args@.len(),
                    forall|k: int| 0 <= k < args@.len() ==> #[trigger] av[k] == dsl_arg_view(args@[k]),
                    spec_convert_args(av, 0, Seq::empty()) == spec_convert_args(av, i as int, py_exprs_view(out@)),
                decreases args@.len() - i,
            {
                proof {
                    assert(decreases_to!(e => *args));
                    assert(decreases_to!(*args => args@));
                    assert(decreases_to!(args@ => args@[i as int]));
                }
                match &args[i] {
                    DslCallArg::Positional(a) => {
                        let x = convert_expr(a)?;
                        proof {
                            crate::ast::lemma_py_exprs_view_push(out@, x);
                        }
                        out.push(x);
                    },
                    DslCallArg::Named { .. } => {
                        return Err(AstError::UnexpectedRule {
                            context: str_to_string("call arguments"),
                            found: str_to_string("named argument"),
                        });
                    },
                }
                i = i + 1;
            }
            Ok(Expression::Call { callee: Box::new(c), args: out })
        },
        DslExpr::Index { target, index } => {
            let t = convert_expr(target)?;
            let x = convert_expr(index)?;
            Ok(Expression::Index { target: Box::new(t), index: Box::new(x) })
        },
        DslExpr::Attribute { target, attribute } => {
            let t = convert_expr(target)?;
            Ok(Expression::Attribute { target: Box::new(t), attribute: Ident(attribute.clone()) })
        },
    }
}

/// Appending an expression appends its value.
proof fn lemma_py_exprs_view_push(s: Seq<Expression>, e: Expression)
    ensures
        py_exprs_view(s.push(e)) == py_exprs_view(s).push(e@),
{
    assert(s.push(e).drop_last() == s);
}

/// The pysub expression of a text, if it parses to one.
pub open spec fn spec_py_expression(text: Seq<char>) -> Option<PyExpr> {
    match spec_parse_expr(text) {
        Some(ev) => spec_convert(ev),
        None => None,
    }
}

/// Parses the text of an expression.
fn parse_expression(text: &[char]) -> (r: Result<Expression, AstError>)
    ensures
        match spec_py_expression(text@) {
            Some(v) => r matches Ok(x) && x@ == v,
            None => r is Err,
        },
{
    match crate::dsl::parse_expr(text) {
        Ok(e) => convert_expr(&e),
        Err(err) => Err(AstError::InvalidLiteral { literal: crate::dsl::error_text(&err) }),
    }
}

/// The error for a line that is not what the context expects.
fn unexpected(context: &str, line: &[char]) -> (r: AstError) {
    AstError::UnexpectedRule { context: str_to_string(context), found: from_chars(line) }
}

/// The value of a pysub statement.
pub ghost enum PyStmt {
    Let { mutable: bool, name: Seq<char>, ty: Type, value: PyExpr },
    Assign { target: PyExpr, value: PyExpr },
    If { branches: Seq<(PyExpr, Seq<PyStmt>)>, else_branch: Option<Seq<PyStmt>> },
    While { condition: PyExpr, body: Seq<PyStmt> },
    Return(Option<PyExpr>),
    Break,
    Continue,
    Pass,
    Expr(PyExpr),
}

impl Statement {
    /// The value of the statement.
    pub open spec fn view_stmt(&self) -> PyStmt
        decreases self, 0nat,
    {
        match self {
            Statement::Let { mutable, name, ty, value } => PyStmt::Let {
                mutable: *mutable,
                name: name.0@,
                ty: *ty,
                value: value@,
            },
            Statement::Assign { target, value } => PyStmt::Assign { target: target@, value: value@ },
            Statement::If { branches, else_branch } => {
                proof {
                    assert(decreases_to!(self => *branches));
                }
                PyStmt::If {
                    branches: py_branches_view(branches@),
                    else_branch: match else_branch {
                        Some(b) => {
                            proof {
                                assert(decreases_to!(self => *b));
                            }
                            Some(py_stmts_view(b@))
                        },
                        None => None,
                    },
                }
            },
            Statement::While { condition, body } => {
                proof {
                    assert(decreases_to!(self => *body));
                }
                PyStmt::While { condition: condition@, body: py_stmts_view(body@) }
            },
            Statement::Return(v) => PyStmt::Return(
                match v {
                    Some(e) => Some(e@),
                    None => None,
                },
            ),
            Statement::Break => PyStmt::Break,
            Statement::Continue => PyStmt::Continue,
            Statement::Pass => PyStmt::Pass,
            Statement::Expr(e) => PyStmt::Expr(e@),
        }
    }
}

/// The values of a list of statements.
pub open spec fn py_stmts_view(s: Seq<Statement>) -> Seq<PyStmt>
    decreases s, s.len(),
{
    if s.len() == 0 {
        Seq::empty()
    } else {
        proof {
            assert(decreases_to!(s => s[s.len() - 1]));
        }
        py_stmts_view(s.drop_last()).push(s[s.len() - 1].view_stmt())
    }
}

/// The values of a list of `if`/`elif` branches: condition and body.
pub open spec fn py_branches_view(s: Seq<IfBranch>) -> Seq<(PyExpr, Seq<PyStmt>)>
    decreases s, s.len(),
{
    if s.len() == 0 {
        Seq::empty()
    } else {
        proof {
            assert(decreases_to!(s => s[s.len() - 1]));
            assert(decreases_to!(s[s.len() - 1] => s[s.len() - 1].body));
        }
        py_branches_view(s.drop_last()).push((s[s.len() - 1].condition@, py_stmts_view(s[s.len() - 1].body@)))
    }
}

impl View for Statement {
    type V = PyStmt;

    open spec fn view(&self) -> PyStmt {
        self.view_stmt()
    }
}

proof fn lemma_py_stmts_view_push(s: Seq<Statement>, st: Statement)
    ensures
        py_stmts_view(s.push(st)) == py_stmts_view(s).push(st@),
{
    assert(s.push(st).drop_last() == s);
}

proof fn lemma_py_branches_view_push(s: Seq<IfBranch>, b: IfBranch)
    ensures
        py_branches_view(s.push(b)) == py_branches_view(s).push((b.condition@, py_stmts_view(b.body@))),
{
    assert(s.push(b).drop_last() == s);
}

/// The names and types of a list of parameters.
pub open spec fn params_view(s: Seq<Param>) -> Seq<(Seq<char>, Type)> {
    s.map_values(|p: Param| (p.name.0@, p.ty))
}

/// The value of a function.
pub ghost struct FnV {
    pub name: Seq<char>,
    pub visibility: Visibility,
    pub params: Seq<(Seq<char>, Type)>,
    pub return_type: Option<Type>,
    pub body: Seq<PyStmt>,
}

impl View for Function {
    type V = FnV;

    open spec fn view(&self) -> FnV {
        FnV {
            name: self.name.0@,
            visibility: self.visibility,
            params: params_view(self.params@),
            return_type: self.return_type,
            body: py_stmts_view(self.body@),
        }
    }
}

/// The values of a list of functions.
pub open spec fn fns_view(s: Seq<Function>) -> Seq<FnV> {
    s.map_values(|f: Function| f@)
}

/// The name, type and initial value of a storage field.
pub open spec fn storage_field_view(f: StorageField) -> (Seq<char>, Type, Option<PyExpr>) {
    (
        f.name.0@,
        f.ty,
        match f.initializer {
            Some(e) => Some(e@),
            None => None,
        },
    )
}

/// The names, types and initial values of storage fields.
pub open spec fn storage_view(s: Seq<StorageField>) -> Seq<(Seq<char>, Type, Option<PyExpr>)> {
    s.map_values(|f: StorageField| storage_field_view(f))
}

/// The value of a contract.
pub ghost struct ContractV {
    pub name: Seq<char>,
    pub params: Seq<(Seq<char>, Type)>,
    pub storage: Seq<(Seq<char>, Type, Option<PyExpr>)>,
    pub functions: Seq<FnV>,
}

impl View for Contract {
    type V = ContractV;

    open spec fn view(&self) -> ContractV {
        ContractV {
            name: self.name.0@,
            params: params_view(self.params@),
            storage: storage_view(self.storage@),
            functions: fns_view(self.functions@),
        }
    }
}

/// The values of a list of contracts.
pub open spec fn contracts_view(s: Seq<Contract>) -> Seq<ContractV> {
    s.map_values(|c: Contract| c@)
}

/// The value of a program: its contracts and free functions, in order.
pub ghost struct ProgramV {
    pub contracts: Seq<ContractV>,
    pub functions: Seq<FnV>,
}

impl View for Program {
    type V = ProgramV;

    open spec fn view(&self) -> ProgramV {
        ProgramV { contracts: contracts_view(self.contracts@), functions: fns_view(self.functions@) }
    }
}

/// Whether a line holds nothing to read: it is blank, or a comment.
pub open spec fn py_blank(line: Seq<char>) -> bool {
    !(spec_trim(line).len() > 0 && spec_trim(line)[0] != '#')
}

/// The first line at or after `idx` that holds something to read (or the end).
pub open spec fn py_skip(ls: Seq<Seq<char>>, idx: int) -> int
    decreases ls.len() - idx,
{
    if 0 <= idx < ls.len() && py_blank(ls[idx]) {
        py_skip(ls, idx + 1)
    } else {
        idx
    }
}

/// Skipping moves forward and stays within the lines.
pub proof fn lemma_py_skip(ls: Seq<Seq<char>>, idx: int)
    ensures
        idx <= py_skip(ls, idx),
        0 <= idx <= ls.len() ==> py_skip(ls, idx) <= ls.len(),
    decreases ls.len() - idx,
{
    if 0 <= idx < ls.len() && py_blank(ls[idx]) {
        lemma_py_skip(ls, idx + 1);
    }
}

/// The text of a block header before its trailing `:`.
pub open spec fn py_header(rest: Seq<char>) -> Option<Seq<char>> {
    if 0 < rest.len() && rest.last() == ':' {
        Some(rest.subrange(0, rest.len() - 1))
    } else {
        None
    }
}

/// The statements of a block: a `{` line (blank and comment lines skipped), the statements
/// up to the matching `}` line, and the index of the line after it.
pub open spec fn py_block(ls: Seq<Seq<char>>, idx: int) -> Option<(Seq<PyStmt>, int)>
    decreases ls.len() - idx, 1nat,
{
    let i = py_skip(ls, idx);
    if idx < 0 || i >= ls.len() {
        None
    } else if spec_trim(ls[i]) != seq!['{'] {
        None
    } else {
        proof {
            lemma_py_skip(ls, idx);
        }
        py_items(ls, i + 1, Seq::empty())
    }
}

/// The statements of a block from line `idx` up to its `}` line, after `acc`.
pub open spec fn py_items(ls: Seq<Seq<char>>, idx: int, acc: Seq<PyStmt>) -> Option<(Seq<PyStmt>, int)>
    decreases ls.len() - idx, 0nat,
{
    let i = py_skip(ls, idx);
    if idx < 0 || i >= ls.len() {
        None
    } else {
        let line = spec_trim(ls[i]);
        if line == seq!['}'] {
            Some((acc, i + 1))
        } else {
            proof {
                lemma_py_skip(ls, idx);
            }
            match py_stmt(ls, i + 1, line) {
                None => None,
                Some((st, j)) => if i < j <= ls.len() {
                    py_items(ls, j, acc.push(st))
                } else {
                    None
                },
            }
        }
    }
}

/// The `elif` and `else` branches from line `idx` that follow the branches `branches`.
pub open spec fn py_if_rest(ls: Seq<Seq<char>>, idx: int, branches: Seq<(PyExpr, Seq<PyStmt>)>) -> Option<
    (PyStmt, int),
>
    decreases ls.len() - idx, 2nat,
{
    let i = py_skip(ls, idx);
    let done = Some((PyStmt::If { branches, else_branch: None }, i));
    if idx < 0 || i >= ls.len() {
        done
    } else {
        proof {
            lemma_py_skip(ls, idx);
        }
        let t = spec_trim(ls[i]);
        if spec_starts_with(t, seq!['e', 'l', 'i', 'f', ' ']) {
            match py_header(t.subrange(5, t.len() as int)) {
                None => None,
                Some(ct) => match spec_py_expression(ct) {
                    None => None,
                    Some(c) => match py_block(ls, i + 1) {
                        None => None,
                        Some((body, j)) => if i < j <= ls.len() {
                            py_if_rest(ls, j, branches.push((c, body)))
                        } else {
                            None
                        },
                    },
                },
            }
        } else if t == seq!['e', 'l', 's', 'e', ':'] {
            match py_block(ls, i + 1) {
                None => None,
                Some((body, j)) => Some((PyStmt::If { branches, else_branch: Some(body) }, j)),
            }
        } else {
            done
        }
    }
}

/// An `if` statement whose header, after `if `, is `rest`, with its block from line `idx`.
pub open spec fn py_if_stmt(ls: Seq<Seq<char>>, idx: int, rest: Seq<char>) -> Option<(PyStmt, int)>
    decreases ls.len() - idx, 3nat,
{
    match py_header(rest) {
        None => None,
        Some(ct) => match spec_py_expression(ct) {
            None => None,
            Some(c) => match py_block(ls, idx) {
                None => None,
                Some((body, j)) => if idx < j <= ls.len() {
                    py_if_rest(ls, j, seq![(c, body)])
                } else {
                    None
                },
            },
        },
    }
}

/// A `let` statement whose text after `let ` is `rest`.
pub open spec fn py_let(rest: Seq<char>) -> Option<PyStmt> {
    let m = spec_starts_with(rest, seq!['m', 'u', 't', ' ']);
    let r2 = if m {
        rest.subrange(4, rest.len() as int)
    } else {
        rest
    };
    match spec_split_assignment(r2) {
        None => None,
        Some((lhs, rhs)) => match spec_split_char(lhs, ':') {
            None => None,
            Some((name, ty_text)) => match spec_parse_type(ty_text) {
                None => None,
                Some(ty) => match spec_py_expression(rhs) {
                    None => None,
                    Some(v) => Some(PyStmt::Let { mutable: m, name: spec_trim(name), ty, value: v }),
                },
            },
        },
    }
}

/// An assignment to a name, an attribute or an index, or else an expression statement.
pub open spec fn py_simple(line: Seq<char>) -> Option<PyStmt> {
    match spec_split_assignment(line) {
        Some((lhs, rhs)) => match spec_py_expression(lhs) {
            None => None,
            Some(t) => if !(t is Identifier || t is Attribute || t is Index) {
                None
            } else {
                match spec_py_expression(rhs) {
                    None => None,
                    Some(v) => Some(PyStmt::Assign { target: t, value: v }),
                }
            },
        },
        None => match spec_py_expression(line) {
            None => None,
            Some(e) => Some(PyStmt::Expr(e)),
        },
    }
}

/// The statement of the trimmed line `line`, whose blocks start at line `idx`, and the index
/// of the line after it.
pub open spec fn py_stmt(ls: Seq<Seq<char>>, idx: int, line: Seq<char>) -> Option<(PyStmt, int)>
    decreases ls.len() - idx, 4nat,
{
    if line == seq!['b', 'r', 'e', 'a', 'k'] {
        Some((PyStmt::Break, idx))
    } else if line == seq!['c', 'o', 'n', 't', 'i', 'n', 'u', 'e'] {
        Some((PyStmt::Continue, idx))
    } else if line == seq!['p', 'a', 's', 's'] {
        Some((PyStmt::Pass, idx))
    } else if line == seq!['r', 'e', 't', 'u', 'r', 'n'] {
        Some((PyStmt::Return(None), idx))
    } else if spec_starts_with(line, seq!['r', 'e', 't', 'u', 'r', 'n', ' ']) {
        match spec_py_expression(line.subrange(7, line.len() as int)) {
            None => None,
            Some(e) => Some((PyStmt::Return(Some(e)), idx)),
        }
    } else if spec_starts_with(line, seq!['l', 'e', 't', ' ']) {
        match py_let(line.subrange(4, line.len() as int)) {
            None => None,
            Some(s) => Some((s, idx)),
        }
    } else if spec_starts_with(line, seq!['i', 'f', ' ']) {
        py_if_stmt(ls, idx, line.subrange(3, line.len() as int))
    } else if spec_starts_with(line, seq!['w', 'h', 'i', 'l', 'e', ' ']) {
        match py_header(line.subrange(6, line.len() as int)) {
            None => None,
            Some(ct) => match spec_py_expression(ct) {
                None => None,
                Some(c) => match py_block(ls, idx) {
                    None => None,
                    Some((body, j)) => Some((PyStmt::While { condition: c, body }, j)),
                },
            },
        }
    } else {
        match py_simple(line) {
            None => None,
            Some(s) => Some((s, idx)),
        }
    }
}

/// The parameters `name: type` of a list, split at its top-level commas, from piece `i`,
/// after `acc`.
pub open spec fn py_params_from(pieces: Seq<Seq<char>>, i: int, acc: Seq<(Seq<char>, Type)>) -> Option<
    Seq<(Seq<char>, Type)>,
>
    decreases pieces.len() - i,
{
    if i < 0 || i >= pieces.len() {
        Some(acc)
    } else {
        match spec_split_char(pieces[i], ':') {
            None => None,
            Some((name, ty_text)) => match spec_parse_type(ty_text) {
                None => None,
                Some(ty) => py_params_from(pieces, i + 1, acc.push((spec_trim(name), ty))),
            },
        }
    }
}

/// The parameters of a parameter list.
pub open spec fn py_params(text: Seq<char>) -> Option<Seq<(Seq<char>, Type)>> {
    py_params_from(spec_split_params_view(text), 0, Seq::empty())
}

/// The name, visibility, parameters and return type of a function header
/// `[pub ]fn name(params)[ -> type]:`.
pub open spec fn py_fn_header(header: Seq<char>) -> Option<
    (Seq<char>, Visibility, Seq<(Seq<char>, Type)>, Option<Type>),
> {
    let public = spec_starts_with(header, seq!['p', 'u', 'b', ' ']);
    let vis = if public {
        Visibility::Public
    } else {
        Visibility::Private
    };
    let rest = if public {
        header.subrange(4, header.len() as int)
    } else {
        header
    };
    if !spec_starts_with(rest, seq!['f', 'n', ' ']) {
        None
    } else {
        let r2 = rest.subrange(3, rest.len() as int);
        if r2.len() == 0 || r2.last() != ':' {
            None
        } else {
            let sig = r2.subrange(0, r2.len() - 1);
            match spec_find(sig, '(') {
                None => None,
                Some(open) => match spec_rfind(sig, ')') {
                    None => None,
                    Some(close) => if close < open + 1 {
                        None
                    } else {
                        match py_params(sig.subrange(open + 1, close)) {
                            None => None,
                            Some(params) => {
                                let name = spec_trim(sig.subrange(0, open));
                                let tail = spec_trim(sig.subrange(close + 1, sig.len() as int));
                                if tail.len() == 0 {
                                    Some((name, vis, params, None))
                                } else if spec_starts_with(tail, seq!['-', '>']) {
                                    match spec_parse_type(tail.subrange(2, tail.len() as int)) {
                                        None => None,
                                        Some(t) => Some((name, vis, params, Some(t))),
                                    }
                                } else {
                                    None
                                }
                            },
                        }
                    },
                },
            }
        }
    }
}

/// The function of the header `header` and of the block from line `idx`, and the index of
/// the line after it.
pub open spec fn py_function(ls: Seq<Seq<char>>, idx: int, header: Seq<char>) -> Option<(FnV, int)> {
    match py_fn_header(header) {
        None => None,
        Some((name, visibility, params, return_type)) => match py_block(ls, idx) {
            None => None,
            Some((body, j)) => Some((FnV { name, visibility, params, return_type, body }, j)),
        },
    }
}

/// The name and parameters of a contract header `contract Name[(params)]:`.
pub open spec fn py_contract_header(header: Seq<char>) -> Option<(Seq<char>, Seq<(Seq<char>, Type)>)> {
    if !spec_starts_with(header, seq!['c', 'o', 'n', 't', 'r', 'a', 'c', 't', ' ']) {
        None
    } else {
        let rest = header.subrange(9, header.len() as int);
        if rest.len() == 0 || rest.last() != ':' {
            None
        } else {
            let sig = rest.subrange(0, rest.len() - 1);
            match spec_find(sig, '(') {
                Some(open) => if sig.last() != ')' || sig.len() - 1 < open + 1 {
                    None
                } else {
                    match py_params(sig.subrange(open + 1, sig.len() - 1)) {
                        None => None,
                        Some(p) => Some((spec_trim(sig.subrange(0, open)), p)),
                    }
                },
                None => Some((spec_trim(sig), Seq::empty())),
            }
        }
    }
}

/// A storage declaration `name: type[ = value]`, after `storage `.
pub open spec fn py_storage(decl: Seq<char>) -> Option<(Seq<char>, Type, Option<PyExpr>)> {
    let (lhs, init) = match spec_split_assignment(decl) {
        Some((l, r)) => (l, Some(r)),
        None => (decl, None),
    };
    match spec_split_char(lhs, ':') {
        None => None,
        Some((nt, tt)) => match spec_parse_type(tt) {
            None => None,
            Some(ty) => match init {
                Some(t) => match spec_py_expression(t) {
                    None => None,
                    Some(e) => Some((spec_trim(nt), ty, Some(e))),
                },
                None => Some((spec_trim(nt), ty, None)),
            },
        },
    }
}

/// The members of a contract block from line `idx` up to its `}` line: storage declarations
/// and functions, after `storage` and `fns`.
pub open spec fn py_members(
    ls: Seq<Seq<char>>,
    idx: int,
    name: Seq<char>,
    params: Seq<(Seq<char>, Type)>,
    storage: Seq<(Seq<char>, Type, Option<PyExpr>)>,
    fns: Seq<FnV>,
) -> Option<(ContractV, int)>
    decreases ls.len() - idx,
{
    let i = py_skip(ls, idx);
    if idx < 0 || i >= ls.len() {
        None
    } else {
        proof {
            lemma_py_skip(ls, idx);
        }
        let line = spec_trim(ls[i]);
        if line == seq!['}'] {
            Some((ContractV { name, params, storage, functions: fns }, i + 1))
        } else if spec_starts_with(line, seq!['s', 't', 'o', 'r', 'a', 'g', 'e', ' ']) {
            match py_storage(line.subrange(8, line.len() as int)) {
                None => None,
                Some(f) => py_members(ls, i + 1, name, params, storage.push(f), fns),
            }
        } else {
            match py_function(ls, i + 1, line) {
                None => None,
                Some((f, j)) => if i < j <= ls.len() {
                    py_members(ls, j, name, params, storage, fns.push(f))
                } else {
                    None
                },
            }
        }
    }
}

/// The contract of the header `header` and of the block from line `idx`, and the index of
/// the line after it.
pub open spec fn py_contract(ls: Seq<Seq<char>>, idx: int, header: Seq<char>) -> Option<(ContractV, int)> {
    match py_contract_header(header) {
        None => None,
        Some((name, params)) => {
            let i = py_skip(ls, idx);
            if idx < 0 || i >= ls.len() {
                None
            } else if spec_trim(ls[i]) != seq!['{'] {
                None
            } else {
                py_members(ls, i + 1, name, params, Seq::empty(), Seq::empty())
            }
        },
    }
}

/// The contracts and free functions from line `idx` on, after `cs` and `fs`.
pub open spec fn py_program(ls: Seq<Seq<char>>, idx: int, cs: Seq<ContractV>, fs: Seq<FnV>) -> Option<ProgramV>
    decreases ls.len() - idx,
{
    let i = py_skip(ls, idx);
    if idx < 0 || i >= ls.len() {
        Some(ProgramV { contracts: cs, functions: fs })
    } else {
        proof {
            lemma_py_skip(ls, idx);
        }
        let line = spec_trim(ls[i]);
        if spec_starts_with(line, seq!['c', 'o', 'n', 't', 'r', 'a', 'c', 't', ' ']) {
            match py_contract(ls, i + 1, line) {
                None => None,
                Some((c, j)) => if i < j <= ls.len() {
                    py_program(ls, j, cs.push(c), fs)
                } else {
                    None
                },
            }
        } else {
            match py_function(ls, i + 1, line) {
                None => None,
                Some((f, j)) => if i < j <= ls.len() {
                    py_program(ls, j, cs, fs.push(f))
                } else {
                    None
                },
            }
        }
    }
}

/// The program of a normalized source: its lines read as contracts and free functions.
pub open spec fn spec_build_program(normalized: Seq<char>) -> Option<ProgramV> {
    py_program(spec_lines(normalized), 0, Seq::empty(), Seq::empty())
}

/// The lines of a normalized program, with a cursor.
struct LineCursor {
    lines: Vec<Vec<char>>,
    index: usize,
}

impl LineCursor {
    spec fn wf(&self) -> bool {
        self.index <= self.lines@.len()
    }

    spec fn left(&self) -> nat {
        (self.lines@.len() - self.index) as nat
    }

    /// The lines, as characters.
    spec fn lv(&self) -> Seq<Seq<char>> {
        self.lines@.map_values(|l: Vec<char>| l@)
    }

    /// Moves past the current line.
    fn advance(&mut self)
        requires
            old(self).index < old(self).lines@.len(),
        ensures
            final(self).wf(),
            final(self).lines == old(self).lines,
            final(self).index == old(self).index + 1,
    {
        assert(self.lines@.len() == self.lines.len());
        self.index = self.index + 1;
    }

    /// Skips blank and comment lines.
    fn skip_blank(&mut self)
        requires
            old(self).wf(),
        ensures
            final(self).wf(),
            final(self).lines == old(self).lines,
            old(self).index <= final(self).index,
            final(self).index == py_skip(old(self).lv(), old(self).index as int),
    {
        let ghost ls = self.lv();
        proof {
            lemma_py_skip(ls, self.index as int);
        }
        while self.index < self.lines.len()
            invariant
                self.wf(),
                self.lines == old(self).lines,
                ls == self.lv(),
                old(self).index <= self.index,
                py_skip(ls, self.index as int) == py_skip(ls, old(self).index as int),
            decreases self.left(),
        {
            assert(self.lines@[self.index as int]@ == ls[self.index as int]);
            let t = trim(self.lines[self.index].as_slice());
            if t.len() > 0 && t[0] != '#' {
                return;
            }
            self.index = self.index + 1;
        }
    }

    /// The next non-blank line, trimmed, without reading it.
    fn peek(&mut self) -> (r: Option<Vec<char>>)
        requires
            old(self).wf(),
        ensures
            final(self).wf(),
            final(self).lines == old(self).lines,
            old(self).index <= final(self).index,
            final(self).index == py_skip(old(self).lv(), old(self).index as int),
            r is Some <==> final(self).index < final(self).lines@.len(),
            r matches Some(l) ==> l@ == spec_trim(old(self).lv()[final(self).index as int]),
    {
        self.skip_blank();
        if self.index < self.lines.len() {
            assert(self.lines@[self.index as int]@ == self.lv()[self.index as int]);
            Some(trim(self.lines[self.index].as_slice()))
        } else {
            None
        }
    }

    /// Reads a `{` line, the block's lines up to the matching `}`, and the `}` line.
    fn parse_block(&mut self) -> (r: Result<Vec<Statement>, AstError>)
        requires
            old(self).wf(),
        ensures
            final(self).wf(),
            final(self).lines == old(self).lines,
            old(self).index <= final(self).index,
            r is Ok <==> py_block(old(self).lv(), old(self).index as int) is Some,
            r matches Ok(v) ==> py_block(old(self).lv(), old(self).index as int) == Some(
                (py_stmts_view(v@), final(self).index as int),
            ) && old(self).index < final(self).index,
        decreases old(self).left(), 1nat,
    {
        let ghost ls = self.lv();
        let ghost target = py_block(ls, self.index as int);
        proof {
            lemma_py_skip(ls, self.index as int);
        }
        let open = match self.peek() {
            Some(l) => l,
            None => {
                return Err(AstError::MissingChild(str_to_string("block")));
            },
        };
        if !(open.len() == 1 && open[0] == '{') {
            return Err(unexpected("block", open.as_slice()));
        }
        assert(open@ =~= seq!['{']);
        self.advance();
        let mut statements: Vec<Statement> = Vec::new();
        assert(py_stmts_view(statements@) =~= Seq::<PyStmt>::empty());
        loop
            invariant
                self.wf(),
                self.lines == old(self).lines,
                ls == self.lv(),
                old(self).index < self.index,
                target == py_block(ls, old(self).index as int),
                target == py_items(ls, self.index as int, py_stmts_view(statements@)),
            decreases self.left(),
        {
            proof {
                lemma_py_skip(ls, self.index as int);
            }
            let line = match self.peek() {
                Some(l) => l,
                None => {
                    return Err(AstError::MissingChild(str_to_string("block end")));
                },
            };
            let ghost i = self.index as int;
            if line.len() == 1 && line[0] == '}' {
                assert(line@ =~= seq!['}']);
                self.advance();
                return Ok(statements);
            }
            self.advance();
            let stmt = self.parse_statement(line.as_slice())?;
            proof {
                lemma_py_stmts_view_push(statements@, stmt);
            }
            statements.push(stmt);
        }
    }

    /// The text of a block header before its trailing `:`.
    fn header_text(line: &[char]) -> (r: Option<Vec<char>>)
        ensures
            match r {
                Some(v) => py_header(line@) == Some(v@),
                None => py_header(line@) is None,
            },
    {
        if 0 < line.len() && line[line.len() - 1] == ':' {
            Some(copy_range(line, 0, line.len() - 1))
        } else {
            None
        }
    }

    /// An `if` statement whose header, after `if `, is `rest`, with its `elif` and `else`
    /// branches.
    #[verifier::rlimit(40)]
    fn parse_if(&mut self, line: &[char], rest: &[char]) -> (r: Result<Statement, AstError>)
        requires
            old(self).wf(),
        ensures
            final(self).wf(),
            final(self).lines == old(self).lines,
            old(self).index <= final(self).index,
            r is Ok <==> py_if_stmt(old(self).lv(), old(self).index as int, rest@) is Some,
            r matches Ok(st) ==> py_if_stmt(old(self).lv(), old(self).index as int, rest@) == Some(
                (st@, final(self).index as int),
            ),
        decreases old(self).left(), 2nat,
    {
        let ghost ls = self.lv();
        let w_elif: Vec<char> = vec!['e', 'l', 'i', 'f', ' '];
        let w_else: Vec<char> = vec!['e', 'l', 's', 'e', ':'];
        assert(w_elif@ == seq!['e', 'l', 'i', 'f', ' '] && w_else@ == seq!['e', 'l', 's', 'e', ':']);
        let cond_text = match Self::header_text(rest) {
            Some(c) => c,
            None => {
                return Err(unexpected("if", line));
            },
        };
        let condition = parse_expression(cond_text.as_slice())?;
        let body = self.parse_block()?;
        let ghost cv = condition@;
        let ghost bv = py_stmts_view(body@);
        let mut branches: Vec<IfBranch> = Vec::new();
        let branch0 = IfBranch { condition, body };
        proof {
            lemma_py_branches_view_push(branches@, branch0);
        }
        branches.push(branch0);
        assert(py_branches_view(branches@) =~= seq![(cv, bv)]);
        let ghost target = py_if_stmt(ls, old(self).index as int, rest@);
        let mut else_branch: Option<Vec<Statement>> = None;
        loop
            invariant_except_break
                else_branch is None,
                target == py_if_rest(ls, self.index as int, py_branches_view(branches@)),
            invariant
                self.wf(),
                self.lines == old(self).lines,
                ls == self.lv(),
                target == py_if_stmt(ls, old(self).index as int, rest@),
                old(self).index <= self.index,
                w_elif@ == seq!['e', 'l', 'i', 'f', ' '],
                w_else@ == seq!['e', 'l', 's', 'e', ':'],
            ensures
                target == Some(
                    (
                        PyStmt::If {
                            branches: py_branches_view(branches@),
                            else_branch: match else_branch {
                                Some(b) => Some(py_stmts_view(b@)),
                                None => None,
                            },
                        },
                        self.index as int,
                    ),
                ),
            decreases self.left(),
        {
            proof {
                lemma_py_skip(ls, self.index as int);
            }
            let next = match self.peek() {
                Some(l) => l,
                None => {
                    break;
                },
            };
            if let Some(rest2) = strip_prefix(next.as_slice(), w_elif.as_slice()) {
                let c2 = match Self::header_text(rest2.as_slice()) {
                    Some(c) => c,
                    None => {
                        return Err(unexpected("elif", next.as_slice()));
                    },
                };
                self.advance();
                let cond2 = parse_expression(c2.as_slice())?;
                let body2 = self.parse_block()?;
                let branch = IfBranch { condition: cond2, body: body2 };
                proof {
                    lemma_py_branches_view_push(branches@, branch);
                }
                branches.push(branch);
            } else if chars_eq(next.as_slice(), w_else.as_slice()) {
                self.advance();
                let body3 = self.parse_block()?;
                else_branch = Some(body3);
                break;
            } else {
                break;
            }
        }
        Ok(Statement::If { branches, else_branch })
    }

    /// Parses one statement whose line has been read; blocks follow on the next lines.
    #[verifier::rlimit(60)]
    fn parse_statement(&mut self, line: &[char]) -> (r: Result<Statement, AstError>)
        requires
            old(self).wf(),
        ensures
            final(self).wf(),
            final(self).lines == old(self).lines,
            old(self).index <= final(self).index,
            r is Ok <==> py_stmt(old(self).lv(), old(self).index as int, line@) is Some,
            r matches Ok(st) ==> py_stmt(old(self).lv(), old(self).index as int, line@) == Some(
                (st@, final(self).index as int),
            ),
        decreases old(self).left(), 3nat,
    {
        let w_let: Vec<char> = vec!['l', 'e', 't', ' '];
        let w_mut: Vec<char> = vec!['m', 'u', 't', ' '];
        let w_if: Vec<char> = vec!['i', 'f', ' '];
        let w_while: Vec<char> = vec!['w', 'h', 'i', 'l', 'e', ' '];
        let w_return: Vec<char> = vec!['r', 'e', 't', 'u', 'r', 'n'];
        let w_return_sp: Vec<char> = vec!['r', 'e', 't', 'u', 'r', 'n', ' '];
        let w_break: Vec<char> = vec!['b', 'r', 'e', 'a', 'k'];
        let w_continue: Vec<char> = vec!['c', 'o', 'n', 't', 'i', 'n', 'u', 'e'];
        let w_pass: Vec<char> = vec!['p', 'a', 's', 's'];
        assert(w_let@ == seq!['l', 'e', 't', ' '] && w_mut@ == seq!['m', 'u', 't', ' ']);
        assert(w_if@ == seq!['i', 'f', ' '] && w_while@ == seq!['w', 'h', 'i', 'l', 'e', ' ']);
        assert(w_return@ == seq!['r', 'e', 't', 'u', 'r', 'n']);
        assert(w_return_sp@ == seq!['r', 'e', 't', 'u', 'r', 'n', ' ']);
        assert(w_break@ == seq!['b', 'r', 'e', 'a', 'k'] && w_pass@ == seq!['p', 'a', 's', 's']);
        assert(w_continue@ == seq!['c', 'o', 'n', 't', 'i', 'n', 'u', 'e']);
        if chars_eq(line, w_break.as_slice()) {
            return Ok(Statement::Break);
        }
        if chars_eq(line, w_continue.as_slice()) {
            return Ok(Statement::Continue);
        }
        if chars_eq(line, w_pass.as_slice()) {
            return Ok(Statement::Pass);
        }
        if chars_eq(line, w_return.as_slice()) {
            return Ok(Statement::Return(None));
        }
        if let Some(rest) = strip_prefix(line, w_return_sp.as_slice()) {
            let e = parse_expression(rest.as_slice())?;
            return Ok(Statement::Return(Some(e)));
        }
        if let Some(rest) = strip_prefix(line, w_let.as_slice()) {
            let (mutable, rest) = match strip_prefix(rest.as_slice(), w_mut.as_slice()) {
                Some(r2) => (true, r2),
                None => (false, rest),
            };
            let (lhs, rhs) = match crate::dsl::split_assignment(rest.as_slice()) {
                Some(x) => x,
                None => {
                    return Err(AstError::MissingChild(str_to_string("binding value")));
                },
            };
            let (name, ty_text) = match crate::dsl::split_once_char(lhs.as_slice(), ':') {
                Some(x) => x,
                None => {
                    return Err(AstError::MissingChild(str_to_string("binding type")));
                },
            };
            let name_t = trim(name.as_slice());
            let ty = parse_type(ty_text.as_slice())?;
            let value = parse_expression(rhs.as_slice())?;
            return Ok(Statement::Let { mutable, name: Ident(from_chars(name_t.as_slice())), ty, value });
        }
        if let Some(rest) = strip_prefix(line, w_if.as_slice()) {
            return self.parse_if(line, rest.as_slice());
        }
        if let Some(rest) = strip_prefix(line, w_while.as_slice()) {
            let cond_text = match Self::header_text(rest.as_slice()) {
                Some(c) => c,
                None => {
                    return Err(unexpected("while", line));
                },
            };
            let condition = parse_expression(cond_text.as_slice())?;
            let body = self.parse_block()?;
            return Ok(Statement::While { condition, body });
        }
        if let Some((lhs, rhs)) = crate::dsl::split_assignment(line) {
            let target = parse_expression(lhs.as_slice())?;
            let ok_target = match &target {
                Expression::Identifier(_) | Expression::Attribute { .. } | Expression::Index { .. } => true,
                _ => false,
            };
            if !ok_target {
                return Err(unexpected("assign target", lhs.as_slice()));
            }
            let value = parse_expression(rhs.as_slice())?;
            return Ok(Statement::Assign { target, value });
        }
        let e = parse_expression(line)?;
        Ok(Statement::Expr(e))
    }
}

/// Parses `name: type` parameters separated by top-level commas.
fn parse_params(text: &[char]) -> (r: Result<Vec<Param>, AstError>)
    ensures
        match py_params(text@) {
            Some(v) => r matches Ok(p) && params_view(p@) == v,
            None => r is Err,
        },
{
    let parts = crate::dsl::split_params(text);
    let ghost pieces = spec_split_params_view(text@);
    let mut params: Vec<Param> = Vec::new();
    assert(params_view(params@) =~= Seq::<(Seq<char>, Type)>::empty());
    let mut i: usize = 0;
    while i < parts.len()
        invariant
            i <= parts@.len(),
            parts@.map_values(|v: Vec<char>| v@) == pieces,
            py_params(text@) == py_params_from(pieces, i as int, params_view(params@)),
        decreases parts@.len() - i,
    {
        assert(parts@[i as int]@ == pieces[i as int]);
        let (name, ty_text) = match crate::dsl::split_once_char(parts[i].as_slice(), ':') {
            Some(x) => x,
            None => {
                return Err(AstError::MissingChild(str_to_string("param type")));
            },
        };
        let name_t = trim(name.as_slice());
        let ty = parse_type(ty_text.as_slice())?;
        let ghost before = params_view(params@);
        let p = Param { name: Ident(from_chars(name_t.as_slice())), ty };
        params.push(p);
        assert(params_view(params@) =~= before.push((name_t@, ty)));
        i = i + 1;
    }
    Ok(params)
}

/// The position of the first `c` in `s`.
fn find_first(s: &[char], c: char) -> (r: Option<usize>)
    ensures
        match r {
            Some(i) => i < s@.len() && spec_find(s@, c) == Some(i as int),
            None => spec_find(s@, c) is None,
        },
{
    let r = crate::text::find_char(s, c);
    proof {
        if let Some(i) = r {
            let p = |k: int| 0 <= k < s@.len() && s@[k] == c && forall|j: int| 0 <= j < k ==> s@[j] != c;
            assert(p(i as int));
            let k = choose|k: int| 0 <= k < s@.len() && s@[k] == c && forall|j: int| 0 <= j < k ==> s@[j] != c;
            assert(p(k));
            assert(k == i as int) by {
                if k < i as int {
                    assert(s@[k] != c);
                } else if k > i as int {
                    assert(s@[i as int] != c);
                }
            }
        }
    }
    r
}

/// The position of the last `c` in `s`.
fn find_last(s: &[char], c: char) -> (r: Option<usize>)
    ensures
        match r {
            Some(i) => i < s@.len() && spec_rfind(s@, c) == Some(i as int),
            None => spec_rfind(s@, c) is None,
        },
{
    let r = crate::text::rfind_char(s, c);
    proof {
        if let Some(i) = r {
            let p = |k: int| 0 <= k < s@.len() && s@[k] == c && forall|j: int| k < j < s@.len() ==> s@[j] != c;
            assert(p(i as int));
            let k = choose|k: int| 0 <= k < s@.len() && s@[k] == c && forall|j: int| k < j < s@.len() ==> s@[j] != c;
            assert(p(k));
            assert(k == i as int) by {
                if k < i as int {
                    assert(s@[i as int] != c);
                } else if k > i as int {
                    assert(s@[k] != c);
                }
            }
        }
    }
    r
}

/// A function header `[pub ]fn name(params)[ -> type]:` and its block.
#[verifier::rlimit(40)]
fn parse_function(cursor: &mut LineCursor, header: &[char]) -> (r: Result<Function, AstError>)
    requires
        old(cursor).wf(),
    ensures
        final(cursor).wf(),
        final(cursor).lines == old(cursor).lines,
        old(cursor).index <= final(cursor).index,
        r is Ok <==> py_function(old(cursor).lv(), old(cursor).index as int, header@) is Some,
        r matches Ok(f) ==> py_function(old(cursor).lv(), old(cursor).index as int, header@) == Some(
            (f@, final(cursor).index as int),
        ),
{
    let w_pub: Vec<char> = vec!['p', 'u', 'b', ' '];
    let w_fn: Vec<char> = vec!['f', 'n', ' '];
    let w_arrow: Vec<char> = vec!['-', '>'];
    assert(w_pub@ == seq!['p', 'u', 'b', ' '] && w_fn@ == seq!['f', 'n', ' '] && w_arrow@ == seq!['-', '>']);
    let (visibility, rest) = match strip_prefix(header, w_pub.as_slice()) {
        Some(r) => (Visibility::Public, r),
        None => (Visibility::Private, copy_range(header, 0, header.len())),
    };
    assert(header@.subrange(0, header@.len() as int) =~= header@);
    let rest = match strip_prefix(rest.as_slice(), w_fn.as_slice()) {
        Some(r) => r,
        None => {
            return Err(unexpected("function", header));
        },
    };
    if rest.len() == 0 || rest[rest.len() - 1] != ':' {
        return Err(unexpected("function", header));
    }
    let sig = copy_range(rest.as_slice(), 0, rest.len() - 1);
    let open = match find_first(sig.as_slice(), '(') {
        Some(i) => i,
        None => {
            return Err(AstError::MissingChild(str_to_string("function params")));
        },
    };
    let close = match find_last(sig.as_slice(), ')') {
        Some(i) => i,
        None => {
            return Err(AstError::MissingChild(str_to_string("function params")));
        },
    };
    if close < open {
        return Err(unexpected("function", header));
    }
    let name = trim(copy_range(sig.as_slice(), 0, open).as_slice());
    if close < open + 1 {
        return Err(unexpected("function params", header));
    }
    let params_text = copy_range(sig.as_slice(), open + 1, close);
    let params = parse_params(params_text.as_slice())?;
    let tail = trim(copy_range(sig.as_slice(), close + 1, sig.len()).as_slice());
    let return_type = if tail.len() == 0 {
        None
    } else {
        match strip_prefix(tail.as_slice(), w_arrow.as_slice()) {
            Some(t) => Some(parse_type(t.as_slice())?),
            None => {
                return Err(unexpected("return type", tail.as_slice()));
            },
        }
    };
    let body = cursor.parse_block()?;
    Ok(Function { name: Ident(from_chars(name.as_slice())), visibility, params, return_type, body })
}

/// The name and parameters of a contract header `contract Name[(params)]:`.
#[verifier::rlimit(60)]
fn parse_contract_header(header: &[char]) -> (r: Result<(Vec<char>, Vec<Param>), AstError>)
    ensures
        match py_contract_header(header@) {
            Some((n, p)) => r matches Ok((name, params)) && name@ == n && params_view(params@) == p,
            None => r is Err,
        },
{
    let w_contract: Vec<char> = vec!['c', 'o', 'n', 't', 'r', 'a', 'c', 't', ' '];
    assert(w_contract@ == seq!['c', 'o', 'n', 't', 'r', 'a', 'c', 't', ' ']);
    let rest = match strip_prefix(header, w_contract.as_slice()) {
        Some(r) => r,
        None => {
            return Err(unexpected("contract", header));
        },
    };
    if rest.len() == 0 || rest[rest.len() - 1] != ':' {
        return Err(unexpected("contract", header));
    }
    let sig = copy_range(rest.as_slice(), 0, rest.len() - 1);
    match find_first(sig.as_slice(), '(') {
        Some(open) => {
            if sig[sig.len() - 1] != ')' || sig.len() - 1 < open + 1 {
                return Err(unexpected("contract params", sig.as_slice()));
            }
            let p = copy_range(sig.as_slice(), open + 1, sig.len() - 1);
            let name = trim(copy_range(sig.as_slice(), 0, open).as_slice());
            let params = parse_params(p.as_slice())?;
            Ok((name, params))
        },
        None => {
            let params: Vec<Param> = Vec::new();
            assert(params_view(params@) =~= Seq::<(Seq<char>, Type)>::empty());
            Ok((trim(sig.as_slice()), params))
        },
    }
}

/// A storage declaration `name: type[ = value]`, after `storage `.
#[verifier::rlimit(40)]
fn parse_storage(decl: &[char]) -> (r: Result<StorageField, AstError>)
    ensures
        match py_storage(decl@) {
            Some(v) => r matches Ok(f) && storage_field_view(f) == v,
            None => r is Err,
        },
{
    let (lhs, init) = match crate::dsl::split_assignment(decl) {
        Some((l, r)) => (l, Some(r)),
        None => (copy_range(decl, 0, decl.len()), None),
    };
    assert(decl@.subrange(0, decl@.len() as int) =~= decl@);
    let (name_text, ty_text) = match crate::dsl::split_once_char(lhs.as_slice(), ':') {
        Some(x) => x,
        None => {
            return Err(AstError::MissingChild(str_to_string("storage type")));
        },
    };
    let ty = parse_type(ty_text.as_slice())?;
    let initializer = match init {
        Some(t) => Some(parse_expression(t.as_slice())?),
        None => None,
    };
    let nt = trim(name_text.as_slice());
    Ok(StorageField { name: Ident(from_chars(nt.as_slice())), ty, initializer })
}

/// A contract header `contract Name[(params)]:` and its block of storage declarations and
/// functions.
#[verifier::spinoff_prover]
#[verifier::rlimit(100)]
fn parse_contract(cursor: &mut LineCursor, header: &[char]) -> (r: Result<Contract, AstError>)
    requires
        old(cursor).wf(),
    ensures
        final(cursor).wf(),
        final(cursor).lines == old(cursor).lines,
        old(cursor).index <= final(cursor).index,
        r is Ok <==> py_contract(old(cursor).lv(), old(cursor).index as int, header@) is Some,
        r matches Ok(c) ==> py_contract(old(cursor).lv(), old(cursor).index as int, header@) == Some(
            (c@, final(cursor).index as int),
        ),
{
    let ghost ls = cursor.lv();
    let w_storage: Vec<char> = vec!['s', 't', 'o', 'r', 'a', 'g', 'e', ' '];
    assert(w_storage@ == seq!['s', 't', 'o', 'r', 'a', 'g', 'e', ' ']);
    let (name, params) = parse_contract_header(header)?;
    proof {
        lemma_py_skip(ls, cursor.index as int);
    }
    let open_line = match cursor.peek() {
        Some(l) => l,
        None => {
            return Err(AstError::MissingChild(str_to_string("contract block")));
        },
    };
    if !(open_line.len() == 1 && open_line[0] == '{') {
        return Err(unexpected("contract block", open_line.as_slice()));
    }
    assert(open_line@ =~= seq!['{']);
    cursor.advance();
    let ghost target = py_contract(ls, old(cursor).index as int, header@);
    let mut storage: Vec<StorageField> = Vec::new();
    let mut functions: Vec<Function> = Vec::new();
    assert(storage_view(storage@) =~= Seq::<(Seq<char>, Type, Option<PyExpr>)>::empty());
    assert(fns_view(functions@) =~= Seq::<FnV>::empty());
    loop
        invariant
            cursor.wf(),
            cursor.lines == old(cursor).lines,
            ls == cursor.lv(),
            old(cursor).index <= cursor.index,
            w_storage@ == seq!['s', 't', 'o', 'r', 'a', 'g', 'e', ' '],
            target == py_contract(ls, old(cursor).index as int, header@),
            target == py_members(
                ls,
                cursor.index as int,
                name@,
                params_view(params@),
                storage_view(storage@),
                fns_view(functions@),
            ),
        decreases cursor.left(),
    {
        proof {
            lemma_py_skip(ls, cursor.index as int);
        }
        let line = match cursor.peek() {
            Some(l) => l,
            None => {
                return Err(AstError::MissingChild(str_to_string("contract block end")));
            },
        };
        cursor.advance();
        if line.len() == 1 && line[0] == '}' {
            assert(line@ =~= seq!['}']);
            return Ok(Contract { name: Ident(from_chars(name.as_slice())), params, storage, functions });
        }
        if let Some(decl) = strip_prefix(line.as_slice(), w_storage.as_slice()) {
            let field = parse_storage(decl.as_slice())?;
            let ghost before = storage_view(storage@);
            storage.push(field);
            assert(storage_view(storage@) =~= before.push(storage_field_view(storage@.last())));
        } else {
            let f = parse_function(cursor, line.as_slice())?;
            let ghost before = fns_view(functions@);
            let ghost fv = f@;
            functions.push(f);
            assert(fns_view(functions@) =~= before.push(fv));
        }
    }
}

/// Builds the program of a parsed source: contracts and free functions, in order.
pub fn build_program(parsed: &ParsedProgram) -> (r: Result<Program, AstError>)
    ensures
        r is Ok <==> spec_build_program(parsed.spec_normalized()) is Some,
        r matches Ok(p) ==> spec_build_program(parsed.spec_normalized()) == Some(p@),
{
    let text = to_chars(parsed.normalized_source());
    let ls = lines(text.as_slice());
    let mut cursor = LineCursor { lines: ls, index: 0 };
    let ghost lv = cursor.lv();
    assert(lv =~= spec_lines(parsed.spec_normalized()));
    let mut program = Program::new();
    assert(contracts_view(program.contracts@) =~= Seq::<ContractV>::empty());
    assert(fns_view(program.functions@) =~= Seq::<FnV>::empty());
    let w_contract: Vec<char> = vec!['c', 'o', 'n', 't', 'r', 'a', 'c', 't', ' '];
    assert(w_contract@ == seq!['c', 'o', 'n', 't', 'r', 'a', 'c', 't', ' ']);
    loop
        invariant
            cursor.wf(),
            cursor.lv() == lv,
            lv == spec_lines(parsed.spec_normalized()),
            w_contract@ == seq!['c', 'o', 'n', 't', 'r', 'a', 'c', 't', ' '],
            spec_build_program(parsed.spec_normalized()) == py_program(
                lv,
                cursor.index as int,
                contracts_view(program.contracts@),
                fns_view(program.functions@),
            ),
        decreases cursor.left(),
    {
        proof {
            lemma_py_skip(lv, cursor.index as int);
        }
        let line = match cursor.peek() {
            Some(l) => l,
            None => {
                return Ok(program);
            },
        };
        cursor.advance();
        if starts_with(line.as_slice(), w_contract.as_slice()) {
            let c = parse_contract(&mut cursor, line.as_slice())?;
            let ghost before = contracts_view(program.contracts@);
            let ghost cv = c@;
            program.contracts.push(c);
            assert(contracts_view(program.contracts@) =~= before.push(cv));
        } else {
            let f = parse_function(&mut cursor, line.as_slice())?;
            let ghost before = fns_view(program.functions@);
            let ghost fv = f@;
            program.functions.push(f);
            assert(fns_view(program.functions@) =~= before.push(fv));
        }
    }
}

} // verus!
