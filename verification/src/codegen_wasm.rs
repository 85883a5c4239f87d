//! WebAssembly code generation.
//!
//! Instruction selection is verified here: every IR expression and statement
//! has an exact instruction sequence. The module is then encoded through
//! `wasm_encoder`: host functions are imported first (after the memory import,
//! when the module uses memory), then each function is defined and exported.

use vstd::prelude::*;
use crate::ir::{
    BinaryOp, Contract, DataSegment, Expr, ExprView, Function, FunctionBody, HostFunction, Local, Module, Param, Stmt,
    StmtView, StoreWidth, ValueType, exprs_view, stmts_view, lemma_exprs_view_index,
};
use crate::encoder::{
    ImportView, SectionView, encoded_module, module_sections, type_entries, import_entries, function_entries,
    export_entries, code_entries, data_entries, module_new, module_add_types, module_add_imports, module_add_functions,
    module_add_exports, module_add_code, module_add_data, module_finish, type_section_new, type_section_add,
    import_section_new, import_memory, import_function, function_section_new, function_section_add,
    export_section_new, export_function, code_section_new, code_section_add, data_section_new, data_section_active,
    encode_function, section_fits, module_fits, body_bound, type_entry_bound, import_entry_bound,
    export_entry_bound, data_entry_bound, types_payload, imports_payload, exports_payload, code_payload,
    data_payload,
};
use wasm_encoder::{
    CodeSection, DataSection, ExportSection, FunctionSection, ImportSection, TypeSection,
};
use crate::text::{str_eq, copy_string};

verus! {

/// The WebAssembly instructions the code generator emits.
#[derive(Debug, Clone, Copy, PartialEq, Eq, Structural)]
pub enum WasmOp {
    LocalGet(u32),
    LocalSet(u32),
    I32Const(i32),
    I64Const(i64),
    Call(u32),
    Br(u32),
    BrIf(u32),
    I32Load,
    I32Load8U,
    I64Load,
    I32Store8,
    I32Store16,
    I32Store,
    I64Store,
    Drop,
    Return,
    If,
    Else,
    End,
    Block,
    Loop,
    Select,
    I32Eqz,
    I64Eqz,
    I32Add,
    I64Add,
    I32Sub,
    I64Sub,
    I32Mul,
    I64Mul,
    I32DivU,
    I64DivU,
    I32RemU,
    I64RemU,
    I32Eq,
    I64Eq,
    I32Ne,
    I64Ne,
    I32LtS,
    I64LtS,
    I32LeS,
    I64LeS,
    I32GtS,
    I64GtS,
    I32GeS,
    I64GeS,
}

/// The instruction of a binary operator: arithmetic goes by the result type, comparisons by
/// the operand type.
pub open spec fn spec_binary_op(op: BinaryOp, ty: ValueType, operand: ValueType) -> WasmOp {
    let wide = match op {
        BinaryOp::Add | BinaryOp::Sub | BinaryOp::Mul | BinaryOp::DivUInt | BinaryOp::RemUInt => ty == ValueType::I64,
        _ => operand == ValueType::I64,
    };
    match op {
        BinaryOp::Add => if wide { WasmOp::I64Add } else { WasmOp::I32Add },
        BinaryOp::Sub => if wide { WasmOp::I64Sub } else { WasmOp::I32Sub },
        BinaryOp::Mul => if wide { WasmOp::I64Mul } else { WasmOp::I32Mul },
        BinaryOp::DivUInt => if wide { WasmOp::I64DivU } else { WasmOp::I32DivU },
        BinaryOp::RemUInt => if wide { WasmOp::I64RemU } else { WasmOp::I32RemU },
        BinaryOp::Equal => if wide { WasmOp::I64Eq } else { WasmOp::I32Eq },
        BinaryOp::NotEqual => if wide { WasmOp::I64Ne } else { WasmOp::I32Ne },
        BinaryOp::Less => if wide { WasmOp::I64LtS } else { WasmOp::I32LtS },
        BinaryOp::LessEqual => if wide { WasmOp::I64LeS } else { WasmOp::I32LeS },
        BinaryOp::Greater => if wide { WasmOp::I64GtS } else { WasmOp::I32GtS },
        BinaryOp::GreaterEqual => if wide { WasmOp::I64GeS } else { WasmOp::I32GeS },
    }
}

/// The integer a WebAssembly binary instruction computes from two integer operands, before its
/// result wraps to its width: the arithmetic result, or 1 when a comparison holds and 0 when
/// it fails; `None` for an instruction that is not a binary operation.
pub open spec fn spec_wasm_binary_value(w: WasmOp, a: int, b: int) -> Option<int> {
    match w {
        WasmOp::I32Add | WasmOp::I64Add => Some(a + b),
        WasmOp::I32Sub | WasmOp::I64Sub => Some(a - b),
        WasmOp::I32Mul | WasmOp::I64Mul => Some(a * b),
        WasmOp::I32DivU | WasmOp::I64DivU => Some(a / b),
        WasmOp::I32RemU | WasmOp::I64RemU => Some(a % b),
        WasmOp::I32Eq | WasmOp::I64Eq => Some(if a == b { 1 } else { 0 }),
        WasmOp::I32Ne | WasmOp::I64Ne => Some(if a != b { 1 } else { 0 }),
        WasmOp::I32LtS | WasmOp::I64LtS => Some(if a < b { 1 } else { 0 }),
        WasmOp::I32LeS | WasmOp::I64LeS => Some(if a <= b { 1 } else { 0 }),
        WasmOp::I32GtS | WasmOp::I64GtS => Some(if a > b { 1 } else { 0 }),
        WasmOp::I32GeS | WasmOp::I64GeS => Some(if a >= b { 1 } else { 0 }),
        _ => None,
    }
}

/// Whether an instruction works on 64-bit operands.
pub open spec fn spec_wasm_is_i64(w: WasmOp) -> bool {
    match w {
        WasmOp::I64Add | WasmOp::I64Sub | WasmOp::I64Mul | WasmOp::I64DivU | WasmOp::I64RemU | WasmOp::I64Eq
        | WasmOp::I64Ne | WasmOp::I64LtS | WasmOp::I64LeS | WasmOp::I64GtS | WasmOp::I64GeS | WasmOp::I64Const(_)
        | WasmOp::I64Load | WasmOp::I64Store | WasmOp::I64Eqz => true,
        _ => false,
    }
}

/// The instruction emitted for an IR operator computes what the operator does, on any
/// operands, at the width of the result type (arithmetic) or of the operand type
/// (comparisons).
pub proof fn law_binary_instruction_meaning(op: BinaryOp, ty: ValueType, operand: ValueType, a: int, b: int)
    ensures
        spec_wasm_binary_value(spec_binary_op(op, ty, operand), a, b) == Some(crate::ir::spec_ir_binary_value(op, a, b)),
        spec_wasm_is_i64(spec_binary_op(op, ty, operand)) == (if op is Add || op is Sub || op is Mul || op is DivUInt
            || op is RemUInt {
            ty == ValueType::I64
        } else {
            operand == ValueType::I64
        }),
{
}

/// The instruction of a binary operator.
fn binary_op(op: BinaryOp, ty: ValueType, operand: ValueType) -> (r: WasmOp)
    ensures
        r == spec_binary_op(op, ty, operand),
{
    let wide = match op {
        BinaryOp::Add | BinaryOp::Sub | BinaryOp::Mul | BinaryOp::DivUInt | BinaryOp::RemUInt => ty == ValueType::I64,
        _ => operand == ValueType::I64,
    };
    match op {
        BinaryOp::Add => if wide { WasmOp::I64Add } else { WasmOp::I32Add },
        BinaryOp::Sub => if wide { WasmOp::I64Sub } else { WasmOp::I32Sub },
        BinaryOp::Mul => if wide { WasmOp::I64Mul } else { WasmOp::I32Mul },
        BinaryOp::DivUInt => if wide { WasmOp::I64DivU } else { WasmOp::I32DivU },
        BinaryOp::RemUInt => if wide { WasmOp::I64RemU } else { WasmOp::I32RemU },
        BinaryOp::Equal => if wide { WasmOp::I64Eq } else { WasmOp::I32Eq },
        BinaryOp::NotEqual => if wide { WasmOp::I64Ne } else { WasmOp::I32Ne },
        BinaryOp::Less => if wide { WasmOp::I64LtS } else { WasmOp::I32LtS },
        BinaryOp::LessEqual => if wide { WasmOp::I64LeS } else { WasmOp::I32LeS },
        BinaryOp::Greater => if wide { WasmOp::I64GtS } else { WasmOp::I32GtS },
        BinaryOp::GreaterEqual => if wide { WasmOp::I64GeS } else { WasmOp::I32GeS },
    }
}

/// Whether every host function the expression calls is in `hosts` (reads of state call
/// `state_read`).
pub open spec fn spec_hosts_known(e: ExprView, hosts: Seq<HostFunction>) -> bool
    decreases e, 0int,
{
    match e {
        ExprView::LoadI32(a) | ExprView::LoadI8(a) | ExprView::LoadI64(a) => spec_hosts_known(*a, hosts),
        ExprView::StateRead { .. } | ExprView::StateReadRaw { .. } => hosts.contains(HostFunction::StdStateRead),
        ExprView::Binary { left, right, .. } => spec_hosts_known(*left, hosts) && spec_hosts_known(*right, hosts),
        ExprView::HostCall { function, args } => hosts.contains(function) && spec_args_known(args, hosts, args.len() as int),
        ExprView::Select { condition, if_true, if_false, .. } => spec_hosts_known(*condition, hosts)
            && spec_hosts_known(*if_true, hosts) && spec_hosts_known(*if_false, hosts),
        _ => true,
    }
}

/// Whether the host functions of the first `n` arguments are all in `hosts`.
pub open spec fn spec_args_known(args: Seq<ExprView>, hosts: Seq<HostFunction>, n: int) -> bool
    decreases args, n,
{
    if n <= 0 || n > args.len() {
        true
    } else {
        proof {
            assert(decreases_to!(args => args[n - 1]));
        }
        spec_args_known(args, hosts, n - 1) && spec_hosts_known(args[n - 1], hosts)
    }
}

proof fn lemma_args_known(args: Seq<ExprView>, hosts: Seq<HostFunction>, n: int, i: int)
    requires
        0 <= i < n <= args.len(),
        spec_args_known(args, hosts, n),
    ensures
        spec_hosts_known(args[i], hosts),
    decreases n,
{
    if i < n - 1 {
        lemma_args_known(args, hosts, n - 1, i);
    }
}

/// The position of the first `h` in `hosts`.
pub open spec fn spec_host_index(hosts: Seq<HostFunction>, h: HostFunction) -> int
    decreases hosts.len(),
{
    if hosts.len() == 0 {
        0
    } else if hosts.last() == h && !hosts.drop_last().contains(h) {
        hosts.len() - 1
    } else {
        spec_host_index(hosts.drop_last(), h)
    }
}

/// The import index of a host function.
fn host_index(hosts: &[HostFunction], h: HostFunction) -> (r: u32)
    requires
        hosts@.contains(h),
    ensures
        r == spec_host_index(hosts@, h) as u32,
{
    let mut i: usize = 0;
    while i < hosts.len()
        invariant
            i <= hosts@.len(),
            hosts@.contains(h),
            forall|k: int| 0 <= k < i ==> hosts@[k] != h,
        decreases hosts@.len() - i,
    {
        if hosts[i] == h {
            proof {
                lemma_host_index(hosts@, h, i as int);
            }
            return i as u32;
        }
        i = i + 1;
    }
    proof {
        let k = choose|k: int| 0 <= k < hosts@.len() && hosts@[k] == h;
        assert(hosts@[k] == h);
    }
    0
}

proof fn lemma_host_index(hosts: Seq<HostFunction>, h: HostFunction, i: int)
    requires
        0 <= i < hosts.len(),
        hosts[i] == h,
        forall|k: int| 0 <= k < i ==> hosts[k] != h,
    ensures
        spec_host_index(hosts, h) == i,
    decreases hosts.len(),
{
    if i < hosts.len() - 1 {
        let d = hosts.drop_last();
        assert(d[i] == h);
        assert(d.contains(h));
        assert forall|k: int| 0 <= k < i implies d[k] != h by {
            assert(d[k] == hosts[k]);
        }
        lemma_host_index(d, h, i);
    } else {
        assert(!hosts.drop_last().contains(h)) by {
            if hosts.drop_last().contains(h) {
                let k = choose|k: int| 0 <= k < hosts.drop_last().len() && hosts.drop_last()[k] == h;
                assert(hosts[k] == h);
            }
        }
    }
}

/// The comparison of a condition with zero that leaves a 32-bit truth value.
pub open spec fn spec_truthy(t: ValueType) -> Seq<WasmOp> {
    match t {
        ValueType::I32 => seq![WasmOp::I32Const(0), WasmOp::I32Ne],
        ValueType::I64 => seq![WasmOp::I64Const(0), WasmOp::I64Ne],
    }
}

/// The test of a condition for zero.
pub open spec fn spec_zero_check(t: ValueType) -> WasmOp {
    match t {
        ValueType::I32 => WasmOp::I32Eqz,
        ValueType::I64 => WasmOp::I64Eqz,
    }
}

/// The call of `state_read` with the key and length slot of a state read.
pub open spec fn spec_state_call(key_ptr: u32, key_len: u32, out_len_ptr: u32, hosts: Seq<HostFunction>) -> Seq<WasmOp> {
    seq![
        WasmOp::I32Const(key_ptr as i32),
        WasmOp::I32Const(key_len as i32),
        WasmOp::I32Const(out_len_ptr as i32),
        WasmOp::Call(spec_host_index(hosts, HostFunction::StdStateRead) as u32),
    ]
}

/// The instructions of an expression: operands first, left to right, then the operation.
pub open spec fn spec_emit_expr(e: ExprView, hosts: Seq<HostFunction>) -> Seq<WasmOp>
    decreases e, 0int,
{
    match e {
        ExprView::Param { index, .. } | ExprView::Local { index, .. } => seq![WasmOp::LocalGet(index)],
        ExprView::ConstI32(v) => seq![WasmOp::I32Const(v)],
        ExprView::ConstI64(v) => seq![WasmOp::I64Const(v)],
        ExprView::LoadI32(a) => spec_emit_expr(*a, hosts).push(WasmOp::I32Load),
        ExprView::LoadI8(a) => spec_emit_expr(*a, hosts).push(WasmOp::I32Load8U),
        ExprView::LoadI64(a) => spec_emit_expr(*a, hosts).push(WasmOp::I64Load),
        ExprView::StateRead { key_ptr, key_len, out_len_ptr, ty } => spec_state_call(key_ptr, key_len, out_len_ptr, hosts).push(
            if ty == ValueType::I32 { WasmOp::I32Load } else { WasmOp::I64Load },
        ),
        ExprView::StateReadRaw { key_ptr, key_len, out_len_ptr } => spec_state_call(key_ptr, key_len, out_len_ptr, hosts),
        ExprView::Binary { op, left, right, ty } => spec_emit_expr(*left, hosts) + spec_emit_expr(*right, hosts)
            + seq![spec_binary_op(op, ty, left.value_type())],
        ExprView::HostCall { function, args } => spec_emit_args(args, hosts, args.len() as int).push(
            WasmOp::Call(spec_host_index(hosts, function) as u32),
        ),
        ExprView::Select { condition, if_true, if_false, .. } => spec_emit_expr(*if_true, hosts) + spec_emit_expr(*if_false, hosts)
            + spec_emit_expr(*condition, hosts) + spec_truthy(condition.value_type()) + seq![WasmOp::Select],
    }
}

/// The instructions of the first `n` arguments, in order.
pub open spec fn spec_emit_args(args: Seq<ExprView>, hosts: Seq<HostFunction>, n: int) -> Seq<WasmOp>
    decreases args, n,
{
    if n <= 0 || n > args.len() {
        Seq::empty()
    } else {
        proof {
            assert(decreases_to!(args => args[n - 1]));
        }
        spec_emit_args(args, hosts, n - 1) + spec_emit_expr(args[n - 1], hosts)
    }
}

/// Appends the instructions of an expression.
#[verifier::loop_isolation(false)]
fn emit_expr(expr: &Expr, hosts: &[HostFunction], out: &mut Vec<WasmOp>)
    requires
        spec_hosts_known(expr@, hosts@),
    ensures
        final(out)@ == old(out)@ + spec_emit_expr(expr@, hosts@),
    decreases expr,
{
    let ghost start = out@;
    match expr {
        Expr::Param { index, .. } | Expr::Local { index, .. } => {
            out.push(WasmOp::LocalGet(*index));
        },
        Expr::ConstI32(v) => {
            out.push(WasmOp::I32Const(*v));
        },
        Expr::ConstI64(v) => {
            out.push(WasmOp::I64Const(*v));
        },
        Expr::LoadI32 { address } => {
            emit_expr(address, hosts, out);
            out.push(WasmOp::I32Load);
        },
        Expr::LoadI8 { address } => {
            emit_expr(address, hosts, out);
            out.push(WasmOp::I32Load8U);
        },
        Expr::LoadI64 { address } => {
            emit_expr(address, hosts, out);
            out.push(WasmOp::I64Load);
        },
        Expr::StateRead { key_ptr, key_len, out_len_ptr, ty } => {
            let index = host_index(hosts, HostFunction::StdStateRead);
            out.push(WasmOp::I32Const(*key_ptr as i32));
            out.push(WasmOp::I32Const(*key_len as i32));
            out.push(WasmOp::I32Const(*out_len_ptr as i32));
            out.push(WasmOp::Call(index));
            match ty {
                ValueType::I32 => out.push(WasmOp::I32Load),
                ValueType::I64 => out.push(WasmOp::I64Load),
            }
            assert(out@ =~= start + spec_emit_expr(expr@, hosts@));
        },
        Expr::StateReadRaw { key_ptr, key_len, out_len_ptr } => {
            let index = host_index(hosts, HostFunction::StdStateRead);
            out.push(WasmOp::I32Const(*key_ptr as i32));
            out.push(WasmOp::I32Const(*key_len as i32));
            out.push(WasmOp::I32Const(*out_len_ptr as i32));
            out.push(WasmOp::Call(index));
            assert(out@ =~= start + spec_emit_expr(expr@, hosts@));
        },
        Expr::Binary { op, left, right, ty } => {
            emit_expr(left, hosts, out);
            emit_expr(right, hosts, out);
            out.push(binary_op(*op, *ty, left.value_type()));
            assert(out@ =~= start + spec_emit_expr(expr@, hosts@));
        },
        Expr::HostCall { function, args } => {
            proof {
                lemma_exprs_view_index(args@);
            }
            let ghost av = exprs_view(args@);
            assert(expr@ == ExprView::HostCall { function: *function, args: av });
            let mut i: usize = 0;
            while i < args.len()
                invariant
                    i <= args@.len(),
                    av == exprs_view(args@),
                    av.len() == args@.len(),
                    forall|k: int| 0 <= k < args@.len() ==> #[trigger] av[k] == args@[k]@,
                    out@ == start + spec_emit_args(av, hosts@, i as int),
                decreases args@.len() - i,
            {
                proof {
                    assert(decreases_to!(expr => *args));
                    assert(decreases_to!(*args => args@));
                    assert(decreases_to!(args@ => args@[i as int]));
                    lemma_args_known(av, hosts@, av.len() as int, i as int);
                }
                emit_expr(&args[i], hosts, out);
                i = i + 1;
                assert(out@ =~= start + spec_emit_args(av, hosts@, i as int));
            }
            let index = host_index(hosts, *function);
            out.push(WasmOp::Call(index));
        },
        Expr::Select { condition, if_true, if_false, .. } => {
            emit_expr(if_true, hosts, out);
            emit_expr(if_false, hosts, out);
            emit_expr(condition, hosts, out);
            emit_truthy(condition.value_type(), out);
            out.push(WasmOp::Select);
            assert(out@ =~= start + spec_emit_expr(expr@, hosts@));
        },
    }
}

/// Appends the comparison with zero that leaves a 32-bit truth value.
fn emit_truthy(t: ValueType, out: &mut Vec<WasmOp>)
    ensures
        final(out)@ == old(out)@ + spec_truthy(t),
{
    match t {
        ValueType::I32 => {
            out.push(WasmOp::I32Const(0));
            out.push(WasmOp::I32Ne);
        },
        ValueType::I64 => {
            out.push(WasmOp::I64Const(0));
            out.push(WasmOp::I64Ne);
        },
    }
    assert(out@ =~= old(out)@ + spec_truthy(t));
}


/// Whether every host function the statement calls is in `hosts`.
pub open spec fn spec_stmt_known(s: StmtView, hosts: Seq<HostFunction>) -> bool
    decreases s, 0int,
{
    match s {
        StmtView::Let { value, .. } | StmtView::Assign { value, .. } | StmtView::Expr(value) => spec_hosts_known(value, hosts),
        StmtView::Store { address, value, .. } => spec_hosts_known(address, hosts) && spec_hosts_known(value, hosts),
        StmtView::Return(v) => match v {
            Some(e) => spec_hosts_known(e, hosts),
            None => true,
        },
        StmtView::If { condition, then_body, else_body } => spec_hosts_known(condition, hosts)
            && spec_stmts_known(then_body, hosts, then_body.len() as int)
            && spec_stmts_known(else_body, hosts, else_body.len() as int),
        StmtView::While { condition, body } => spec_hosts_known(condition, hosts)
            && spec_stmts_known(body, hosts, body.len() as int),
        StmtView::Break | StmtView::Continue => true,
    }
}

/// Whether the host functions of the first `n` statements are all in `hosts`.
pub open spec fn spec_stmts_known(ss: Seq<StmtView>, hosts: Seq<HostFunction>, n: int) -> bool
    decreases ss, n,
{
    if n <= 0 || n > ss.len() {
        true
    } else {
        proof {
            assert(decreases_to!(ss => ss[n - 1]));
        }
        spec_stmts_known(ss, hosts, n - 1) && spec_stmt_known(ss[n - 1], hosts)
    }
}

proof fn lemma_stmts_known(ss: Seq<StmtView>, hosts: Seq<HostFunction>, n: int, i: int)
    requires
        0 <= i < n <= ss.len(),
        spec_stmts_known(ss, hosts, n),
    ensures
        spec_stmt_known(ss[i], hosts),
    decreases n,
{
    if i < n - 1 {
        lemma_stmts_known(ss, hosts, n - 1, i);
    }
}

/// Whether `b` holds every host function `a` holds.
pub open spec fn hosts_include(a: Seq<HostFunction>, b: Seq<HostFunction>) -> bool {
    forall|h: HostFunction| a.contains(h) ==> #[trigger] b.contains(h)
}

proof fn lemma_known_mono(e: ExprView, a: Seq<HostFunction>, b: Seq<HostFunction>)
    requires
        hosts_include(a, b),
        spec_hosts_known(e, a),
    ensures
        spec_hosts_known(e, b),
    decreases e, 0int,
{
    match e {
        ExprView::LoadI32(x) | ExprView::LoadI8(x) | ExprView::LoadI64(x) => lemma_known_mono(*x, a, b),
        ExprView::Binary { left, right, .. } => {
            lemma_known_mono(*left, a, b);
            lemma_known_mono(*right, a, b);
        },
        ExprView::HostCall { function, args } => lemma_args_mono(args, a, b, args.len() as int),
        ExprView::Select { condition, if_true, if_false, .. } => {
            lemma_known_mono(*condition, a, b);
            lemma_known_mono(*if_true, a, b);
            lemma_known_mono(*if_false, a, b);
        },
        _ => {},
    }
}

proof fn lemma_args_mono(args: Seq<ExprView>, a: Seq<HostFunction>, b: Seq<HostFunction>, n: int)
    requires
        hosts_include(a, b),
        spec_args_known(args, a, n),
    ensures
        spec_args_known(args, b, n),
    decreases args, n,
{
    if 0 < n <= args.len() {
        assert(decreases_to!(args => args[n - 1]));
        lemma_args_mono(args, a, b, n - 1);
        lemma_known_mono(args[n - 1], a, b);
    }
}

proof fn lemma_stmt_mono(s: StmtView, a: Seq<HostFunction>, b: Seq<HostFunction>)
    requires
        hosts_include(a, b),
        spec_stmt_known(s, a),
    ensures
        spec_stmt_known(s, b),
    decreases s, 0int,
{
    match s {
        StmtView::Let { value, .. } | StmtView::Assign { value, .. } | StmtView::Expr(value) => lemma_known_mono(value, a, b),
        StmtView::Store { address, value, .. } => {
            lemma_known_mono(address, a, b);
            lemma_known_mono(value, a, b);
        },
        StmtView::Return(v) => {
            if let Some(e) = v {
                lemma_known_mono(e, a, b);
            }
        },
        StmtView::If { condition, then_body, else_body } => {
            lemma_known_mono(condition, a, b);
            lemma_stmts_mono(then_body, a, b, then_body.len() as int);
            lemma_stmts_mono(else_body, a, b, else_body.len() as int);
        },
        StmtView::While { condition, body } => {
            lemma_known_mono(condition, a, b);
            lemma_stmts_mono(body, a, b, body.len() as int);
        },
        _ => {},
    }
}

proof fn lemma_stmts_mono(ss: Seq<StmtView>, a: Seq<HostFunction>, b: Seq<HostFunction>, n: int)
    requires
        hosts_include(a, b),
        spec_stmts_known(ss, a, n),
    ensures
        spec_stmts_known(ss, b, n),
    decreases ss, n,
{
    if 0 < n <= ss.len() {
        assert(decreases_to!(ss => ss[n - 1]));
        lemma_stmts_mono(ss, a, b, n - 1);
        lemma_stmt_mono(ss[n - 1], a, b);
    }
}

/// `acc` with `h` appended unless it is there already.
pub open spec fn spec_add_host(acc: Seq<HostFunction>, h: HostFunction) -> Seq<HostFunction> {
    if acc.contains(h) {
        acc
    } else {
        acc.push(h)
    }
}

/// `acc` extended by the host functions an expression calls, in the order of first use:
/// operands before the operation, left to right.
pub open spec fn spec_collect_expr(e: ExprView, acc: Seq<HostFunction>) -> Seq<HostFunction>
    decreases e, 0int,
{
    match e {
        ExprView::LoadI32(a) | ExprView::LoadI8(a) | ExprView::LoadI64(a) => spec_collect_expr(*a, acc),
        ExprView::StateRead { .. } | ExprView::StateReadRaw { .. } => spec_add_host(acc, HostFunction::StdStateRead),
        ExprView::Binary { left, right, .. } => spec_collect_expr(*right, spec_collect_expr(*left, acc)),
        ExprView::HostCall { function, args } => spec_add_host(spec_collect_args(args, acc, args.len() as int), function),
        ExprView::Select { condition, if_true, if_false, .. } => spec_collect_expr(
            *if_false,
            spec_collect_expr(*if_true, spec_collect_expr(*condition, acc)),
        ),
        _ => acc,
    }
}

/// `acc` extended by the host functions of the first `n` arguments.
pub open spec fn spec_collect_args(args: Seq<ExprView>, acc: Seq<HostFunction>, n: int) -> Seq<HostFunction>
    decreases args, n,
{
    if n <= 0 || n > args.len() {
        acc
    } else {
        proof {
            assert(decreases_to!(args => args[n - 1]));
        }
        spec_collect_expr(args[n - 1], spec_collect_args(args, acc, n - 1))
    }
}

/// `acc` extended by the host functions a statement calls.
pub open spec fn spec_collect_stmt(s: StmtView, acc: Seq<HostFunction>) -> Seq<HostFunction>
    decreases s, 0int,
{
    match s {
        StmtView::Let { value, .. } | StmtView::Assign { value, .. } | StmtView::Expr(value) => spec_collect_expr(value, acc),
        StmtView::Store { address, value, .. } => spec_collect_expr(value, spec_collect_expr(address, acc)),
        StmtView::Return(v) => match v {
            Some(e) => spec_collect_expr(e, acc),
            None => acc,
        },
        StmtView::If { condition, then_body, else_body } => spec_collect_stmts(
            else_body,
            spec_collect_stmts(then_body, spec_collect_expr(condition, acc), then_body.len() as int),
            else_body.len() as int,
        ),
        StmtView::While { condition, body } => spec_collect_stmts(body, spec_collect_expr(condition, acc), body.len() as int),
        StmtView::Break | StmtView::Continue => acc,
    }
}

/// `acc` extended by the host functions of the first `n` statements.
pub open spec fn spec_collect_stmts(ss: Seq<StmtView>, acc: Seq<HostFunction>, n: int) -> Seq<HostFunction>
    decreases ss, n,
{
    if n <= 0 || n > ss.len() {
        acc
    } else {
        proof {
            assert(decreases_to!(ss => ss[n - 1]));
        }
        spec_collect_stmt(ss[n - 1], spec_collect_stmts(ss, acc, n - 1))
    }
}

/// Adds `h` to the list unless it is there already.
fn add_host(hosts: &mut Vec<HostFunction>, h: HostFunction)
    ensures
        final(hosts)@ == spec_add_host(old(hosts)@, h),
        final(hosts)@.contains(h),
        hosts_include(old(hosts)@, final(hosts)@),
        old(hosts)@.no_duplicates() ==> final(hosts)@.no_duplicates(),
        final(hosts)@.len() <= old(hosts)@.len() + 1,
        forall|x: HostFunction| #[trigger] final(hosts)@.contains(x) ==> old(hosts)@.contains(x) || x == h,
{
    let mut i: usize = 0;
    while i < hosts.len()
        invariant
            i <= hosts@.len(),
            hosts@ == old(hosts)@,
            forall|k: int| 0 <= k < i ==> hosts@[k] != h,
        decreases hosts@.len() - i,
    {
        if hosts[i] == h {
            assert(hosts@[i as int] == h);
            assert(hosts@.contains(h));
            return;
        }
        i = i + 1;
    }
    assert(!old(hosts)@.contains(h)) by {
        if old(hosts)@.contains(h) {
            let k = choose|k: int| 0 <= k < old(hosts)@.len() && old(hosts)@[k] == h;
            assert(hosts@[k] == h);
        }
    }
    hosts.push(h);
    assert(hosts@.last() == h);
    assert forall|x: HostFunction| old(hosts)@.contains(x) implies #[trigger] hosts@.contains(x) by {
        let k = choose|k: int| 0 <= k < old(hosts)@.len() && old(hosts)@[k] == x;
        assert(hosts@[k] == x);
    }
    assert forall|x: HostFunction| #[trigger] hosts@.contains(x) implies old(hosts)@.contains(x) || x == h by {
        let k = choose|k: int| 0 <= k < hosts@.len() && hosts@[k] == x;
        if k < old(hosts)@.len() {
            assert(old(hosts)@[k] == x);
        }
    }
}

/// Adds the host functions an expression calls, in the order of first use.
#[verifier::loop_isolation(false)]
fn collect_expr_hosts(e: &Expr, hosts: &mut Vec<HostFunction>)
    ensures
        final(hosts)@ == spec_collect_expr(e@, old(hosts)@),
        spec_hosts_known(e@, final(hosts)@),
        hosts_include(old(hosts)@, final(hosts)@),
        old(hosts)@.no_duplicates() ==> final(hosts)@.no_duplicates(),
    decreases e,
{
    match e {
        Expr::LoadI32 { address } | Expr::LoadI8 { address } | Expr::LoadI64 { address } => {
            collect_expr_hosts(address, hosts);
        },
        Expr::StateRead { .. } | Expr::StateReadRaw { .. } => {
            add_host(hosts, HostFunction::StdStateRead);
        },
        Expr::Binary { left, right, .. } => {
            collect_expr_hosts(left, hosts);
            let ghost mid = hosts@;
            collect_expr_hosts(right, hosts);
            proof {
                lemma_known_mono(left@, mid, hosts@);
            }
        },
        Expr::HostCall { function, args } => {
            proof {
                lemma_exprs_view_index(args@);
            }
            let ghost av = exprs_view(args@);
            assert(e@ == ExprView::HostCall { function: *function, args: av });
            let mut i: usize = 0;
            while i < args.len()
                invariant
                    i <= args@.len(),
                    av == exprs_view(args@),
                    av.len() == args@.len(),
                    forall|k: int| 0 <= k < args@.len() ==> #[trigger] av[k] == args@[k]@,
                    spec_args_known(av, hosts@, i as int),
                    hosts@ == spec_collect_args(av, old(hosts)@, i as int),
                    hosts_include(old(hosts)@, hosts@),
                    old(hosts)@.no_duplicates() ==> hosts@.no_duplicates(),
                decreases args@.len() - i,
            {
                proof {
                    assert(decreases_to!(e => *args));
                    assert(decreases_to!(*args => args@));
                    assert(decreases_to!(args@ => args@[i as int]));
                }
                let ghost before = hosts@;
                collect_expr_hosts(&args[i], hosts);
                proof {
                    lemma_args_mono(av, before, hosts@, i as int);
                }
                i = i + 1;
            }
            let ghost before = hosts@;
            add_host(hosts, *function);
            proof {
                lemma_args_mono(av, before, hosts@, av.len() as int);
            }
        },
        Expr::Select { condition, if_true, if_false, .. } => {
            collect_expr_hosts(condition, hosts);
            let ghost m1 = hosts@;
            collect_expr_hosts(if_true, hosts);
            let ghost m2 = hosts@;
            collect_expr_hosts(if_false, hosts);
            proof {
                lemma_known_mono(condition@, m1, hosts@);
                lemma_known_mono(if_true@, m2, hosts@);
            }
        },
        _ => {},
    }
}

/// Adds the host functions a list of statements calls.
#[verifier::loop_isolation(false)]
fn collect_stmts_hosts(ss: &Vec<Stmt>, hosts: &mut Vec<HostFunction>)
    ensures
        final(hosts)@ == spec_collect_stmts(stmts_view(ss@), old(hosts)@, ss@.len() as int),
        spec_stmts_known(stmts_view(ss@), final(hosts)@, ss@.len() as int),
        hosts_include(old(hosts)@, final(hosts)@),
        old(hosts)@.no_duplicates() ==> final(hosts)@.no_duplicates(),
    decreases ss@, 1int,
{
    proof {
        crate::ir::lemma_stmts_view_index(ss@);
    }
    let ghost sv = stmts_view(ss@);
    let mut i: usize = 0;
    while i < ss.len()
        invariant
            i <= ss@.len(),
            sv == stmts_view(ss@),
            sv.len() == ss@.len(),
            forall|k: int| 0 <= k < ss@.len() ==> #[trigger] sv[k] == ss@[k]@,
            spec_stmts_known(sv, hosts@, i as int),
            hosts@ == spec_collect_stmts(sv, old(hosts)@, i as int),
            hosts_include(old(hosts)@, hosts@),
            old(hosts)@.no_duplicates() ==> hosts@.no_duplicates(),
        decreases ss@.len() - i,
    {
        proof {
            assert(decreases_to!(ss@ => ss@[i as int]));
        }
        let ghost before = hosts@;
        collect_stmt_hosts(&ss[i], hosts);
        proof {
            lemma_stmts_mono(sv, before, hosts@, i as int);
        }
        i = i + 1;
    }
}

/// Adds the host functions a statement calls.
fn collect_stmt_hosts(s: &Stmt, hosts: &mut Vec<HostFunction>)
    ensures
        final(hosts)@ == spec_collect_stmt(s@, old(hosts)@),
        spec_stmt_known(s@, final(hosts)@),
        hosts_include(old(hosts)@, final(hosts)@),
        old(hosts)@.no_duplicates() ==> final(hosts)@.no_duplicates(),
    decreases s, 0int,
{
    match s {
        Stmt::Let { value, .. } | Stmt::Assign { value, .. } | Stmt::Expr(value) => {
            collect_expr_hosts(value, hosts);
        },
        Stmt::Store { address, value, .. } => {
            collect_expr_hosts(address, hosts);
            let ghost mid = hosts@;
            collect_expr_hosts(value, hosts);
            proof {
                lemma_known_mono(address@, mid, hosts@);
            }
        },
        Stmt::Return { value } => {
            if let Some(e) = value {
                collect_expr_hosts(e, hosts);
            }
        },
        Stmt::If { condition, then_body, else_body } => {
            proof {
                assert(decreases_to!(s => *then_body));
                assert(decreases_to!(s => *else_body));
                assert(decreases_to!(*then_body => then_body@));
                assert(decreases_to!(*else_body => else_body@));
            }
            collect_expr_hosts(condition, hosts);
            let ghost m1 = hosts@;
            collect_stmts_hosts(then_body, hosts);
            let ghost m2 = hosts@;
            collect_stmts_hosts(else_body, hosts);
            proof {
                lemma_known_mono(condition@, m1, hosts@);
                lemma_stmts_mono(stmts_view(then_body@), m2, hosts@, then_body@.len() as int);
                assert(stmts_view(then_body@).len() == then_body@.len()) by {
                    crate::ir::lemma_stmts_view_index(then_body@);
                }
                assert(stmts_view(else_body@).len() == else_body@.len()) by {
                    crate::ir::lemma_stmts_view_index(else_body@);
                }
            }
        },
        Stmt::While { condition, body } => {
            proof {
                assert(decreases_to!(s => *body));
                assert(decreases_to!(*body => body@));
            }
            collect_expr_hosts(condition, hosts);
            let ghost m1 = hosts@;
            collect_stmts_hosts(body, hosts);
            proof {
                lemma_known_mono(condition@, m1, hosts@);
                assert(stmts_view(body@).len() == body@.len()) by {
                    crate::ir::lemma_stmts_view_index(body@);
                }
            }
        },
        Stmt::Break | Stmt::Continue => {},
    }
}

} // verus!

verus! {

/// The store instruction of a width.
pub open spec fn spec_store_op(w: StoreWidth) -> WasmOp {
    match w {
        StoreWidth::I8 => WasmOp::I32Store8,
        StoreWidth::I16 => WasmOp::I32Store16,
        StoreWidth::I32 => WasmOp::I32Store,
        StoreWidth::I64 => WasmOp::I64Store,
    }
}

/// The instructions of an optional value.
pub open spec fn spec_emit_opt(v: Option<ExprView>, hosts: Seq<HostFunction>) -> Seq<WasmOp> {
    match v {
        Some(e) => spec_emit_expr(e, hosts),
        None => Seq::empty(),
    }
}

/// The instructions of a statement. Inside a loop, `break` branches to the block around the
/// loop and `continue` to the loop itself; outside any loop both emit nothing.
pub open spec fn spec_emit_stmt(s: StmtView, hosts: Seq<HostFunction>, in_loop: bool) -> Seq<WasmOp>
    decreases s, 0int,
{
    match s {
        StmtView::Let { local, value } | StmtView::Assign { local, value } => spec_emit_expr(value, hosts).push(
            WasmOp::LocalSet(local),
        ),
        StmtView::Store { address, value, width } => (spec_emit_expr(address, hosts) + spec_emit_expr(value, hosts)).push(
            spec_store_op(width),
        ),
        StmtView::Expr(value) => spec_emit_expr(value, hosts).push(WasmOp::Drop),
        StmtView::Return(v) => spec_emit_opt(v, hosts).push(WasmOp::Return),
        StmtView::If { condition, then_body, else_body } => {
            let head = spec_emit_expr(condition, hosts) + spec_truthy(condition.value_type()) + seq![WasmOp::If]
                + spec_emit_stmts(then_body, hosts, in_loop, then_body.len() as int);
            let tail = if else_body.len() > 0 {
                seq![WasmOp::Else] + spec_emit_stmts(else_body, hosts, in_loop, else_body.len() as int)
            } else {
                Seq::empty()
            };
            (head + tail).push(WasmOp::End)
        },
        StmtView::While { condition, body } => seq![WasmOp::Block, WasmOp::Loop] + spec_emit_expr(condition, hosts)
            + seq![spec_zero_check(condition.value_type()), WasmOp::BrIf(1)]
            + spec_emit_stmts(body, hosts, true, body.len() as int) + seq![WasmOp::Br(0), WasmOp::End, WasmOp::End],
        StmtView::Break => if in_loop { seq![WasmOp::Br(1)] } else { Seq::empty() },
        StmtView::Continue => if in_loop { seq![WasmOp::Br(0)] } else { Seq::empty() },
    }
}

/// The instructions of the first `n` statements, in order.
pub open spec fn spec_emit_stmts(ss: Seq<StmtView>, hosts: Seq<HostFunction>, in_loop: bool, n: int) -> Seq<WasmOp>
    decreases ss, n,
{
    if n <= 0 || n > ss.len() {
        Seq::empty()
    } else {
        proof {
            assert(decreases_to!(ss => ss[n - 1]));
        }
        spec_emit_stmts(ss, hosts, in_loop, n - 1) + spec_emit_stmt(ss[n - 1], hosts, in_loop)
    }
}

/// Appends the instructions of an optional value.
fn emit_opt(v: &Option<Expr>, hosts: &[HostFunction], out: &mut Vec<WasmOp>)
    requires
        v matches Some(e) ==> spec_hosts_known(e@, hosts@),
    ensures
        final(out)@ == old(out)@ + spec_emit_opt(
            match v {
                Some(e) => Some(e@),
                None => None,
            },
            hosts@,
        ),
{
    match v {
        Some(e) => emit_expr(e, hosts, out),
        None => {
            assert(out@ =~= old(out)@ + Seq::<WasmOp>::empty());
        },
    }
}

/// Appends the instructions of a list of statements.
#[verifier::loop_isolation(false)]
fn emit_stmts(ss: &Vec<Stmt>, hosts: &[HostFunction], in_loop: bool, out: &mut Vec<WasmOp>)
    requires
        spec_stmts_known(stmts_view(ss@), hosts@, ss@.len() as int),
    ensures
        final(out)@ == old(out)@ + spec_emit_stmts(stmts_view(ss@), hosts@, in_loop, ss@.len() as int),
    decreases ss@, 1int,
{
    proof {
        crate::ir::lemma_stmts_view_index(ss@);
    }
    let ghost sv = stmts_view(ss@);
    let ghost start = out@;
    let mut i: usize = 0;
    while i < ss.len()
        invariant
            i <= ss@.len(),
            sv == stmts_view(ss@),
            sv.len() == ss@.len(),
            forall|k: int| 0 <= k < ss@.len() ==> #[trigger] sv[k] == ss@[k]@,
            out@ == start + spec_emit_stmts(sv, hosts@, in_loop, i as int),
        decreases ss@.len() - i,
    {
        proof {
            assert(decreases_to!(ss@ => ss@[i as int]));
            lemma_stmts_known(sv, hosts@, sv.len() as int, i as int);
        }
        emit_stmt(&ss[i], hosts, in_loop, out);
        i = i + 1;
        assert(out@ =~= start + spec_emit_stmts(sv, hosts@, in_loop, i as int));
    }
}

/// Appends the instructions of a statement.
#[verifier::rlimit(40)]
fn emit_stmt(s: &Stmt, hosts: &[HostFunction], in_loop: bool, out: &mut Vec<WasmOp>)
    requires
        spec_stmt_known(s@, hosts@),
    ensures
        final(out)@ == old(out)@ + spec_emit_stmt(s@, hosts@, in_loop),
    decreases s, 0int,
{
    let ghost start = out@;
    match s {
        Stmt::Let { local, value } | Stmt::Assign { local, value } => {
            emit_expr(value, hosts, out);
            out.push(WasmOp::LocalSet(*local));
        },
        Stmt::Store { address, value, width } => {
            emit_expr(address, hosts, out);
            emit_expr(value, hosts, out);
            match width {
                StoreWidth::I8 => out.push(WasmOp::I32Store8),
                StoreWidth::I16 => out.push(WasmOp::I32Store16),
                StoreWidth::I32 => out.push(WasmOp::I32Store),
                StoreWidth::I64 => out.push(WasmOp::I64Store),
            }
            assert(out@ =~= start + spec_emit_stmt(s@, hosts@, in_loop));
        },
        Stmt::Expr(value) => {
            emit_expr(value, hosts, out);
            out.push(WasmOp::Drop);
        },
        Stmt::Return { value } => {
            emit_opt(value, hosts, out);
            out.push(WasmOp::Return);
        },
        Stmt::If { condition, then_body, else_body } => {
            proof {
                assert(decreases_to!(s => *then_body));
                assert(decreases_to!(s => *else_body));
                assert(decreases_to!(*then_body => then_body@));
                assert(decreases_to!(*else_body => else_body@));
                crate::ir::lemma_stmts_view_index(then_body@);
                crate::ir::lemma_stmts_view_index(else_body@);
            }
            let ghost tv = stmts_view(then_body@);
            let ghost ev = stmts_view(else_body@);
            emit_expr(condition, hosts, out);
            emit_truthy(condition.value_type(), out);
            out.push(WasmOp::If);
            emit_stmts(then_body, hosts, in_loop, out);
            let ghost head = out@;
            assert(head =~= start + (spec_emit_expr(condition@, hosts@) + spec_truthy(condition@.value_type())
                + seq![WasmOp::If] + spec_emit_stmts(tv, hosts@, in_loop, tv.len() as int)));
            if else_body.len() > 0 {
                out.push(WasmOp::Else);
                emit_stmts(else_body, hosts, in_loop, out);
                assert(out@ =~= head + (seq![WasmOp::Else] + spec_emit_stmts(ev, hosts@, in_loop, ev.len() as int)));
            } else {
                assert(out@ =~= head + Seq::<WasmOp>::empty());
            }
            out.push(WasmOp::End);
            assert(out@ =~= start + spec_emit_stmt(s@, hosts@, in_loop));
        },
        Stmt::While { condition, body } => {
            proof {
                assert(decreases_to!(s => *body));
                assert(decreases_to!(*body => body@));
                crate::ir::lemma_stmts_view_index(body@);
            }
            out.push(WasmOp::Block);
            out.push(WasmOp::Loop);
            emit_expr(condition, hosts, out);
            match condition.value_type() {
                ValueType::I32 => out.push(WasmOp::I32Eqz),
                ValueType::I64 => out.push(WasmOp::I64Eqz),
            }
            out.push(WasmOp::BrIf(1));
            emit_stmts(body, hosts, true, out);
            out.push(WasmOp::Br(0));
            out.push(WasmOp::End);
            out.push(WasmOp::End);
            assert(out@ =~= start + spec_emit_stmt(s@, hosts@, in_loop));
        },
        Stmt::Break => {
            if in_loop {
                out.push(WasmOp::Br(1));
            }
            assert(out@ =~= start + spec_emit_stmt(s@, hosts@, in_loop));
        },
        Stmt::Continue => {
            if in_loop {
                out.push(WasmOp::Br(0));
            }
            assert(out@ =~= start + spec_emit_stmt(s@, hosts@, in_loop));
        },
    }
}

} // verus!

verus! {

/// Whether an expression touches linear memory: loads, and reads of state.
pub open spec fn spec_expr_mem(e: ExprView) -> bool
    decreases e, 0int,
{
    match e {
        ExprView::LoadI32(_) | ExprView::LoadI8(_) | ExprView::LoadI64(_) => true,
        ExprView::StateRead { .. } | ExprView::StateReadRaw { .. } => true,
        ExprView::Binary { left, right, .. } => spec_expr_mem(*left) || spec_expr_mem(*right),
        ExprView::HostCall { args, .. } => spec_args_mem(args, args.len() as int),
        ExprView::Select { condition, if_true, if_false, .. } => spec_expr_mem(*condition) || spec_expr_mem(*if_true)
            || spec_expr_mem(*if_false),
        _ => false,
    }
}

/// Whether one of the first `n` arguments touches memory.
pub open spec fn spec_args_mem(args: Seq<ExprView>, n: int) -> bool
    decreases args, n,
{
    if n <= 0 || n > args.len() {
        false
    } else {
        proof {
            assert(decreases_to!(args => args[n - 1]));
        }
        spec_args_mem(args, n - 1) || spec_expr_mem(args[n - 1])
    }
}

/// Whether a statement touches memory: stores, and expressions that do.
pub open spec fn spec_stmt_mem(s: StmtView) -> bool
    decreases s, 0int,
{
    match s {
        StmtView::Store { .. } => true,
        StmtView::Let { value, .. } | StmtView::Assign { value, .. } | StmtView::Expr(value) => spec_expr_mem(value),
        StmtView::Return(v) => match v {
            Some(e) => spec_expr_mem(e),
            None => false,
        },
        StmtView::If { condition, then_body, else_body } => spec_expr_mem(condition) || spec_stmts_mem(
            then_body,
            then_body.len() as int,
        ) || spec_stmts_mem(else_body, else_body.len() as int),
        StmtView::While { condition, body } => spec_expr_mem(condition) || spec_stmts_mem(body, body.len() as int),
        StmtView::Break | StmtView::Continue => false,
    }
}

/// Whether one of the first `n` statements touches memory.
pub open spec fn spec_stmts_mem(ss: Seq<StmtView>, n: int) -> bool
    decreases ss, n,
{
    if n <= 0 || n > ss.len() {
        false
    } else {
        proof {
            assert(decreases_to!(ss => ss[n - 1]));
        }
        spec_stmts_mem(ss, n - 1) || spec_stmt_mem(ss[n - 1])
    }
}

/// The value of an optional expression.
pub open spec fn opt_view(v: Option<Expr>) -> Option<ExprView> {
    match v {
        Some(e) => Some(e@),
        None => None,
    }
}

/// Whether a function's body touches memory.
pub open spec fn spec_function_mem(f: Function) -> bool {
    match f.body {
        FunctionBody::Return { value } => match value {
            Some(e) => spec_expr_mem(e@),
            None => false,
        },
        FunctionBody::Block { body, .. } => spec_stmts_mem(stmts_view(body@), body@.len() as int),
    }
}

/// Whether one of the first `n` functions touches memory.
pub open spec fn spec_functions_mem(fs: Seq<Function>, n: int) -> bool
    decreases n,
{
    if n <= 0 || n > fs.len() {
        false
    } else {
        spec_functions_mem(fs, n - 1) || spec_function_mem(fs[n - 1])
    }
}

/// The functions of the contracts, contract by contract.
pub open spec fn spec_contract_functions(cs: Seq<Contract>) -> Seq<Function>
    decreases cs.len(),
{
    if cs.len() == 0 {
        Seq::empty()
    } else {
        spec_contract_functions(cs.drop_last()) + cs.last().functions@
    }
}

/// Every function the module defines: free functions first, then those of each contract.
pub open spec fn spec_bindings(m: Module) -> Seq<Function> {
    m.functions@ + spec_contract_functions(m.contracts@)
}

/// Whether the module needs a linear memory: it has data, or a function touches memory.
pub open spec fn spec_module_needs_memory(m: Module) -> bool {
    m.data_segments@.len() > 0 || spec_functions_mem(spec_bindings(m), spec_bindings(m).len() as int)
}

/// Whether an expression touches memory.
#[verifier::loop_isolation(false)]
fn expr_needs_memory(e: &Expr) -> (r: bool)
    ensures
        r == spec_expr_mem(e@),
    decreases e,
{
    match e {
        Expr::LoadI32 { .. } | Expr::LoadI8 { .. } | Expr::LoadI64 { .. } => true,
        Expr::StateRead { .. } | Expr::StateReadRaw { .. } => true,
        Expr::Binary { left, right, .. } => expr_needs_memory(left) || expr_needs_memory(right),
        Expr::HostCall { function, args } => {
            proof {
                lemma_exprs_view_index(args@);
            }
            let ghost av = exprs_view(args@);
            assert(e@ == ExprView::HostCall { function: *function, args: av });
            let mut i: usize = 0;
            while i < args.len()
                invariant
                    i <= args@.len(),
                    av == exprs_view(args@),
                    av.len() == args@.len(),
                    forall|k: int| 0 <= k < args@.len() ==> #[trigger] av[k] == args@[k]@,
                    !spec_args_mem(av, i as int),
                decreases args@.len() - i,
            {
                proof {
                    assert(decreases_to!(e => *args));
                    assert(decreases_to!(*args => args@));
                    assert(decreases_to!(args@ => args@[i as int]));
                }
                if expr_needs_memory(&args[i]) {
                    proof {
                        lemma_args_mem_true(av, i as int, av.len() as int);
                    }
                    return true;
                }
                i = i + 1;
            }
            false
        },
        Expr::Select { condition, if_true, if_false, .. } => expr_needs_memory(condition) || expr_needs_memory(if_true)
            || expr_needs_memory(if_false),
        _ => false,
    }
}

proof fn lemma_args_mem_true(args: Seq<ExprView>, i: int, n: int)
    requires
        0 <= i < n <= args.len(),
        spec_expr_mem(args[i]),
    ensures
        spec_args_mem(args, n),
    decreases n,
{
    if i < n - 1 {
        lemma_args_mem_true(args, i, n - 1);
    }
}

proof fn lemma_stmts_mem_true(ss: Seq<StmtView>, i: int, n: int)
    requires
        0 <= i < n <= ss.len(),
        spec_stmt_mem(ss[i]),
    ensures
        spec_stmts_mem(ss, n),
    decreases n,
{
    if i < n - 1 {
        lemma_stmts_mem_true(ss, i, n - 1);
    }
}

proof fn lemma_functions_mem_true(fs: Seq<Function>, i: int, n: int)
    requires
        0 <= i < n <= fs.len(),
        spec_function_mem(fs[i]),
    ensures
        spec_functions_mem(fs, n),
    decreases n,
{
    if i < n - 1 {
        lemma_functions_mem_true(fs, i, n - 1);
    }
}

/// Whether one of a list of statements touches memory.
#[verifier::loop_isolation(false)]
fn stmts_need_memory(ss: &Vec<Stmt>) -> (r: bool)
    ensures
        r == spec_stmts_mem(stmts_view(ss@), ss@.len() as int),
    decreases ss@, 1int,
{
    proof {
        crate::ir::lemma_stmts_view_index(ss@);
    }
    let ghost sv = stmts_view(ss@);
    let mut i: usize = 0;
    while i < ss.len()
        invariant
            i <= ss@.len(),
            sv == stmts_view(ss@),
            sv.len() == ss@.len(),
            forall|k: int| 0 <= k < ss@.len() ==> #[trigger] sv[k] == ss@[k]@,
            !spec_stmts_mem(sv, i as int),
        decreases ss@.len() - i,
    {
        proof {
            assert(decreases_to!(ss@ => ss@[i as int]));
        }
        if stmt_needs_memory(&ss[i]) {
            proof {
                lemma_stmts_mem_true(sv, i as int, sv.len() as int);
            }
            return true;
        }
        i = i + 1;
    }
    false
}

/// Whether a statement touches memory.
fn stmt_needs_memory(s: &Stmt) -> (r: bool)
    ensures
        r == spec_stmt_mem(s@),
    decreases s, 0int,
{
    match s {
        Stmt::Store { .. } => true,
        Stmt::Let { value, .. } | Stmt::Assign { value, .. } | Stmt::Expr(value) => expr_needs_memory(value),
        Stmt::Return { value } => match value {
            Some(e) => expr_needs_memory(e),
            None => false,
        },
        Stmt::If { condition, then_body, else_body } => {
            proof {
                assert(decreases_to!(s => *then_body));
                assert(decreases_to!(s => *else_body));
                assert(decreases_to!(*then_body => then_body@));
                assert(decreases_to!(*else_body => else_body@));
                crate::ir::lemma_stmts_view_index(then_body@);
                crate::ir::lemma_stmts_view_index(else_body@);
            }
            expr_needs_memory(condition) || stmts_need_memory(then_body) || stmts_need_memory(else_body)
        },
        Stmt::While { condition, body } => {
            proof {
                assert(decreases_to!(s => *body));
                assert(decreases_to!(*body => body@));
                crate::ir::lemma_stmts_view_index(body@);
            }
            expr_needs_memory(condition) || stmts_need_memory(body)
        },
        Stmt::Break | Stmt::Continue => false,
    }
}

/// Whether a function's body touches memory.
fn function_needs_memory(f: &Function) -> (r: bool)
    ensures
        r == spec_function_mem(*f),
{
    match &f.body {
        FunctionBody::Return { value } => match value {
            Some(e) => expr_needs_memory(e),
            None => false,
        },
        FunctionBody::Block { body, .. } => stmts_need_memory(body),
    }
}

} // verus!

verus! {

/// Whether `p` locates a function of the module: `(0, j)` is the `j`-th free function and
/// `(c + 1, j)` the `j`-th function of contract `c`.
pub open spec fn spec_locates(m: Module, p: (usize, usize)) -> bool {
    if p.0 == 0 {
        p.1 < m.functions@.len()
    } else {
        p.0 - 1 < m.contracts@.len() && p.1 < m.contracts@[p.0 - 1].functions@.len()
    }
}

/// The function `p` locates.
pub open spec fn spec_located(m: Module, p: (usize, usize)) -> Function {
    if p.0 == 0 {
        m.functions@[p.1 as int]
    } else {
        m.contracts@[p.0 - 1].functions@[p.1 as int]
    }
}

/// Whether `ps` locates, one by one, every function the module defines, in export order.
pub open spec fn spec_locates_all(m: Module, ps: Seq<(usize, usize)>) -> bool {
    &&& ps.len() == spec_bindings(m).len()
    &&& forall|k: int| 0 <= k < ps.len() ==> spec_locates(m, #[trigger] ps[k]) && spec_located(m, ps[k])
        == spec_bindings(m)[k]
}

/// The function a position locates.
fn located(m: &Module, p: (usize, usize)) -> (r: &Function)
    requires
        spec_locates(*m, p),
    ensures
        *r == spec_located(*m, p),
{
    if p.0 == 0 {
        &m.functions[p.1]
    } else {
        &m.contracts[p.0 - 1].functions[p.1]
    }
}

proof fn lemma_contract_functions_step(cs: Seq<Contract>, i: int)
    requires
        0 <= i < cs.len(),
    ensures
        spec_contract_functions(cs.subrange(0, i + 1)) == spec_contract_functions(cs.subrange(0, i))
            + cs[i].functions@,
{
    assert(cs.subrange(0, i + 1).drop_last() =~= cs.subrange(0, i));
}

/// The positions of the functions the module defines, in export order: free functions, then
/// each contract's.
fn binding_positions(m: &Module) -> (r: Vec<(usize, usize)>)
    requires
        m.contracts@.len() < usize::MAX,
    ensures
        spec_locates_all(*m, r@),
        r@ == spec_positions(*m),
{
    let ghost free = Seq::new(m.functions@.len(), |j: int| (0usize, j as usize));
    let mut r: Vec<(usize, usize)> = Vec::new();
    let mut i: usize = 0;
    while i < m.functions.len()
        invariant
            i <= m.functions@.len(),
            r@.len() == i,
            r@ =~= free.subrange(0, i as int),
            free == Seq::new(m.functions@.len(), |j: int| (0usize, j as usize)),
            forall|k: int| 0 <= k < i ==> spec_locates(*m, #[trigger] r@[k]) && spec_located(*m, r@[k])
                == m.functions@[k],
        decreases m.functions@.len() - i,
    {
        r.push((0, i));
        i = i + 1;
        assert(r@ =~= free.subrange(0, i as int));
    }
    assert(free.subrange(0, m.functions@.len() as int) =~= free);
    let mut c: usize = 0;
    while c < m.contracts.len()
        invariant
            c <= m.contracts@.len(),
            m.contracts@.len() < usize::MAX,
            r@.len() == (m.functions@ + spec_contract_functions(m.contracts@.subrange(0, c as int))).len(),
            r@ == free + spec_contract_positions(m.contracts@, c as int),
            forall|k: int| 0 <= k < r@.len() ==> spec_locates(*m, #[trigger] r@[k]) && spec_located(*m, r@[k])
                == (m.functions@ + spec_contract_functions(m.contracts@.subrange(0, c as int)))[k],
        decreases m.contracts@.len() - c,
    {
        let ghost before = r@;
        let ghost done = m.functions@ + spec_contract_functions(m.contracts@.subrange(0, c as int));
        let n = m.contracts[c].functions.len();
        let mut j: usize = 0;
        while j < n
            invariant
                j <= n,
                c < m.contracts@.len(),
                m.contracts@.len() < usize::MAX,
                n == m.contracts@[c as int].functions@.len(),
                r@.len() == before.len() + j,
                r@ =~= before + Seq::new(j as nat, |k: int| ((c + 1) as usize, k as usize)),
                forall|k: int| 0 <= k < before.len() ==> r@[k] == before[k],
                forall|k: int| 0 <= k < j ==> #[trigger] r@[before.len() + k] == ((c + 1) as usize, k as usize),
            decreases n - j,
        {
            r.push((c + 1, j));
            j = j + 1;
            assert(r@ =~= before + Seq::new(j as nat, |k: int| ((c + 1) as usize, k as usize)));
        }
        assert(r@ =~= free + spec_contract_positions(m.contracts@, c + 1));
        proof {
            lemma_contract_functions_step(m.contracts@, c as int);
            let fs = m.contracts@[c as int].functions@;
            let now = m.functions@ + spec_contract_functions(m.contracts@.subrange(0, c + 1));
            assert(now =~= done + fs);
            assert forall|k: int| 0 <= k < r@.len() implies spec_locates(*m, #[trigger] r@[k]) && spec_located(*m, r@[k])
                == now[k] by {
                if k < before.len() {
                    assert(r@[k] == before[k]);
                } else {
                    assert(r@[before.len() + (k - before.len())] == ((c + 1) as usize, (k - before.len()) as usize));
                }
            }
        }
        c = c + 1;
    }
    assert(m.contracts@.subrange(0, m.contracts@.len() as int) =~= m.contracts@);
    r
}

/// Whether the module needs a linear memory: it has data segments, or one of its functions
/// loads, stores or reads state.
fn module_needs_memory(m: &Module, ps: &Vec<(usize, usize)>) -> (r: bool)
    requires
        spec_locates_all(*m, ps@),
    ensures
        r == spec_module_needs_memory(*m),
{
    if m.data_segments.len() > 0 {
        return true;
    }
    let ghost all = spec_bindings(*m);
    let mut i: usize = 0;
    while i < ps.len()
        invariant
            i <= ps@.len(),
            spec_locates_all(*m, ps@),
            all == spec_bindings(*m),
            m.data_segments@.len() == 0,
            !spec_functions_mem(all, i as int),
        decreases ps@.len() - i,
    {
        assert(spec_locates(*m, ps@[i as int]));
        if function_needs_memory(located(m, ps[i])) {
            proof {
                lemma_functions_mem_true(all, i as int, all.len() as int);
            }
            return true;
        }
        i = i + 1;
    }
    false
}

/// Whether every host function the function calls is in `hosts`.
pub open spec fn spec_function_known(f: Function, hosts: Seq<HostFunction>) -> bool {
    match f.body {
        FunctionBody::Return { value } => match value {
            Some(e) => spec_hosts_known(e@, hosts),
            None => true,
        },
        FunctionBody::Block { body, .. } => spec_stmts_known(stmts_view(body@), hosts, body@.len() as int),
    }
}

/// `acc` extended by the host functions a function calls.
pub open spec fn spec_collect_function(f: Function, acc: Seq<HostFunction>) -> Seq<HostFunction> {
    match f.body {
        FunctionBody::Return { value } => match value {
            Some(e) => spec_collect_expr(e@, acc),
            None => acc,
        },
        FunctionBody::Block { body, .. } => spec_collect_stmts(stmts_view(body@), acc, body@.len() as int),
    }
}

/// `acc` extended by the host functions of the first `n` functions.
pub open spec fn spec_collect_functions(fs: Seq<Function>, acc: Seq<HostFunction>, n: int) -> Seq<HostFunction>
    decreases n,
{
    if n <= 0 || n > fs.len() {
        acc
    } else {
        spec_collect_function(fs[n - 1], spec_collect_functions(fs, acc, n - 1))
    }
}

/// The host functions the module imports, in the order of first use over its functions.
pub open spec fn spec_used_hosts(m: Module) -> Seq<HostFunction> {
    spec_collect_functions(spec_bindings(m), Seq::empty(), spec_bindings(m).len() as int)
}

proof fn lemma_function_mono(f: Function, a: Seq<HostFunction>, b: Seq<HostFunction>)
    requires
        hosts_include(a, b),
        spec_function_known(f, a),
    ensures
        spec_function_known(f, b),
{
    match f.body {
        FunctionBody::Return { value } => {
            if let Some(e) = value {
                lemma_known_mono(e@, a, b);
            }
        },
        FunctionBody::Block { body, .. } => lemma_stmts_mono(stmts_view(body@), a, b, body@.len() as int),
    }
}

/// A list of host functions without repetition has at most one entry per host function.
proof fn lemma_hosts_bound(hosts: Seq<HostFunction>)
    requires
        hosts.no_duplicates(),
    ensures
        hosts.len() <= 8,
{
    let all = set![
        HostFunction::SystemGetGasRemaining,
        HostFunction::SystemGetExecutionTime,
        HostFunction::SystemAbort,
        HostFunction::MemoryDeterministicMalloc,
        HostFunction::MemoryDeterministicRealloc,
        HostFunction::MemoryUsage,
        HostFunction::StdStateRead,
        HostFunction::StdStateWrite,
    ];
    hosts.unique_seq_to_set();
    assert forall|h: HostFunction| hosts.to_set().contains(h) implies all.contains(h) by {
        match h {
            HostFunction::SystemGetGasRemaining => {},
            HostFunction::SystemGetExecutionTime => {},
            HostFunction::SystemAbort => {},
            HostFunction::MemoryDeterministicMalloc => {},
            HostFunction::MemoryDeterministicRealloc => {},
            HostFunction::MemoryUsage => {},
            HostFunction::StdStateRead => {},
            HostFunction::StdStateWrite => {},
        }
    }
    vstd::set_lib::lemma_len_subset(hosts.to_set(), all);
}

/// The host functions a function calls, added to `hosts`.
fn collect_function_hosts(f: &Function, hosts: &mut Vec<HostFunction>)
    ensures
        final(hosts)@ == spec_collect_function(*f, old(hosts)@),
        spec_function_known(*f, final(hosts)@),
        hosts_include(old(hosts)@, final(hosts)@),
        old(hosts)@.no_duplicates() ==> final(hosts)@.no_duplicates(),
{
    match &f.body {
        FunctionBody::Return { value } => {
            if let Some(e) = value {
                collect_expr_hosts(e, hosts);
            }
        },
        FunctionBody::Block { body, .. } => collect_stmts_hosts(body, hosts),
    }
}

/// The host functions the module calls, in the order of first use; every function's calls
/// are among them and none occurs twice.
pub fn used_host_functions(m: &Module) -> (r: Vec<HostFunction>)
    requires
        m.contracts@.len() < usize::MAX,
    ensures
        r@ == spec_used_hosts(*m),
        r@.no_duplicates(),
        r@.len() <= 8,
        forall|k: int| 0 <= k < spec_bindings(*m).len() ==> spec_function_known(#[trigger] spec_bindings(*m)[k], r@),
{
    let ps = binding_positions(m);
    hosts_of(m, &ps)
}

/// The host functions of the located functions, in the order of first use.
fn hosts_of(m: &Module, ps: &Vec<(usize, usize)>) -> (r: Vec<HostFunction>)
    requires
        spec_locates_all(*m, ps@),
    ensures
        r@ == spec_used_hosts(*m),
        r@.no_duplicates(),
        r@.len() <= 8,
        forall|k: int| 0 <= k < spec_bindings(*m).len() ==> spec_function_known(#[trigger] spec_bindings(*m)[k], r@),
{
    let ghost all = spec_bindings(*m);
    let mut hosts: Vec<HostFunction> = Vec::new();
    let mut i: usize = 0;
    while i < ps.len()
        invariant
            i <= ps@.len(),
            spec_locates_all(*m, ps@),
            all == spec_bindings(*m),
            hosts@ == spec_collect_functions(all, Seq::empty(), i as int),
            hosts@.no_duplicates(),
            forall|k: int| 0 <= k < i ==> spec_function_known(#[trigger] all[k], hosts@),
        decreases ps@.len() - i,
    {
        assert(spec_locates(*m, ps@[i as int]));
        let ghost before = hosts@;
        collect_function_hosts(located(m, ps[i]), &mut hosts);
        proof {
            assert forall|k: int| 0 <= k < i + 1 implies spec_function_known(#[trigger] all[k], hosts@) by {
                if k < i {
                    lemma_function_mono(all[k], before, hosts@);
                }
            }
        }
        i = i + 1;
    }
    proof {
        lemma_hosts_bound(hosts@);
    }
    hosts
}

/// The instructions of a function body: the body, a closing `return`, and the final `end`.
pub open spec fn spec_function_ops(f: Function, hosts: Seq<HostFunction>) -> Seq<WasmOp> {
    let body = match f.body {
        FunctionBody::Return { value } => spec_emit_opt(opt_view(value), hosts),
        FunctionBody::Block { body, .. } => spec_emit_stmts(stmts_view(body@), hosts, false, body@.len() as int),
    };
    body + seq![WasmOp::Return, WasmOp::End]
}

/// The local variables of a function body, one entry each.
pub open spec fn spec_function_locals(f: Function) -> Seq<ValueType> {
    match f.body {
        FunctionBody::Return { .. } => Seq::empty(),
        FunctionBody::Block { locals, .. } => locals@.map_values(|l: Local| l.ty),
    }
}

/// The instructions of a function body.
pub fn function_ops(f: &Function, hosts: &[HostFunction]) -> (r: Vec<WasmOp>)
    requires
        spec_function_known(*f, hosts@),
    ensures
        r@ == spec_function_ops(*f, hosts@),
{
    let mut out: Vec<WasmOp> = Vec::new();
    match &f.body {
        FunctionBody::Return { value } => emit_opt(value, hosts, &mut out),
        FunctionBody::Block { body, .. } => emit_stmts(body, hosts, false, &mut out),
    }
    out.push(WasmOp::Return);
    out.push(WasmOp::End);
    proof {
        assert(out@ =~= spec_function_ops(*f, hosts@));
    }
    out
}

/// The types of a function's local variables.
pub fn function_locals(f: &Function) -> (r: Vec<ValueType>)
    ensures
        r@ == spec_function_locals(*f),
{
    let mut r: Vec<ValueType> = Vec::new();
    match &f.body {
        FunctionBody::Return { .. } => {},
        FunctionBody::Block { locals, .. } => {
            let mut i: usize = 0;
            while i < locals.len()
                invariant
                    i <= locals@.len(),
                    r@ == locals@.subrange(0, i as int).map_values(|l: Local| l.ty),
                decreases locals@.len() - i,
            {
                r.push(locals[i].ty);
                i = i + 1;
                assert(r@ =~= locals@.subrange(0, i as int).map_values(|l: Local| l.ty));
            }
            assert(locals@.subrange(0, locals@.len() as int) =~= locals@);
        },
    }
    proof {
        assert(r@ =~= spec_function_locals(*f));
    }
    r
}

} // verus!

verus! {

/// The canonical positions of the functions of the first `n` contracts.
pub open spec fn spec_contract_positions(cs: Seq<Contract>, n: int) -> Seq<(usize, usize)>
    decreases n,
{
    if n <= 0 || n > cs.len() {
        Seq::empty()
    } else {
        spec_contract_positions(cs, n - 1) + Seq::new(
            cs[n - 1].functions@.len(),
            |j: int| (n as usize, j as usize),
        )
    }
}

/// The positions of the functions the module defines, in export order.
pub open spec fn spec_positions(m: Module) -> Seq<(usize, usize)> {
    Seq::new(m.functions@.len(), |j: int| (0usize, j as usize)) + spec_contract_positions(
        m.contracts@,
        m.contracts@.len() as int,
    )
}

/// The export names of the function at a position: a free function is exported under its own
/// name (and `main` also as the runtime entry); a contract method as `<Contract>::<method>`
/// and under its runtime export name.
pub open spec fn spec_export_names_at(m: Module, p: (usize, usize)) -> Seq<Seq<char>> {
    if p.0 == 0 {
        let name = m.functions@[p.1 as int].name@;
        if name == crate::abi::spec_legacy_entry_export() {
            seq![name, crate::abi::spec_entry_export()]
        } else {
            seq![name]
        }
    } else {
        let c = m.contracts@[p.0 - 1];
        let f = c.functions@[p.1 as int];
        seq![crate::abi::spec_selector(c.name@, f.name@), crate::abi::spec_contract_export(c.name@, f.name@)]
    }
}

} // verus!

verus! {

/// The result types of a function: one value or none.
pub open spec fn spec_result_types(r: Option<ValueType>) -> Seq<ValueType> {
    match r {
        Some(t) => seq![t],
        None => Seq::empty(),
    }
}

/// The type of a host function.
pub open spec fn spec_host_type(h: HostFunction) -> (Seq<ValueType>, Seq<ValueType>) {
    (h.spec_params(), spec_result_types(h.spec_return_type()))
}

/// The type of a defined function.
pub open spec fn spec_function_type(f: Function) -> (Seq<ValueType>, Seq<ValueType>) {
    (f.params@.map_values(|p: Param| p.ty), spec_result_types(f.return_type))
}

/// The end of the furthest data segment: the largest offset plus length, or 0.
pub open spec fn spec_max_end(segs: Seq<DataSegment>) -> int
    decreases segs.len(),
{
    if segs.len() == 0 {
        0
    } else {
        let e = segs.last().offset + segs.last().bytes@.len();
        let rest = spec_max_end(segs.drop_last());
        if e > rest {
            e
        } else {
            rest
        }
    }
}

/// The minimum page count of the memory: enough 64 KiB pages for every data segment, and at
/// least one.
pub open spec fn spec_pages(m: Module) -> u64 {
    let e = spec_max_end(m.data_segments@);
    if e == 0 {
        1
    } else {
        ((e + 65535) / 65536) as u64
    }
}

/// The export entries of the first `n` located functions; the `k`-th has index `base + k`.
pub open spec fn spec_export_entries(m: Module, ps: Seq<(usize, usize)>, base: int, n: int) -> Seq<(Seq<char>, u32)>
    decreases n,
{
    if n <= 0 || n > ps.len() {
        Seq::empty()
    } else {
        spec_export_entries(m, ps, base, n - 1) + spec_export_names_at(m, ps[n - 1]).map_values(
            |name: Seq<char>| (name, (base + n - 1) as u32),
        )
    }
}

/// The sections of the module the code generator writes, in order. A module that defines no
/// function has none. Otherwise: the types of the imported host functions then of the
/// defined functions; the imports (the memory first, when the module needs one, then the
/// host functions) when there is any; one function entry and the exports of each defined
/// function; their bodies; and the data segments, when there are any and memory is needed.
pub open spec fn spec_sections(m: Module) -> Seq<SectionView> {
    let fs = spec_bindings(m);
    let hosts = spec_used_hosts(m);
    let mem = spec_module_needs_memory(m);
    let types = hosts.map_values(|h: HostFunction| spec_host_type(h)) + fs.map_values(|f: Function| spec_function_type(f));
    let memory = if mem {
        seq![ImportView::Memory(spec_pages(m))]
    } else {
        Seq::empty()
    };
    let imports = memory + hosts.map(|i: int, h: HostFunction| ImportView::Function(h.spec_module(), h.spec_field(), i as u32));
    let funcs = Seq::new(fs.len(), |j: int| (hosts.len() + j) as u32);
    let exports = spec_export_entries(m, spec_positions(m), hosts.len() as int, fs.len() as int);
    let code = fs.map_values(|f: Function| (spec_function_locals(f), spec_function_ops(f, hosts)));
    let data = m.data_segments@.map_values(|d: DataSegment| (d.offset as i32, d.bytes@));
    if fs.len() == 0 {
        Seq::empty()
    } else {
        let head = if hosts.len() > 0 || mem {
            seq![SectionView::Types(types), SectionView::Imports(imports)]
        } else {
            seq![SectionView::Types(types)]
        };
        let body = head + seq![SectionView::Functions(funcs), SectionView::Exports(exports), SectionView::Code(code)];
        if mem && m.data_segments@.len() > 0 {
            body.push(SectionView::Data(data))
        } else {
            body
        }
    }
}

/// The limits within which `wasm_encoder` can write the module: 32-bit counts and lengths.
pub open spec fn spec_encodable(m: Module) -> bool {
    &&& m.contracts@.len() < 0x1000_0000
    &&& spec_bindings(m).len() < 0x1000_0000
    &&& forall|k: int| 0 <= k < m.functions@.len() ==> (#[trigger] m.functions@[k]).name@.len() <= 0x1000_0000
    &&& forall|c: int| 0 <= c < m.contracts@.len() ==> (#[trigger] m.contracts@[c]).name@.len() <= 0x1000_0000
        && forall|k: int| 0 <= k < m.contracts@[c].functions@.len() ==> (#[trigger] m.contracts@[c].functions@[k]).name@.len()
            <= 0x1000_0000
    &&& forall|k: int| 0 <= k < spec_bindings(m).len() ==> (#[trigger] spec_bindings(m)[k]).params@.len() <= 0xffff_ffff
        && spec_function_locals(spec_bindings(m)[k]).len() <= 0xffff_ffff
    &&& m.data_segments@.len() < 0xffff_ffff
    &&& forall|k: int| 0 <= k < m.data_segments@.len() ==> (#[trigger] m.data_segments@[k]).bytes@.len() <= 0xffff_ffff
}

} // verus!

verus! {

/// The result types of a function.
fn result_types(r: Option<ValueType>) -> (v: Vec<ValueType>)
    ensures
        v@ == spec_result_types(r),
{
    let mut v: Vec<ValueType> = Vec::new();
    if let Some(t) = r {
        v.push(t);
    }
    assert(v@ =~= spec_result_types(r));
    v
}

/// The parameter types of a function.
fn param_types(f: &Function) -> (v: Vec<ValueType>)
    ensures
        v@ == f.params@.map_values(|p: Param| p.ty),
{
    let mut v: Vec<ValueType> = Vec::new();
    let mut i: usize = 0;
    while i < f.params.len()
        invariant
            i <= f.params@.len(),
            v@ == f.params@.subrange(0, i as int).map_values(|p: Param| p.ty),
        decreases f.params@.len() - i,
    {
        v.push(f.params[i].ty);
        i = i + 1;
        assert(v@ =~= f.params@.subrange(0, i as int).map_values(|p: Param| p.ty));
    }
    assert(f.params@.subrange(0, f.params@.len() as int) =~= f.params@);
    v
}

/// The minimum page count of the memory.
fn memory_pages(m: &Module) -> (r: u64)
    ensures
        r == spec_pages(*m),
{
    let segs = &m.data_segments;
    let mut max_end: u128 = 0;
    let mut i: usize = 0;
    while i < segs.len()
        invariant
            i <= segs@.len(),
            segs@ == m.data_segments@,
            max_end == spec_max_end(segs@.subrange(0, i as int)),
            max_end <= 0xffff_ffff + usize::MAX,
        decreases segs@.len() - i,
    {
        let e: u128 = segs[i].offset as u128 + segs[i].bytes.len() as u128;
        if e > max_end {
            max_end = e;
        }
        proof {
            let sub = segs@.subrange(0, i + 1);
            assert(sub.drop_last() =~= segs@.subrange(0, i as int));
            assert(sub.last() == segs@[i as int]);
        }
        i = i + 1;
    }
    assert(segs@.subrange(0, segs@.len() as int) =~= segs@);
    if max_end == 0 {
        1
    } else {
        ((max_end + 65535) / 65536) as u64
    }
}

/// `x`, or 2^32 when `x` is larger: enough to tell whether a size fits in 32 bits.
pub open spec fn capped(x: int) -> int {
    if x > 0x1_0000_0000 {
        0x1_0000_0000
    } else {
        x
    }
}

/// The capped sum of two capped sizes.
fn cap_add(a: u64, b: u64) -> (r: u64)
    requires
        a <= 0x1_0000_0000,
        b <= 0x1_0000_0000,
    ensures
        r == capped(a + b),
{
    if a + b > 0x1_0000_0000 {
        0x1_0000_0000
    } else {
        a + b
    }
}

/// `c + k * n`, capped.
fn cap_len(n: usize, k: u64, c: u64) -> (r: u64)
    requires
        1 <= k <= 16,
        c <= 64,
    ensures
        r == capped(c + k * n),
{
    let n64 = n as u64;
    if n64 >= 0x1_0000_0000 {
        assert(c + k * n >= 0x1_0000_0000) by (nonlinear_arith)
            requires
                1 <= k,
                n >= 0x1_0000_0000,
                c >= 0,
        ;
        return 0x1_0000_0000;
    }
    assert(k * n64 <= 16 * 0x1_0000_0000) by (nonlinear_arith)
        requires
            k <= 16,
            n64 < 0x1_0000_0000,
    ;
    let v = c + k * n64;
    if v > 0x1_0000_0000 {
        0x1_0000_0000
    } else {
        v
    }
}

/// Capping a sum of sizes after each step caps the sum.
proof fn lemma_capped_step(p: int, e: int)
    requires
        0 <= p,
        0 <= e,
    ensures
        capped(capped(p) + capped(e)) == capped(p + e),
{
}

/// The type section: the types of the host functions, then of the defined functions; and the
/// capped bound on the size of its entries.
fn build_types(m: &Module, ps: &Vec<(usize, usize)>, hosts: &Vec<HostFunction>) -> (r: (TypeSection, u64))
    requires
        spec_locates_all(*m, ps@),
        spec_encodable(*m),
        hosts@.len() <= 8,
    ensures
        type_entries(r.0) == hosts@.map_values(|h: HostFunction| spec_host_type(h)) + spec_bindings(*m).map_values(
            |f: Function| spec_function_type(f),
        ),
        r.1 == capped(types_payload(type_entries(r.0))),
{
    let mut s = type_section_new();
    let mut b: u64 = 0;
    let mut i: usize = 0;
    while i < hosts.len()
        invariant
            i <= hosts@.len(),
            hosts@.len() <= 8,
            type_entries(s) == hosts@.subrange(0, i as int).map_values(|h: HostFunction| spec_host_type(h)),
            b == capped(types_payload(type_entries(s))),
            types_payload(type_entries(s)) >= 0,
        decreases hosts@.len() - i,
    {
        let h = hosts[i];
        let params = h.params();
        let results = result_types(h.return_type());
        let ghost before = type_entries(s);
        type_section_add(&mut s, params.as_slice(), results.as_slice());
        let e = cap_add(cap_len(params.len(), 1, 16), cap_len(results.len(), 1, 0));
        proof {
            lemma_capped_step(16 + params@.len() as int, results@.len() as int);
            assert(type_entries(s).drop_last() =~= before);
            lemma_capped_step(types_payload(before), type_entry_bound((params@, results@)));
        }
        b = cap_add(b, e);
        i = i + 1;
        assert(type_entries(s) =~= hosts@.subrange(0, i as int).map_values(|h: HostFunction| spec_host_type(h)));
    }
    assert(hosts@.subrange(0, hosts@.len() as int) =~= hosts@);
    let ghost head = type_entries(s);
    let ghost fs = spec_bindings(*m);
    let mut j: usize = 0;
    while j < ps.len()
        invariant
            j <= ps@.len(),
            spec_locates_all(*m, ps@),
            spec_encodable(*m),
            fs == spec_bindings(*m),
            head.len() <= 8,
            type_entries(s) == head + fs.subrange(0, j as int).map_values(|f: Function| spec_function_type(f)),
            b == capped(types_payload(type_entries(s))),
            types_payload(type_entries(s)) >= 0,
        decreases ps@.len() - j,
    {
        assert(spec_locates(*m, ps@[j as int]));
        let f = located(m, ps[j]);
        assert(fs[j as int] == *f);
        let params = param_types(f);
        let results = result_types(f.return_type);
        let ghost before = type_entries(s);
        type_section_add(&mut s, params.as_slice(), results.as_slice());
        let e = cap_add(cap_len(params.len(), 1, 16), cap_len(results.len(), 1, 0));
        proof {
            lemma_capped_step(16 + params@.len() as int, results@.len() as int);
            assert(type_entries(s).drop_last() =~= before);
            lemma_capped_step(types_payload(before), type_entry_bound((params@, results@)));
        }
        b = cap_add(b, e);
        j = j + 1;
        assert(type_entries(s) =~= head + fs.subrange(0, j as int).map_values(|f: Function| spec_function_type(f)));
    }
    assert(fs.subrange(0, fs.len() as int) =~= fs);
    (s, b)
}

/// The import section: the memory first when it is needed, then the host functions, the
/// `i`-th with type index `i`; and the capped bound on the size of its entries.
fn build_imports(hosts: &Vec<HostFunction>, memory: bool, pages: u64) -> (r: (ImportSection, u64))
    requires
        hosts@.len() <= 8,
    ensures
        import_entries(r.0) == (if memory {
            seq![ImportView::Memory(pages)]
        } else {
            Seq::empty()
        }) + hosts@.map(|i: int, h: HostFunction| ImportView::Function(h.spec_module(), h.spec_field(), i as u32)),
        r.1 == capped(imports_payload(import_entries(r.0))),
{
    let mut s = import_section_new();
    let mut b: u64 = 0;
    assert(imports_payload(import_entries(s)) == 0);
    if memory {
        let ghost before = import_entries(s);
        import_memory(&mut s, pages);
        assert(import_entries(s).drop_last() =~= before);
        assert(imports_payload(import_entries(s)) == imports_payload(before) + 32);
        b = 32;
    }
    let ghost head = import_entries(s);
    assert(head =~= if memory {
        seq![ImportView::Memory(pages)]
    } else {
        Seq::empty()
    });
    let mut i: usize = 0;
    while i < hosts.len()
        invariant
            i <= hosts@.len(),
            hosts@.len() <= 8,
            head.len() <= 1,
            import_entries(s) == head + hosts@.subrange(0, i as int).map(
                |k: int, h: HostFunction| ImportView::Function(h.spec_module(), h.spec_field(), k as u32),
            ),
            b == capped(imports_payload(import_entries(s))),
            imports_payload(import_entries(s)) >= 0,
        decreases hosts@.len() - i,
    {
        let h = hosts[i];
        let module = h.module();
        let field = h.field();
        assert(module@.len() <= 12 && field@.len() <= 21) by {
            match h {
                HostFunction::SystemGetGasRemaining => {},
                HostFunction::SystemGetExecutionTime => {},
                HostFunction::SystemAbort => {},
                HostFunction::MemoryDeterministicMalloc => {},
                HostFunction::MemoryDeterministicRealloc => {},
                HostFunction::MemoryUsage => {},
                HostFunction::StdStateRead => {},
                HostFunction::StdStateWrite => {},
            }
        }
        let ghost before = import_entries(s);
        import_function(&mut s, module.as_str(), field.as_str(), i as u32);
        let ml = module.as_str().unicode_len() as u64;
        let fl = field.as_str().unicode_len() as u64;
        let e = 32 + 4 * ml + 4 * fl;
        proof {
            assert(import_entries(s).drop_last() =~= before);
            lemma_capped_step(imports_payload(before), e as int);
        }
        b = cap_add(b, e);
        i = i + 1;
        assert(import_entries(s) =~= head + hosts@.subrange(0, i as int).map(
            |k: int, h: HostFunction| ImportView::Function(h.spec_module(), h.spec_field(), k as u32),
        ));
    }
    assert(hosts@.subrange(0, hosts@.len() as int) =~= hosts@);
    (s, b)
}

/// The function section: the `j`-th defined function has type index `base + j`; and the capped
/// bound on the size of its entries.
fn build_functions(base: u32, n: usize) -> (r: (FunctionSection, u64))
    requires
        base + n < 0xffff_ffff,
    ensures
        function_entries(r.0) == Seq::new(n as nat, |j: int| (base + j) as u32),
        r.1 == capped(5 * n),
{
    let mut s = function_section_new();
    let mut j: usize = 0;
    while j < n
        invariant
            j <= n,
            base + n < 0xffff_ffff,
            function_entries(s) == Seq::new(j as nat, |k: int| (base + k) as u32),
        decreases n - j,
    {
        function_section_add(&mut s, base + j as u32);
        j = j + 1;
        assert(function_entries(s) =~= Seq::new(j as nat, |k: int| (base + k) as u32));
    }
    (s, cap_len(n, 5, 0))
}

} // verus!

verus! {

/// The export names of the function at a position.
fn export_names_at(m: &Module, p: (usize, usize)) -> (r: Vec<String>)
    requires
        spec_locates(*m, p),
    ensures
        r@.len() == spec_export_names_at(*m, p).len(),
        forall|k: int| 0 <= k < r@.len() ==> #[trigger] r@[k]@ == spec_export_names_at(*m, p)[k],
{
    let mut r: Vec<String> = Vec::new();
    if p.0 == 0 {
        let name = &m.functions[p.1].name;
        r.push(copy_string(name));
        let legacy = crate::abi::legacy_entry_export();
        if str_eq(name.as_str(), legacy.as_str()) {
            r.push(crate::abi::entry_export());
        }
    } else {
        let c = &m.contracts[p.0 - 1];
        let f = &c.functions[p.1];
        r.push(crate::abi::selector(c.name.as_str(), f.name.as_str()));
        r.push(crate::abi::contract_export(c.name.as_str(), f.name.as_str()));
    }
    r
}

/// The export section: each defined function under each of its names, the `j`-th with
/// function index `base + j`; and the capped bound on the size of its entries.
fn build_exports(m: &Module, ps: &Vec<(usize, usize)>, base: u32) -> (r: (ExportSection, u64))
    requires
        spec_locates_all(*m, ps@),
        spec_encodable(*m),
        base <= 8,
    ensures
        export_entries(r.0) == spec_export_entries(*m, ps@, base as int, ps@.len() as int),
        r.1 == capped(exports_payload(export_entries(r.0))),
{
    let mut s = export_section_new();
    let mut b: u64 = 0;
    let mut j: usize = 0;
    while j < ps.len()
        invariant
            j <= ps@.len(),
            spec_locates_all(*m, ps@),
            spec_encodable(*m),
            base <= 8,
            export_entries(s) == spec_export_entries(*m, ps@, base as int, j as int),
            export_entries(s).len() <= 2 * j,
            b == capped(exports_payload(export_entries(s))),
            exports_payload(export_entries(s)) >= 0,
        decreases ps@.len() - j,
    {
        let p = ps[j];
        assert(spec_locates(*m, p));
        let names = export_names_at(m, p);
        let ghost before = export_entries(s);
        let ghost sn = spec_export_names_at(*m, p);
        proof {
            if p.0 != 0 {
                assert(m.contracts@[p.0 - 1].functions@[p.1 as int].name@.len() <= 0x1000_0000);
            }
        }
        let mut k: usize = 0;
        while k < names.len()
            invariant
                k <= names@.len(),
                names@.len() == sn.len(),
                sn.len() <= 2,
                forall|q: int| 0 <= q < names@.len() ==> #[trigger] names@[q]@ == sn[q],
                forall|q: int| 0 <= q < sn.len() ==> (#[trigger] sn[q]).len() <= 0x3fff_ffff,
                j < ps@.len(),
                ps@.len() < 0x1000_0000,
                base <= 8,
                before.len() <= 2 * j,
                export_entries(s) == before + sn.subrange(0, k as int).map_values(
                    |name: Seq<char>| (name, (base + j) as u32),
                ),
                b == capped(exports_payload(export_entries(s))),
                exports_payload(export_entries(s)) >= 0,
            decreases names@.len() - k,
        {
            assert(names@[k as int]@ == sn[k as int]);
            let ghost prev = export_entries(s);
            export_function(&mut s, names[k].as_str(), base + j as u32);
            let e = cap_len(names[k].as_str().unicode_len(), 4, 16);
            proof {
                assert(export_entries(s).drop_last() =~= prev);
                lemma_capped_step(exports_payload(prev), export_entry_bound((names@[k as int]@, (base + j) as u32)));
            }
            b = cap_add(b, e);
            k = k + 1;
            assert(export_entries(s) =~= before + sn.subrange(0, k as int).map_values(
                |name: Seq<char>| (name, (base + j) as u32),
            ));
        }
        assert(sn.subrange(0, sn.len() as int) =~= sn);
        j = j + 1;
        assert(export_entries(s) =~= spec_export_entries(*m, ps@, base as int, j as int));
    }
    (s, b)
}

/// The code section: the body of each defined function; and the capped bound on the size of
/// its entries. `None` when a body is too large for its size to fit in 32 bits.
fn build_code(m: &Module, ps: &Vec<(usize, usize)>, hosts: &Vec<HostFunction>) -> (r: Option<(CodeSection, u64)>)
    requires
        spec_locates_all(*m, ps@),
        spec_encodable(*m),
        forall|k: int| 0 <= k < spec_bindings(*m).len() ==> spec_function_known(
            #[trigger] spec_bindings(*m)[k],
            hosts@,
        ),
    ensures
        match r {
            Some((c, b)) => {
                &&& code_entries(c) == spec_bindings(*m).map_values(
                    |f: Function| (spec_function_locals(f), spec_function_ops(f, hosts@)),
                )
                &&& b == capped(code_payload(code_entries(c)))
                &&& forall|q: int| 0 <= q < code_entries(c).len() ==> body_bound(
                    #[trigger] code_entries(c)[q].0,
                    code_entries(c)[q].1,
                ) <= 0xffff_ffff
            },
            None => exists|k: int|
                0 <= k < spec_bindings(*m).len() && body_bound(
                    spec_function_locals(#[trigger] spec_bindings(*m)[k]),
                    spec_function_ops(spec_bindings(*m)[k], hosts@),
                ) > 0xffff_ffff,
        },
{
    let ghost fs = spec_bindings(*m);
    let mut s = code_section_new();
    let mut b: u64 = 0;
    let mut j: usize = 0;
    while j < ps.len()
        invariant
            j <= ps@.len(),
            spec_locates_all(*m, ps@),
            spec_encodable(*m),
            fs == spec_bindings(*m),
            forall|k: int| 0 <= k < fs.len() ==> spec_function_known(#[trigger] fs[k], hosts@),
            code_entries(s) == fs.subrange(0, j as int).map_values(
                |f: Function| (spec_function_locals(f), spec_function_ops(f, hosts@)),
            ),
            b == capped(code_payload(code_entries(s))),
            code_payload(code_entries(s)) >= 0,
            forall|q: int| 0 <= q < code_entries(s).len() ==> body_bound(
                #[trigger] code_entries(s)[q].0,
                code_entries(s)[q].1,
            ) <= 0xffff_ffff,
        decreases ps@.len() - j,
    {
        assert(spec_locates(*m, ps@[j as int]));
        let f = located(m, ps[j]);
        assert(fs[j as int] == *f);
        let locals = function_locals(f);
        let ops = function_ops(f, hosts.as_slice());
        let bb = cap_add(cap_len(locals.len(), 6, 5), cap_len(ops.len(), 16, 0));
        proof {
            lemma_capped_step(5 + 6 * locals@.len() as int, 16 * ops@.len() as int);
        }
        if bb > 0xffff_ffff {
            assert(body_bound(spec_function_locals(fs[j as int]), spec_function_ops(fs[j as int], hosts@))
                > 0xffff_ffff);
            return None;
        }
        let body = encode_function(locals.as_slice(), ops.as_slice());
        let ghost before = code_entries(s);
        code_section_add(&mut s, &body);
        let e = cap_add(bb, 5);
        proof {
            lemma_capped_step(body_bound(locals@, ops@), 5);
            assert(code_entries(s).drop_last() =~= before);
            lemma_capped_step(code_payload(before), 5 + body_bound(locals@, ops@));
        }
        b = cap_add(b, e);
        j = j + 1;
        assert(code_entries(s) =~= fs.subrange(0, j as int).map_values(
            |f: Function| (spec_function_locals(f), spec_function_ops(f, hosts@)),
        ));
    }
    assert(fs.subrange(0, fs.len() as int) =~= fs);
    Some((s, b))
}

/// The data section: each data segment at its offset; and the capped bound on the size of
/// its entries.
fn build_data(m: &Module) -> (r: (DataSection, u64))
    requires
        spec_encodable(*m),
    ensures
        data_entries(r.0) == m.data_segments@.map_values(|d: DataSegment| (d.offset as i32, d.bytes@)),
        r.1 == capped(data_payload(data_entries(r.0))),
{
    let segs = &m.data_segments;
    let mut s = data_section_new();
    let mut b: u64 = 0;
    let mut i: usize = 0;
    while i < segs.len()
        invariant
            i <= segs@.len(),
            segs@ == m.data_segments@,
            spec_encodable(*m),
            data_entries(s) == segs@.subrange(0, i as int).map_values(|d: DataSegment| (d.offset as i32, d.bytes@)),
            b == capped(data_payload(data_entries(s))),
            data_payload(data_entries(s)) >= 0,
        decreases segs@.len() - i,
    {
        assert(segs@[i as int].bytes@.len() <= 0xffff_ffff);
        let ghost before = data_entries(s);
        data_section_active(&mut s, segs[i].offset as i32, segs[i].bytes.as_slice());
        let e = cap_len(segs[i].bytes.len(), 1, 24);
        proof {
            assert(data_entries(s).drop_last() =~= before);
            lemma_capped_step(data_payload(before), 24 + segs@[i as int].bytes@.len() as int);
        }
        b = cap_add(b, e);
        i = i + 1;
        assert(data_entries(s) =~= segs@.subrange(0, i as int).map_values(
            |d: DataSegment| (d.offset as i32, d.bytes@),
        ));
    }
    assert(segs@.subrange(0, segs@.len() as int) =~= segs@);
    (s, b)
}

/// The sections of a module in the order the code generator writes them: types, imports
/// when there are any, functions, exports, code, and data when there is any.
pub open spec fn planned_sections(
    t: SectionView,
    i: SectionView,
    f: SectionView,
    e: SectionView,
    c: SectionView,
    d: SectionView,
    with_imports: bool,
    with_data: bool,
) -> Seq<SectionView> {
    let head = if with_imports {
        seq![t, i]
    } else {
        seq![t]
    };
    let body = head + seq![f, e, c];
    if with_data {
        body.push(d)
    } else {
        body
    }
}

/// Whether every function body of a section fits, when it is a code section.
pub open spec fn bodies_fit(s: SectionView) -> bool {
    s matches SectionView::Code(es) ==> forall|j: int| 0 <= j < es.len() ==> body_bound(#[trigger] es[j].0, es[j].1) <= 0xffff_ffff
}

/// The planned sections fit exactly when each of them fits, with the bodies of the code
/// section.
proof fn lemma_planned_fits(
    t: SectionView,
    i: SectionView,
    f: SectionView,
    e: SectionView,
    c: SectionView,
    d: SectionView,
    with_imports: bool,
    with_data: bool,
)
    requires
        t is Types,
        i is Imports,
        f is Functions,
        e is Exports,
        d is Data,
    ensures
        module_fits(planned_sections(t, i, f, e, c, d, with_imports, with_data)) <==> (section_fits(t) && (
        with_imports ==> section_fits(i)) && section_fits(f) && section_fits(e) && section_fits(c) && bodies_fit(c)
            && (with_data ==> section_fits(d))),
{
    let p = planned_sections(t, i, f, e, c, d, with_imports, with_data);
    let h: int = if with_imports {
        2
    } else {
        1
    };
    assert(p[0] == t);
    if with_imports {
        assert(p[1] == i);
    }
    assert(p[h] == f && p[h + 1] == e && p[h + 2] == c);
    if with_data {
        assert(p[h + 3] == d);
    }
    assert(p.len() == h + 3 + if with_data {
        1int
    } else {
        0
    });
    if section_fits(t) && (with_imports ==> section_fits(i)) && section_fits(f) && section_fits(e) && section_fits(c)
        && bodies_fit(c) && (with_data ==> section_fits(d)) {
        assert forall|k: int| 0 <= k < p.len() implies section_fits(#[trigger] p[k]) && (p[k] matches SectionView::Code(
            es,
        ) ==> forall|j: int| 0 <= j < es.len() ==> body_bound(#[trigger] es[j].0, es[j].1) <= 0xffff_ffff) by {
            if k == h + 2 {
                assert(p[k] == c);
            }
        }
    }
    if module_fits(p) {
        assert(section_fits(p[0]));
        if with_imports {
            assert(section_fits(p[1]));
        }
        assert(section_fits(p[h]) && section_fits(p[h + 1]) && section_fits(p[h + 2]));
        if with_data {
            assert(section_fits(p[h + 3]));
        }
        assert(bodies_fit(c)) by {
            assert(p[h + 2] == c);
        }
    }
}

/// Emits the WebAssembly module of an IR module.
///
/// Every function (free functions first, then each contract's) is defined, typed and
/// exported: a free function under its name, `main` also as the runtime entry
/// `axiom_entry_main`, and a contract method as `<Contract>::<method>` and as its runtime
/// export. The host functions the bodies call are imported from their runtime modules,
/// after the linear memory `env.memory` when the module needs one; data segments are written
/// into that memory. `None` when a section or a function body would be too large for its size
/// to fit in 32 bits.
#[verifier::rlimit(60)]
pub fn emit_wasm(ir_module: &Module) -> (r: Option<Vec<u8>>)
    requires
        spec_encodable(*ir_module),
    ensures
        match r {
            Some(bytes) => module_fits(spec_sections(*ir_module)) && bytes@ == encoded_module(spec_sections(*ir_module)),
            None => !module_fits(spec_sections(*ir_module)),
        },
{
    let m = ir_module;
    let mut wasm = module_new();
    let ps = binding_positions(m);
    if ps.len() == 0 {
        let r = module_finish(wasm);
        assert(spec_sections(*m) =~= Seq::<SectionView>::empty());
        return Some(r);
    }
    let hosts = hosts_of(m, &ps);
    let needs_memory = module_needs_memory(m, &ps);
    let pages = memory_pages(m);
    let base = hosts.len() as u32;
    let (types, bt) = build_types(m, &ps, &hosts);
    let (imports, bi) = build_imports(&hosts, needs_memory, pages);
    let (functions, bf) = build_functions(base, ps.len());
    let (exports, be) = build_exports(m, &ps, base);
    let add_imports = hosts.len() > 0 || needs_memory;
    let add_data = needs_memory && m.data_segments.len() > 0;
    let (data, bd) = build_data(m);
    let ghost fs = spec_bindings(*m);
    proof {
        assert(Seq::new(ps@.len() as nat, |j: int| (base + j) as u32) =~= Seq::new(
            fs.len(),
            |j: int| (hosts@.len() + j) as u32,
        ));
    }
    let code = build_code(m, &ps, &hosts);
    let ghost dv = SectionView::Data(data_entries(data));
    let ghost tv = SectionView::Types(type_entries(types));
    let ghost iv = SectionView::Imports(import_entries(imports));
    let ghost fv = SectionView::Functions(function_entries(functions));
    let ghost ev = SectionView::Exports(export_entries(exports));
    let ghost cv = SectionView::Code(fs.map_values(
        |f: Function| (spec_function_locals(f), spec_function_ops(f, hosts@)),
    ));
    let ghost planned = planned_sections(tv, iv, fv, ev, cv, dv, add_imports, add_data);
    assert(planned =~= spec_sections(*m));
    proof {
        lemma_planned_fits(tv, iv, fv, ev, cv, dv, add_imports, add_data);
    }
    let (code, bc) = match code {
        Some(c) => c,
        None => {
            proof {
                let k = choose|k: int|
                    0 <= k < fs.len() && body_bound(
                        spec_function_locals(#[trigger] fs[k]),
                        spec_function_ops(fs[k], hosts@),
                    ) > 0xffff_ffff;
                let es = fs.map_values(|f: Function| (spec_function_locals(f), spec_function_ops(f, hosts@)));
                assert(cv == SectionView::Code(es));
                assert(es[k].0 == spec_function_locals(fs[k]) && es[k].1 == spec_function_ops(fs[k], hosts@));
                assert(body_bound(es[k].0, es[k].1) > 0xffff_ffff);
            }
            return None;
        },
    };
    if bt > 0xffff_fffa || (add_imports && bi > 0xffff_fffa) || bf > 0xffff_fffa || be > 0xffff_fffa || bc
        > 0xffff_fffa || (add_data && bd > 0xffff_fffa) {
        return None;
    }
    module_add_types(&mut wasm, &types);
    if add_imports {
        module_add_imports(&mut wasm, &imports);
    }
    module_add_functions(&mut wasm, &functions);
    module_add_exports(&mut wasm, &exports);
    module_add_code(&mut wasm, &code);
    if add_data {
        module_add_data(&mut wasm, &data);
    }
    let r = module_finish(wasm);
    assert(module_sections(wasm) =~= planned);
    Some(r)
}

} // verus!

verus! {

/// Whether `wasm_encoder` can write the module: its counts and lengths fit in 32 bits.
pub fn encodable(m: &Module) -> (r: bool)
    ensures
        r == spec_encodable(*m),
{
    if m.contracts.len() >= 0x1000_0000 {
        return false;
    }
    let mut i: usize = 0;
    while i < m.functions.len()
        invariant
            i <= m.functions@.len(),
            forall|k: int| 0 <= k < i ==> (#[trigger] m.functions@[k]).name@.len() <= 0x1000_0000,
        decreases m.functions@.len() - i,
    {
        if m.functions[i].name.as_str().unicode_len() > 0x1000_0000 {
            return false;
        }
        i = i + 1;
    }
    let mut c: usize = 0;
    while c < m.contracts.len()
        invariant
            c <= m.contracts@.len(),
            forall|q: int| 0 <= q < c ==> (#[trigger] m.contracts@[q]).name@.len() <= 0x1000_0000 && forall|k: int|
                0 <= k < m.contracts@[q].functions@.len() ==> (#[trigger] m.contracts@[q].functions@[k]).name@.len()
                    <= 0x1000_0000,
        decreases m.contracts@.len() - c,
    {
        let ct = &m.contracts[c];
        if ct.name.as_str().unicode_len() > 0x1000_0000 {
            assert(m.contracts@[c as int].name@.len() > 0x1000_0000);
            return false;
        }
        let mut k: usize = 0;
        while k < ct.functions.len()
            invariant
                k <= ct.functions@.len(),
                c < m.contracts@.len(),
                *ct == m.contracts@[c as int],
                forall|q: int| 0 <= q < k ==> (#[trigger] ct.functions@[q]).name@.len() <= 0x1000_0000,
            decreases ct.functions@.len() - k,
        {
            if ct.functions[k].name.as_str().unicode_len() > 0x1000_0000 {
                assert(m.contracts@[c as int].functions@[k as int].name@.len() > 0x1000_0000);
                return false;
            }
            k = k + 1;
        }
        c = c + 1;
    }
    let ps = binding_positions(m);
    if ps.len() >= 0x1000_0000 {
        return false;
    }
    let ghost fs = spec_bindings(*m);
    let mut j: usize = 0;
    while j < ps.len()
        invariant
            j <= ps@.len(),
            spec_locates_all(*m, ps@),
            fs == spec_bindings(*m),
            forall|k: int| 0 <= k < j ==> (#[trigger] fs[k]).params@.len() <= 0xffff_ffff
                && spec_function_locals(fs[k]).len() <= 0xffff_ffff,
        decreases ps@.len() - j,
    {
        assert(spec_locates(*m, ps@[j as int]));
        let f = located(m, ps[j]);
        assert(fs[j as int] == *f);
        if f.params.len() > 0xffff_ffff {
            return false;
        }
        let n = match &f.body {
            FunctionBody::Return { .. } => 0,
            FunctionBody::Block { locals, .. } => locals.len(),
        };
        if n > 0xffff_ffff {
            return false;
        }
        j = j + 1;
    }
    if m.data_segments.len() >= 0xffff_ffff {
        return false;
    }
    let mut d: usize = 0;
    while d < m.data_segments.len()
        invariant
            d <= m.data_segments@.len(),
            forall|k: int| 0 <= k < d ==> (#[trigger] m.data_segments@[k]).bytes@.len() <= 0xffff_ffff,
        decreases m.data_segments@.len() - d,
    {
        if m.data_segments[d].bytes.len() > 0xffff_ffff {
            return false;
        }
        d = d + 1;
    }
    true
}

} // verus!

verus! {

/// The export entries of the emitted module.
pub open spec fn spec_module_exports(m: Module) -> Seq<(Seq<char>, u32)> {
    spec_export_entries(m, spec_positions(m), spec_used_hosts(m).len() as int, spec_bindings(m).len() as int)
}

proof fn lemma_contract_positions_len(cs: Seq<Contract>, n: int)
    requires
        0 <= n <= cs.len(),
    ensures
        spec_contract_positions(cs, n).len() == spec_contract_functions(cs.subrange(0, n)).len(),
    decreases n,
{
    if n > 0 {
        lemma_contract_positions_len(cs, n - 1);
        lemma_contract_functions_step(cs, n - 1);
    } else {
        assert(cs.subrange(0, 0) =~= Seq::<Contract>::empty());
    }
}

proof fn lemma_positions_len(m: Module)
    ensures
        spec_positions(m).len() == spec_bindings(m).len(),
{
    lemma_contract_positions_len(m.contracts@, m.contracts@.len() as int);
    assert(m.contracts@.subrange(0, m.contracts@.len() as int) =~= m.contracts@);
}

proof fn lemma_contract_positions_has(cs: Seq<Contract>, n: int, c: int, k: int)
    requires
        0 <= c < n <= cs.len(),
        n < usize::MAX,
        0 <= k < cs[c].functions@.len(),
    ensures
        exists|i: int| 0 <= i < spec_contract_positions(cs, n).len() && #[trigger] spec_contract_positions(cs, n)[i] == (
        (c + 1) as usize, k as usize),
    decreases n,
{
    let prev = spec_contract_positions(cs, n - 1);
    let here = Seq::new(cs[n - 1].functions@.len(), |j: int| (n as usize, j as usize));
    assert(spec_contract_positions(cs, n) == prev + here);
    if c < n - 1 {
        lemma_contract_positions_has(cs, n - 1, c, k);
        let i = choose|i: int| 0 <= i < prev.len() && #[trigger] prev[i] == ((c + 1) as usize, k as usize);
        assert((prev + here)[i] == prev[i]);
    } else {
        assert((prev + here)[prev.len() + k] == here[k]);
    }
}

proof fn lemma_export_entries_has(m: Module, ps: Seq<(usize, usize)>, base: int, n: int, i: int, q: int)
    requires
        0 <= i < n <= ps.len(),
        0 <= q < spec_export_names_at(m, ps[i]).len(),
    ensures
        spec_export_entries(m, ps, base, n).contains((spec_export_names_at(m, ps[i])[q], (base + i) as u32)),
    decreases n,
{
    let prev = spec_export_entries(m, ps, base, n - 1);
    let names = spec_export_names_at(m, ps[n - 1]);
    let here = names.map_values(|name: Seq<char>| (name, (base + n - 1) as u32));
    assert(spec_export_entries(m, ps, base, n) == prev + here);
    if i < n - 1 {
        lemma_export_entries_has(m, ps, base, n - 1, i, q);
        let k = choose|k: int| 0 <= k < prev.len() && prev[k] == (spec_export_names_at(m, ps[i])[q], (base + i) as u32);
        assert((prev + here)[k] == prev[k]);
    } else {
        assert((prev + here)[prev.len() + q] == here[q]);
    }
}

proof fn lemma_exports_section(m: Module)
    requires
        spec_bindings(m).len() > 0,
    ensures
        spec_sections(m).contains(SectionView::Exports(spec_module_exports(m))),
{
    let s = spec_sections(m);
    let hosts = spec_used_hosts(m);
    let mem = spec_module_needs_memory(m);
    let k: int = if hosts.len() > 0 || mem { 3 } else { 2 };
    assert(s[k] == SectionView::Exports(spec_module_exports(m)));
}

proof fn lemma_contract_functions_len(cs: Seq<Contract>, c: int)
    requires
        0 <= c < cs.len(),
    ensures
        cs[c].functions@.len() <= spec_contract_functions(cs).len(),
    decreases cs.len(),
{
    if c < cs.len() - 1 {
        lemma_contract_functions_len(cs.drop_last(), c);
    }
}

/// Every contract method is exported both as `<Contract>::<method>` and under its runtime
/// name `axiom_contract::<Contract>::<method>`, the two names under one function index.
pub proof fn law_contract_method_exports(m: Module, c: int, k: int)
    requires
        spec_encodable(m),
        0 <= c < m.contracts@.len(),
        0 <= k < m.contracts@[c].functions@.len(),
    ensures
        spec_sections(m).contains(SectionView::Exports(spec_module_exports(m))),
        exists|idx: u32|
            #[trigger] spec_module_exports(m).contains(
                (crate::abi::spec_selector(m.contracts@[c].name@, m.contracts@[c].functions@[k].name@), idx),
            ) && spec_module_exports(m).contains(
                (crate::abi::spec_contract_export(m.contracts@[c].name@, m.contracts@[c].functions@[k].name@), idx),
            ),
{
    let cs = m.contracts@;
    lemma_contract_positions_has(cs, cs.len() as int, c, k);
    let cp = spec_contract_positions(cs, cs.len() as int);
    assert(exists|i: int| 0 <= i < cp.len() && #[trigger] cp[i] == ((c + 1) as usize, k as usize));
    let i = choose|i: int| 0 <= i < cp.len() && #[trigger] cp[i] == ((c + 1) as usize, k as usize);
    assert(cp[i] == ((c + 1) as usize, k as usize));
    assert((c + 1) as usize == c + 1);
    lemma_contract_functions_len(cs, c);
    assert(k as usize == k);
    let free = Seq::new(m.functions@.len(), |j: int| (0usize, j as usize));
    let ps = spec_positions(m);
    let pi = free.len() + i;
    assert(ps[pi] == cp[i]);
    lemma_positions_len(m);
    assert(spec_bindings(m).len() > 0);
    lemma_exports_section(m);
    let base = spec_used_hosts(m).len() as int;
    let n = spec_bindings(m).len() as int;
    assert(ps.len() == free.len() + cp.len());
    let p = ps[pi];
    assert(p.0 == c + 1 && p.1 == k);
    let names = spec_export_names_at(m, p);
    assert(names == seq![
        crate::abi::spec_selector(cs[c].name@, cs[c].functions@[k].name@),
        crate::abi::spec_contract_export(cs[c].name@, cs[c].functions@[k].name@),
    ]);
    lemma_export_entries_has(m, ps, base, n, pi, 0);
    lemma_export_entries_has(m, ps, base, n, pi, 1);
    let idx = (base + pi) as u32;
    assert(spec_module_exports(m).contains((names[0], idx)));
    assert(spec_module_exports(m).contains((names[1], idx)));
}

/// A free function named `main` is exported both as `main` and as the runtime entry
/// `axiom_entry_main`, the two names under one function index; every free function is
/// exported under its own name.
pub proof fn law_free_function_exports(m: Module, j: int)
    requires
        spec_encodable(m),
        0 <= j < m.functions@.len(),
    ensures
        spec_sections(m).contains(SectionView::Exports(spec_module_exports(m))),
        exists|idx: u32|
            #[trigger] spec_module_exports(m).contains((m.functions@[j].name@, idx)) && (m.functions@[j].name@
                == crate::abi::spec_legacy_entry_export() ==> spec_module_exports(m).contains(
                (crate::abi::spec_entry_export(), idx),
            )),
{
    let ps = spec_positions(m);
    lemma_positions_len(m);
    assert(ps[j] == (0usize, j as usize));
    lemma_exports_section(m);
    let base = spec_used_hosts(m).len() as int;
    let n = spec_bindings(m).len() as int;
    lemma_export_entries_has(m, ps, base, n, j, 0);
    if m.functions@[j].name@ == crate::abi::spec_legacy_entry_export() {
        lemma_export_entries_has(m, ps, base, n, j, 1);
    }
}

/// A call of a host function targets its import: the index a call carries is the position of
/// that host function among the imported ones.
pub proof fn law_host_call_targets_import(hosts: Seq<HostFunction>, h: HostFunction)
    requires
        hosts.contains(h),
    ensures
        0 <= spec_host_index(hosts, h) < hosts.len(),
        hosts[spec_host_index(hosts, h)] == h,
    decreases hosts.len(),
{
    if !(hosts.last() == h && !hosts.drop_last().contains(h)) {
        assert(hosts.drop_last().contains(h)) by {
            let k = choose|k: int| 0 <= k < hosts.len() && hosts[k] == h;
            if k == hosts.len() - 1 {
                assert(hosts.last() == h);
            } else {
                assert(hosts.drop_last()[k] == h);
            }
        }
        law_host_call_targets_import(hosts.drop_last(), h);
    }
}

} // verus!
