//! Lowering of a program to the operations that the code generator emits,
//! in the order it emits them.

use vstd::prelude::*;
use crate::ast::{chain_cells, flatten, AnyExpression, LeachExpression, OrganismExpression, Passive};
use crate::machine::FRESH_TTL;
use crate::parser::{expr_wf, leach_wf};
use crate::runtime::{
    call_effect, call_output, cursor_after, expressions_of, failed_config, fvr_fail_msg,
    fvr_ok, leach_regions, leach_target, lemma_chain_cells, par_msg, par_ok, primitive_store_value,
    region_code, region_codes, regions_spec, step_spec, store_value, bytes_of,
    Config, Status,
};
use crate::errors::{
    cell_region_runtime_msg, death_leach_runtime_msg, gate_region_runtime_msg,
    primitive_access_runtime_msg,
};
use crate::machine::{dgr, kill_args, sur, sur_times, MachineView};

verus! {

/// One step of the generated `main`. Each check branches to the failing end
/// of `main` when it refuses; the message it prints is given with it.
#[derive(Debug, PartialEq)]
pub enum Op {
    /// Store a region code into the region register.
    SetRegion(u8),
    /// Call the state update routine; `true` also reduces the gates' time.
    StateUpdate(bool),
    /// Call the drill gate routine.
    DrillGate,
    /// Call the cell access routine, printing the cell message on refusal.
    CheckCellAccess,
    /// Call the primitive access routine (which prints its own message).
    CheckPrimitiveAccess,
    /// As `CheckPrimitiveAccess`, then print the store message on refusal.
    CheckPrimitiveAccessForStore,
    /// Call the expression life routine on a cell, printing the death message on refusal.
    CheckExpressionLife(u8),
    /// Call the function validation routine on a cell. On refusal the
    /// non-function message is printed: twice when the cell is alive but holds
    /// no function (once by the routine, once here), once when it is dead.
    CheckFunction(u8),
    /// Store a constant into a cell.
    StoreCell(u8, i32),
    /// Copy the first cell into the second.
    CopyCell(u8, u8),
    /// Store a time to live for a cell.
    SetTtl(u8, u8),
    /// Switch on the function index in the first cell and run it on the arguments.
    Call(u8, Vec<u8>),
    /// The block of a user label begins here.
    Label(String),
    /// Branch to a user label.
    Branch(String),
    /// Remember whether cell 0 holds zero.
    TestCellZero,
    /// Branch to a user label when the remembered test held.
    BranchIfZero(String),
}

/// An operation as values.
pub enum OpView {
    SetRegion(u8),
    StateUpdate(bool),
    DrillGate,
    CheckCellAccess,
    CheckPrimitiveAccess,
    CheckPrimitiveAccessForStore,
    CheckExpressionLife(u8),
    CheckFunction(u8),
    StoreCell(u8, i32),
    CopyCell(u8, u8),
    SetTtl(u8, u8),
    Call(u8, Seq<u8>),
    Label(Seq<char>),
    Branch(Seq<char>),
    TestCellZero,
    BranchIfZero(Seq<char>),
}

impl View for Op {
    type V = OpView;

    open spec fn view(&self) -> OpView {
        match self {
            Op::SetRegion(r) => OpView::SetRegion(*r),
            Op::StateUpdate(b) => OpView::StateUpdate(*b),
            Op::DrillGate => OpView::DrillGate,
            Op::CheckCellAccess => OpView::CheckCellAccess,
            Op::CheckPrimitiveAccess => OpView::CheckPrimitiveAccess,
            Op::CheckPrimitiveAccessForStore => OpView::CheckPrimitiveAccessForStore,
            Op::CheckExpressionLife(c) => OpView::CheckExpressionLife(*c),
            Op::CheckFunction(c) => OpView::CheckFunction(*c),
            Op::StoreCell(c, v) => OpView::StoreCell(*c, *v),
            Op::CopyCell(a, b) => OpView::CopyCell(*a, *b),
            Op::SetTtl(c, t) => OpView::SetTtl(*c, *t),
            Op::Call(f, args) => OpView::Call(*f, args@),
            Op::Label(n) => OpView::Label(n@),
            Op::Branch(n) => OpView::Branch(n@),
            Op::TestCellZero => OpView::TestCellZero,
            Op::BranchIfZero(n) => OpView::BranchIfZero(n@),
        }
    }
}

pub open spec fn ops_view(ops: Seq<Op>) -> Seq<OpView> {
    ops.map_values(|o: Op| o@)
}

/// Each region change of a primitive store: the register, then a tick.
pub open spec fn lower_regions(rs: Seq<u8>) -> Seq<OpView>
    decreases rs.len(),
{
    if rs.len() == 0 {
        seq![]
    } else {
        lower_regions(rs.drop_last()) + seq![OpView::SetRegion(rs.last()), OpView::StateUpdate(true)]
    }
}

/// After a call: one tick per argument, every argument but the last dies,
/// the function dies, the last argument gets a fresh time.
pub open spec fn lower_post_exec(f: u8, args: Seq<u8>) -> Seq<OpView> {
    Seq::new(args.len(), |i: int| OpView::StateUpdate(true)) + Seq::new(
        (args.len() - 1) as nat,
        |i: int| OpView::SetTtl(args[i], 0),
    ) + seq![OpView::SetTtl(f, 0), OpView::SetTtl(args[args.len() - 1], FRESH_TTL)]
}

pub open spec fn lower_leach(l: LeachExpression) -> Seq<OpView> {
    match l.left {
        Passive::Primitive(p) => seq![OpView::CheckPrimitiveAccessForStore] + lower_regions(
            region_codes(leach_regions(l)),
        ) + seq![
            OpView::CheckCellAccess,
            OpView::StoreCell(leach_target(l), store_value(p.pval)),
            OpView::StateUpdate(true),
            OpView::SetTtl(leach_target(l), FRESH_TTL),
        ],
        Passive::Cell(a) => if l.is_chain {
            let args = chain_cells(*l.right->Some_0);
            seq![OpView::CheckFunction(a.ident), OpView::Call(a.ident, args)] + lower_post_exec(
                a.ident,
                args,
            )
        } else {
            let b = leach_target(l);
            seq![
                OpView::CheckExpressionLife(a.ident),
                OpView::CopyCell(a.ident, b),
                OpView::StateUpdate(true),
                OpView::SetTtl(b, FRESH_TTL),
                OpView::SetTtl(a.ident, 0),
            ]
        },
    }
}

/// The operations of one expression.
pub open spec fn lower_expr(e: AnyExpression) -> Seq<OpView> {
    match e {
        AnyExpression::Cell(_) => seq![OpView::CheckCellAccess],
        AnyExpression::Primitive(_) => seq![OpView::CheckPrimitiveAccess],
        AnyExpression::Region(r) => seq![OpView::SetRegion(region_code(r.to)), OpView::StateUpdate(true)],
        AnyExpression::Drill(_) => seq![OpView::DrillGate, OpView::StateUpdate(false)],
        AnyExpression::Label(l) => seq![OpView::Label(l.label@)],
        AnyExpression::Jump(j) => if j.conditional {
            seq![OpView::TestCellZero, OpView::StateUpdate(true), OpView::BranchIfZero(j.to@)]
        } else {
            seq![OpView::StateUpdate(true), OpView::Branch(j.to@)]
        },
        AnyExpression::Leach(l) => lower_leach(l),
        AnyExpression::Dummy(_) => seq![],
    }
}

/// The operations of the expressions from the first up to `k`, in order.
pub open spec fn lower_all(es: Seq<AnyExpression>, k: nat) -> Seq<OpView>
    decreases k,
{
    if k == 0 {
        seq![]
    } else {
        lower_all(es, (k - 1) as nat) + lower_expr(es[k - 1])
    }
}

fn copy_name(s: &String) -> (r: String)
    ensures
        r@ == s@,
{
    s.clone()
}

fn copy_cells(v: &Vec<u8>) -> (r: Vec<u8>)
    ensures
        r@ == v@,
{
    let mut r: Vec<u8> = Vec::new();
    let mut k: usize = 0;
    while k < v.len()
        invariant
            k <= v.len(),
            r@ == v@.subrange(0, k as int),
        decreases v.len() - k,
    {
        r.push(v[k]);
        assert(r@ =~= v@.subrange(0, k + 1));
        k = k + 1;
    }
    assert(r@ =~= v@);
    r
}

fn push_op(ops: &mut Vec<Op>, op: Op)
    ensures
        ops_view(final(ops)@) == ops_view(old(ops)@).push(op@),
{
    ops.push(op);
    assert(ops_view(ops@) =~= ops_view(old(ops)@).push(op@));
}

/// Appends the operations of one expression.
pub fn lower_expression(e: &AnyExpression, ops: &mut Vec<Op>)
    requires
        expr_wf(*e),
    ensures
        ops_view(final(ops)@) == ops_view(old(ops)@) + lower_expr(*e),
{
    let ghost start = ops_view(ops@);
    match e {
        AnyExpression::Cell(_) => push_op(ops, Op::CheckCellAccess),
        AnyExpression::Primitive(_) => push_op(ops, Op::CheckPrimitiveAccess),
        AnyExpression::Region(r) => {
            let code: u8 = match r.to {
                crate::ast::Region::Cells => 0,
                crate::ast::Region::Layers => 1,
            };
            push_op(ops, Op::SetRegion(code));
            push_op(ops, Op::StateUpdate(true));
        },
        AnyExpression::Drill(_) => {
            push_op(ops, Op::DrillGate);
            push_op(ops, Op::StateUpdate(false));
        },
        AnyExpression::Label(l) => push_op(ops, Op::Label(copy_name(&l.label))),
        AnyExpression::Jump(j) => {
            if j.conditional {
                push_op(ops, Op::TestCellZero);
                push_op(ops, Op::StateUpdate(true));
                push_op(ops, Op::BranchIfZero(copy_name(&j.to)));
            } else {
                push_op(ops, Op::StateUpdate(true));
                push_op(ops, Op::Branch(copy_name(&j.to)));
            }
        },
        AnyExpression::Leach(l) => lower_leach_expression(l, ops),
        AnyExpression::Dummy(_) => {},
    }
    assert(ops_view(ops@) =~= start + lower_expr(*e));
}

fn lower_leach_expression(l: &LeachExpression, ops: &mut Vec<Op>)
    requires
        l.right is Some,
        leach_wf(*l),
    ensures
        ops_view(final(ops)@) == ops_view(old(ops)@) + lower_leach(*l),
{
    let ghost start = ops_view(ops@);
    let target: u8 = match &l.right {
        Some(r) => {
            assert(leach_wf(**r));
            match &r.left {
                Passive::Cell(c) => c.ident,
                Passive::Primitive(_) => 0,
            }
        },
        None => 0,
    };
    match &l.left {
        Passive::Primitive(p) => {
            push_op(ops, Op::CheckPrimitiveAccessForStore);
            let ghost codes = region_codes(leach_regions(*l));
            let ghost before = ops_view(ops@);
            let empty: Vec<crate::ast::RegionExpression> = Vec::new();
            let regions = match &l.region_change {
                Some(v) => v,
                None => &empty,
            };
            let mut k: usize = 0;
            while k < regions.len()
                invariant
                    k <= regions.len(),
                    regions@ == leach_regions(*l),
                    codes == region_codes(leach_regions(*l)),
                    ops_view(ops@) == before + lower_regions(codes.subrange(0, k as int)),
                decreases regions.len() - k,
            {
                let code: u8 = match regions[k].to {
                    crate::ast::Region::Cells => 0,
                    crate::ast::Region::Layers => 1,
                };
                push_op(ops, Op::SetRegion(code));
                push_op(ops, Op::StateUpdate(true));
                assert(codes.subrange(0, k + 1).drop_last() =~= codes.subrange(0, k as int));
                k = k + 1;
            }
            assert(codes.subrange(0, regions.len() as int) =~= codes);
            push_op(ops, Op::CheckCellAccess);
            push_op(ops, Op::StoreCell(target, primitive_store_value(p.pval)));
            push_op(ops, Op::StateUpdate(true));
            push_op(ops, Op::SetTtl(target, FRESH_TTL));
        },
        Passive::Cell(a) => {
            if l.is_chain {
                let mut args: Vec<u8> = Vec::new();
                match &l.right {
                    Some(r) => {
                        proof { lemma_chain_cells(**r); }
                        crate::runtime::collect_chain(r, &mut args);
                        assert(args@ =~= chain_cells(**r));
                    },
                    None => {},
                }
                push_op(ops, Op::CheckFunction(a.ident));
                let n = args.len();
                let last = args[n - 1];
                let ghost argv = args@;
                push_op(ops, Op::Call(a.ident, copy_cells(&args)));
                let ghost base = ops_view(ops@);
                let mut k: usize = 0;
                while k < n
                    invariant
                        k <= n,
                        ops_view(ops@) == base + Seq::new(k as nat, |i: int| OpView::StateUpdate(true)),
                    decreases n - k,
                {
                    push_op(ops, Op::StateUpdate(true));
                    assert(Seq::new((k + 1) as nat, |i: int| OpView::StateUpdate(true)) =~= Seq::new(
                        k as nat,
                        |i: int| OpView::StateUpdate(true),
                    ).push(OpView::StateUpdate(true)));
                    k = k + 1;
                }
                let ghost ticks = ops_view(ops@);
                let mut k: usize = 0;
                while k < n - 1
                    invariant
                        k <= n - 1,
                        n == argv.len(),
                        argv == args@,
                        ops_view(ops@) == ticks + Seq::new(k as nat, |i: int| OpView::SetTtl(argv[i], 0)),
                        argv.len() >= 1,
                    decreases n - 1 - k,
                {
                    push_op(ops, Op::SetTtl(args[k], 0));
                    assert(Seq::new((k + 1) as nat, |i: int| OpView::SetTtl(argv[i], 0)) =~= Seq::new(
                        k as nat,
                        |i: int| OpView::SetTtl(argv[i], 0),
                    ).push(OpView::SetTtl(argv[k as int], 0)));
                    k = k + 1;
                }
                push_op(ops, Op::SetTtl(a.ident, 0));
                push_op(ops, Op::SetTtl(last, FRESH_TTL));
            } else {
                push_op(ops, Op::CheckExpressionLife(a.ident));
                push_op(ops, Op::CopyCell(a.ident, target));
                push_op(ops, Op::StateUpdate(true));
                push_op(ops, Op::SetTtl(target, FRESH_TTL));
                push_op(ops, Op::SetTtl(a.ident, 0));
            }
        },
    }
    assert(ops_view(ops@) =~= start + lower_leach(*l));
}

/// The operations of a whole program, expression after expression. The code
/// generator emits them into `main` in this order, and ends `main` in success.
pub fn lower(program: OrganismExpression) -> (r: Vec<Op>)
    requires
        forall|e: AnyExpression| #[trigger] flatten(program).contains(e) ==> expr_wf(e),
    ensures
        ops_view(r@) == lower_all(flatten(program), flatten(program).len()),
{
    let ghost prog = flatten(program);
    let mut exprs: Vec<AnyExpression> = Vec::new();
    expressions_of(program, &mut exprs);
    assert(exprs@ =~= prog);
    let mut ops: Vec<Op> = Vec::new();
    assert(ops_view(ops@) =~= seq![]);
    let mut k: usize = 0;
    while k < exprs.len()
        invariant
            k <= exprs.len(),
            exprs@ == prog,
            forall|e: AnyExpression| #[trigger] prog.contains(e) ==> expr_wf(e),
            ops_view(ops@) == lower_all(prog, k as nat),
        decreases exprs.len() - k,
    {
        assert(prog.contains(prog[k as int]));
        lower_expression(&exprs[k], &mut ops);
        k = k + 1;
    }
    ops
}

/// What an operation other than a jump or label does to a run: checks that
/// refuse print their messages and stop the run.
pub open spec fn op_step(op: OpView, c: Config, input: Seq<u8>) -> Config {
    let m = c.m;
    match op {
        OpView::SetRegion(r) => Config { m: MachineView { region: r, ..m }, ..c },
        OpView::StateUpdate(b) => Config { m: sur(m, b), ..c },
        OpView::DrillGate => if m.region == 1 {
            Config { m: dgr(m), ..c }
        } else {
            failed_config(c, bytes_of(gate_region_runtime_msg()))
        },
        OpView::CheckCellAccess => if m.region == 0 {
            c
        } else {
            failed_config(c, bytes_of(cell_region_runtime_msg()))
        },
        OpView::CheckPrimitiveAccess => if par_ok(m) {
            c
        } else {
            failed_config(c, bytes_of(par_msg(m)))
        },
        OpView::CheckPrimitiveAccessForStore => if par_ok(m) {
            c
        } else {
            failed_config(c, bytes_of(par_msg(m)) + bytes_of(primitive_access_runtime_msg()))
        },
        OpView::CheckExpressionLife(a) => if m.ttl[a as int] != 0 {
            c
        } else {
            failed_config(c, bytes_of(death_leach_runtime_msg()))
        },
        OpView::CheckFunction(f) => if fvr_ok(m, f) {
            c
        } else {
            failed_config(c, bytes_of(fvr_fail_msg(m, f)))
        },
        OpView::StoreCell(x, v) => Config { m: MachineView { cells: m.cells.update(x as int, v), ..m }, ..c },
        OpView::CopyCell(a, b) => Config { m: MachineView { cells: m.cells.update(b as int, m.cells[a as int]), ..m }, ..c },
        OpView::SetTtl(x, t) => Config { m: MachineView { ttl: m.ttl.update(x as int, t), ..m }, ..c },
        OpView::Call(f, args) => Config {
            m: call_effect(m, f, args, input, c.cursor),
            out: c.out + call_output(m, f, args),
            cursor: cursor_after(m.cells[f as int], input, c.cursor),
            ..c
        },
        _ => c,
    }
}

/// Operations run one after the other until a check refuses.
pub open spec fn run_ops(ops: Seq<OpView>, c: Config, input: Seq<u8>) -> Config
    decreases ops.len(),
{
    if ops.len() == 0 {
        c
    } else {
        let c1 = run_ops(ops.drop_last(), c, input);
        if c1.status != Status::Running {
            c1
        } else {
            op_step(ops.last(), c1, input)
        }
    }
}

proof fn lemma_run_ops_stopped(ops: Seq<OpView>, c: Config, input: Seq<u8>)
    requires
        c.status != Status::Running,
    ensures
        run_ops(ops, c, input) == c,
    decreases ops.len(),
{
    if ops.len() > 0 {
        lemma_run_ops_stopped(ops.drop_last(), c, input);
    }
}

proof fn lemma_run_ops_concat(a: Seq<OpView>, b: Seq<OpView>, c: Config, input: Seq<u8>)
    ensures
        run_ops(a + b, c, input) == run_ops(b, run_ops(a, c, input), input),
    decreases b.len(),
{
    if b.len() == 0 {
        assert(a + b =~= a);
    } else {
        assert((a + b).drop_last() =~= a + b.drop_last());
        assert((a + b).last() == b.last());
        lemma_run_ops_concat(a, b.drop_last(), c, input);
    }
}

proof fn lemma_run_regions(rs: Seq<u8>, c: Config, input: Seq<u8>)
    requires
        c.status == Status::Running,
    ensures
        run_ops(lower_regions(rs), c, input) == (Config { m: regions_spec(c.m, rs), ..c }),
    decreases rs.len(),
{
    if rs.len() > 0 {
        lemma_run_regions(rs.drop_last(), c, input);
        let a = lower_regions(rs.drop_last());
        let b = seq![OpView::SetRegion(rs.last()), OpView::StateUpdate(true)];
        lemma_run_ops_concat(a, b, c, input);
        reveal_with_fuel(run_ops, 3);
        assert(b.drop_last() =~= seq![OpView::SetRegion(rs.last())]);
        assert(b.drop_last().drop_last() =~= Seq::<OpView>::empty());
    } else {
        assert(regions_spec(c.m, rs) == c.m);
    }
}

proof fn lemma_run_ticks(k: nat, c: Config, input: Seq<u8>)
    requires
        c.status == Status::Running,
    ensures
        run_ops(Seq::new(k, |i: int| OpView::StateUpdate(true)), c, input) == (Config { m: sur_times(c.m, k), ..c }),
    decreases k,
{
    if k > 0 {
        assert(Seq::new(k, |i: int| OpView::StateUpdate(true)).drop_last() =~= Seq::new((k - 1) as nat, |i: int| OpView::StateUpdate(true)));
        lemma_run_ticks((k - 1) as nat, c, input);
    }
}

proof fn lemma_run_kills(args: Seq<u8>, k: nat, c: Config, input: Seq<u8>)
    requires
        c.status == Status::Running,
        k <= args.len(),
    ensures
        run_ops(Seq::new(k, |i: int| OpView::SetTtl(args[i], 0)), c, input) == (Config {
            m: MachineView { ttl: kill_args(c.m.ttl, args, k), ..c.m },
            ..c
        }),
    decreases k,
{
    if k > 0 {
        assert(Seq::new(k, |i: int| OpView::SetTtl(args[i], 0)).drop_last() =~= Seq::new((k - 1) as nat, |i: int| OpView::SetTtl(args[i], 0)));
        lemma_run_kills(args, (k - 1) as nat, c, input);
    } else {
        assert(Config { m: MachineView { ttl: kill_args(c.m.ttl, args, 0), ..c.m }, ..c } == c);
    }
}

/// The fields of a run that the operations decide.
pub open spec fn same_run(a: Config, b: Config) -> bool {
    a.m == b.m && a.out == b.out && a.cursor == b.cursor && a.status == b.status
}

#[verifier::rlimit(60)]
proof fn lemma_call_matches(l: LeachExpression, a: crate::ast::CellExpression, c: Config, input: Seq<u8>)
    requires
        l.left == Passive::Cell(a),
        l.is_chain,
        l.right is Some,
        leach_wf(l),
        c.status == Status::Running,
    ensures
        same_run(run_ops(lower_leach(l), c, input), crate::runtime::leach_step(l, c, input)),
{
    let r = *l.right->Some_0;
    let args = chain_cells(r);
    lemma_chain_cells(r);
    let head = seq![OpView::CheckFunction(a.ident), OpView::Call(a.ident, args)];
    let ticks = Seq::new(args.len(), |i: int| OpView::StateUpdate(true));
    let kills = Seq::new((args.len() - 1) as nat, |i: int| OpView::SetTtl(args[i], 0));
    let tail = seq![OpView::SetTtl(a.ident, 0), OpView::SetTtl(args[args.len() - 1], FRESH_TTL)];
    assert(lower_leach(l) =~= head + ticks + kills + tail);
    lemma_run_ops_concat(head + ticks + kills, tail, c, input);
    lemma_run_ops_concat(head + ticks, kills, c, input);
    lemma_run_ops_concat(head, ticks, c, input);
    reveal_with_fuel(run_ops, 3);
    assert(head.drop_last() =~= seq![OpView::CheckFunction(a.ident)]);
    assert(head.drop_last().drop_last() =~= Seq::<OpView>::empty());
    let c1 = run_ops(head, c, input);
    if fvr_ok(c.m, a.ident) {
        lemma_run_ticks(args.len(), c1, input);
        let c2 = run_ops(ticks, c1, input);
        lemma_run_kills(args, (args.len() - 1) as nat, c2, input);
        assert(tail.drop_last() =~= seq![OpView::SetTtl(a.ident, 0)]);
        assert(tail.drop_last().drop_last() =~= Seq::<OpView>::empty());
    } else {
        lemma_run_ops_stopped(ticks, c1, input);
        lemma_run_ops_stopped(kills, c1, input);
        lemma_run_ops_stopped(tail, c1, input);
    }
}

#[verifier::rlimit(60)]
proof fn lemma_copy_matches(l: LeachExpression, a: crate::ast::CellExpression, c: Config, input: Seq<u8>)
    requires
        l.left == Passive::Cell(a),
        !l.is_chain,
        c.status == Status::Running,
    ensures
        same_run(run_ops(lower_leach(l), c, input), crate::runtime::leach_step(l, c, input)),
{
    let b = leach_target(l);
    let p1 = seq![OpView::CheckExpressionLife(a.ident)];
    let p2 = seq![OpView::CopyCell(a.ident, b), OpView::StateUpdate(true), OpView::SetTtl(b, FRESH_TTL), OpView::SetTtl(a.ident, 0)];
    assert(lower_leach(l) =~= p1 + p2);
    lemma_run_ops_concat(p1, p2, c, input);
    reveal_with_fuel(run_ops, 5);
    assert(p1.drop_last() =~= Seq::<OpView>::empty());
    let c1 = run_ops(p1, c, input);
    if c.m.ttl[a.ident as int] == 0 {
        lemma_run_ops_stopped(p2, c1, input);
    } else {
        assert(p2.drop_last() =~= seq![OpView::CopyCell(a.ident, b), OpView::StateUpdate(true), OpView::SetTtl(b, FRESH_TTL)]);
        assert(p2.drop_last().drop_last() =~= seq![OpView::CopyCell(a.ident, b), OpView::StateUpdate(true)]);
        assert(p2.drop_last().drop_last().drop_last() =~= seq![OpView::CopyCell(a.ident, b)]);
        assert(p2.drop_last().drop_last().drop_last().drop_last() =~= Seq::<OpView>::empty());
    }
}

/// Running the operations that an expression lowers to does to the machine,
/// the output and the input what running the expression does. This is
/// stated for lone cells and primitives, region changes, drills, cell
/// copies and calls; labels and jumps only move control, and primitive
/// stores are not covered here.
pub proof fn lemma_lower_matches_step(es: Seq<AnyExpression>, c: Config, input: Seq<u8>)
    requires
        c.pc < es.len(),
        c.status == Status::Running,
        expr_wf(es[c.pc as int]),
        !(es[c.pc as int] is Label),
        !(es[c.pc as int] is Jump),
        !(es[c.pc as int] is Leach && es[c.pc as int]->Leach_0.left is Primitive),
    ensures
        same_run(run_ops(lower_expr(es[c.pc as int]), c, input), step_spec(es, c, input)),
{
    let e = es[c.pc as int];
    match e {
        AnyExpression::Leach(l) => {
            match l.left {
                Passive::Primitive(_) => {},
                Passive::Cell(a) => if l.is_chain {
                    lemma_call_matches(l, a, c, input);
                } else {
                    lemma_copy_matches(l, a, c, input);
                },
            }
        },
        AnyExpression::Region(rg) => {
            reveal_with_fuel(run_ops, 3);
            let ops = lower_expr(e);
            assert(ops.drop_last() =~= seq![OpView::SetRegion(region_code(rg.to))]);
            assert(ops.drop_last().drop_last() =~= Seq::<OpView>::empty());
        },
        AnyExpression::Drill(_) => {
            reveal_with_fuel(run_ops, 3);
            let ops = lower_expr(e);
            assert(ops.drop_last() =~= seq![OpView::DrillGate]);
            assert(ops.drop_last().drop_last() =~= Seq::<OpView>::empty());
        },
        _ => {
            reveal_with_fuel(run_ops, 2);
            let ops = lower_expr(e);
            if ops.len() > 0 {
                assert(ops.drop_last() =~= Seq::<OpView>::empty());
            }
        },
    }
}

} // verus!
