//! The bodies of the runtime routines and of a function call as instruction
//! lists over the machine's registers, each proved to do what the machine
//! model says. The code generator turns each instruction into builder calls.

use vstd::prelude::*;
use vstd::wrapping::i32_specs;
use crate::machine::{sur, MachineView, CELL_COUNT};
use crate::runtime::input_at;

verus! {

/// How a comparison of two registers reads them.
#[derive(Debug, PartialEq, Eq, Clone, Copy, Structural)]
pub enum Cond {
    Eq,
    Ne,
    /// Unsigned less than.
    Ult,
    /// Unsigned greater than.
    Ugt,
}

/// One step over the machine: registers are 32-bit, and the byte-wide
/// machine fields are widened when loaded and truncated when stored.
#[derive(Debug, PartialEq, Clone)]
pub enum Instr {
    /// `reg := constant`.
    Const(u8, i32),
    /// `reg := cells[c]`.
    LoadCell(u8, u8),
    /// `reg := ttl_table[c]`.
    LoadTtl(u8, u8),
    LoadRegion(u8),
    LoadGates(u8),
    LoadTtso(u8),
    /// `cells[c] := reg`.
    StoreCell(u8, u8),
    /// `ttl_table[c] := reg`.
    StoreTtl(u8, u8),
    StoreGates(u8),
    StoreTtso(u8),
    /// `dst := a + b`, wrapping.
    Add(u8, u8, u8),
    /// `dst := a - b`, wrapping.
    Sub(u8, u8, u8),
    /// `dst := a * b`, wrapping.
    Mul(u8, u8, u8),
    /// `dst := 1` when the comparison holds, else 0.
    Compare(u8, Cond, u8, u8),
    /// Runs the next `n` instructions only when the register is not zero.
    When(u8, u64),
    /// `putchar(reg)`.
    Putchar(u8),
    /// `reg := getchar()`.
    Getchar(u8),
    /// `putchar` of each byte.
    Print(Vec<u8>),
    /// The routine's result becomes the register.
    Status(u8),
}

/// The number of registers.
pub const REGISTERS: usize = 16;

/// What running instructions works on.
pub struct CodeState {
    pub m: MachineView,
    pub regs: Seq<i32>,
    pub out: Seq<u8>,
    pub cursor: nat,
    pub status: i32,
}

pub open spec fn unsigned(v: i32) -> int {
    if v < 0 {
        v + 0x1_0000_0000
    } else {
        v as int
    }
}

pub open spec fn holds(c: Cond, a: i32, b: i32) -> bool {
    match c {
        Cond::Eq => a == b,
        Cond::Ne => a != b,
        Cond::Ult => unsigned(a) < unsigned(b),
        Cond::Ugt => unsigned(a) > unsigned(b),
    }
}

pub open spec fn byte_of(v: i32) -> u8 {
    #[verifier::truncate] (v as u8)
}

pub open spec fn set_reg(s: CodeState, d: u8, v: i32) -> CodeState {
    CodeState { regs: s.regs.update(d as int, v), ..s }
}

pub open spec fn set_machine(s: CodeState, m: MachineView) -> CodeState {
    CodeState { m, ..s }
}

/// One instruction other than `When`.
pub open spec fn step(ins: Instr, s: CodeState, input: Seq<u8>) -> CodeState {
    let m = s.m;
    let r = s.regs;
    match ins {
        Instr::Const(d, v) => set_reg(s, d, v),
        Instr::LoadCell(d, c) => set_reg(s, d, m.cells[c as int]),
        Instr::LoadTtl(d, c) => set_reg(s, d, m.ttl[c as int] as i32),
        Instr::LoadRegion(d) => set_reg(s, d, m.region as i32),
        Instr::LoadGates(d) => set_reg(s, d, m.gates as i32),
        Instr::LoadTtso(d) => set_reg(s, d, m.ttso as i32),
        Instr::StoreCell(c, x) => set_machine(s, MachineView { cells: m.cells.update(c as int, r[x as int]), ..m }),
        Instr::StoreTtl(c, x) => set_machine(s, MachineView { ttl: m.ttl.update(c as int, byte_of(r[x as int])), ..m }),
        Instr::StoreGates(x) => set_machine(s, MachineView { gates: byte_of(r[x as int]), ..m }),
        Instr::StoreTtso(x) => set_machine(s, MachineView { ttso: byte_of(r[x as int]), ..m }),
        Instr::Add(d, a, b) => set_reg(s, d, i32_specs::wrapping_add(r[a as int], r[b as int])),
        Instr::Sub(d, a, b) => set_reg(s, d, i32_specs::wrapping_sub(r[a as int], r[b as int])),
        Instr::Mul(d, a, b) => set_reg(s, d, i32_specs::wrapping_mul(r[a as int], r[b as int])),
        Instr::Compare(d, c, a, b) => set_reg(s, d, if holds(c, r[a as int], r[b as int]) { 1 } else { 0 }),
        Instr::When(_, _) => s,
        Instr::Putchar(x) => CodeState { out: s.out.push(byte_of(r[x as int])), ..s },
        Instr::Getchar(d) => CodeState {
            regs: r.update(d as int, input_at(input, s.cursor)),
            cursor: if s.cursor < input.len() { s.cursor + 1 } else { s.cursor },
            ..s
        },
        Instr::Print(bytes) => CodeState { out: s.out + bytes@, ..s },
        Instr::Status(x) => CodeState { status: r[x as int], ..s },
    }
}

/// Where a skip of `n` from `pc` lands; a skip never lands past the end.
pub open spec fn skip_target(len: nat, pc: nat, n: u64) -> nat {
    if pc + 1 + n <= len {
        (pc + 1 + n) as nat
    } else {
        len
    }
}

/// Running `code` from instruction `pc` to its end.
pub open spec fn run_from(code: Seq<Instr>, pc: nat, s: CodeState, input: Seq<u8>) -> CodeState
    decreases code.len() - pc,
{
    if pc >= code.len() {
        s
    } else {
        match code[pc as int] {
            Instr::When(x, n) => if s.regs[x as int] != 0 {
                run_from(code, pc + 1, s, input)
            } else {
                run_from(code, skip_target(code.len(), pc, n), s, input)
            },
            ins => run_from(code, pc + 1, step(ins, s, input), input),
        }
    }
}

/// The state a routine starts in: zeroed registers, nothing printed, result 0.
pub open spec fn start(m: MachineView, cursor: nat) -> CodeState {
    CodeState { m, regs: Seq::new(REGISTERS as nat, |i: int| 0i32), out: seq![], cursor, status: 0 }
}

/// Running `code` on a machine: the machine, what was printed, the input
/// cursor and the result after it.
pub open spec fn exec_instrs(code: Seq<Instr>, m: MachineView, input: Seq<u8>, cursor: nat) -> (MachineView, Seq<u8>, nat, i32) {
    let s = run_from(code, 0, start(m, cursor), input);
    (s.m, s.out, s.cursor, s.status)
}

/// Every skip stays within the code.
pub open spec fn skips_ok(code: Seq<Instr>) -> bool {
    forall|pc: int| 0 <= pc < code.len() && (#[trigger] code[pc]) is When ==> pc + 1 + code[pc]->When_1 <= code.len()
}

/// `block` guarded by register `x`.
pub open spec fn guarded(x: u8, block: Seq<Instr>) -> Seq<Instr> {
    seq![Instr::When(x, block.len() as u64)] + block
}

proof fn lemma_shift(a: Seq<Instr>, b: Seq<Instr>, k: nat, s: CodeState, input: Seq<u8>)
    ensures
        run_from(a + b, a.len() + k, s, input) == run_from(b, k, s, input),
    decreases b.len() - k,
{
    if k < b.len() {
        assert((a + b)[a.len() + k as int] == b[k as int]);
        match b[k as int] {
            Instr::When(x, n) => {
                lemma_shift(a, b, k + 1, s, input);
                lemma_shift(a, b, skip_target(b.len(), k, n), s, input);
                assert(skip_target((a + b).len(), a.len() + k, n) == a.len() + skip_target(b.len(), k, n));
            },
            ins => {
                lemma_shift(a, b, k + 1, step(ins, s, input), input);
            },
        }
    }
}

/// Code made of two parts runs the first part, then the second.
pub proof fn lemma_concat(a: Seq<Instr>, b: Seq<Instr>, pc: nat, s: CodeState, input: Seq<u8>)
    requires
        skips_ok(a),
        pc <= a.len(),
    ensures
        run_from(a + b, pc, s, input) == run_from(b, 0, run_from(a, pc, s, input), input),
    decreases a.len() - pc,
{
    if pc == a.len() {
        lemma_shift(a, b, 0, s, input);
    } else {
        assert((a + b)[pc as int] == a[pc as int]);
        match a[pc as int] {
            Instr::When(x, n) => {
                assert(pc + 1 + n <= a.len());
                if s.regs[x as int] != 0 {
                    lemma_concat(a, b, pc + 1, s, input);
                } else {
                    assert(skip_target((a + b).len(), pc, n) == skip_target(a.len(), pc, n));
                    lemma_concat(a, b, skip_target(a.len(), pc, n), s, input);
                }
            },
            ins => {
                lemma_concat(a, b, pc + 1, step(ins, s, input), input);
            },
        }
    }
}

/// A guarded block runs exactly when its register is not zero.
pub proof fn lemma_guarded(x: u8, block: Seq<Instr>, s: CodeState, input: Seq<u8>)
    requires
        block.len() < u64::MAX,
    ensures
        run_from(guarded(x, block), 0, s, input) == if s.regs[x as int] != 0 {
            run_from(block, 0, s, input)
        } else {
            s
        },
{
    let g = guarded(x, block);
    assert(g[0] == Instr::When(x, block.len() as u64));
    lemma_shift(seq![Instr::When(x, block.len() as u64)], block, 0, s, input);
    assert(skip_target(g.len(), 0, block.len() as u64) == g.len());
    assert(run_from(g, g.len(), s, input) == s);
}

pub proof fn lemma_skips_concat(a: Seq<Instr>, b: Seq<Instr>)
    requires
        skips_ok(a),
        skips_ok(b),
    ensures
        skips_ok(a + b),
{
    assert forall|pc: int| 0 <= pc < (a + b).len() && (#[trigger] (a + b)[pc]) is When implies pc + 1
        + (a + b)[pc]->When_1 <= (a + b).len() by {
        if pc < a.len() {
            assert((a + b)[pc] == a[pc]);
        } else {
            assert((a + b)[pc] == b[pc - a.len()]);
        }
    }
}

pub proof fn lemma_skips_guarded(x: u8, block: Seq<Instr>)
    requires
        skips_ok(block),
        block.len() < u64::MAX,
    ensures
        skips_ok(guarded(x, block)),
{
    let g = guarded(x, block);
    assert forall|pc: int| 0 <= pc < g.len() && (#[trigger] g[pc]) is When implies pc + 1 + g[pc]->When_1
        <= g.len() by {
        if pc > 0 {
            assert(g[pc] == block[pc - 1]);
        }
    }
}

/// Code without skips.
pub open spec fn plain(code: Seq<Instr>) -> bool {
    forall|pc: int| 0 <= pc < code.len() ==> !((#[trigger] code[pc]) is When)
}

/// Code without skips runs one step after the other.
pub open spec fn run_plain(code: Seq<Instr>, s: CodeState, input: Seq<u8>) -> CodeState
    decreases code.len(),
{
    if code.len() == 0 {
        s
    } else {
        step(code.last(), run_plain(code.drop_last(), s, input), input)
    }
}

pub proof fn lemma_plain(code: Seq<Instr>, s: CodeState, input: Seq<u8>)
    requires
        plain(code),
    ensures
        run_from(code, 0, s, input) == run_plain(code, s, input),
        skips_ok(code),
    decreases code.len(),
{
    if code.len() > 0 {
        let a = code.drop_last();
        let b = seq![code.last()];
        assert(a + b =~= code);
        assert(plain(a));
        lemma_plain(a, s, input);
        lemma_concat(a, b, 0, s, input);
        let mid = run_plain(a, s, input);
        assert(b[0] == code.last());
        assert(run_from(b, 1, step(code.last(), mid, input), input) == step(code.last(), mid, input));
    }
}

/// One cell's part of the state update: a living cell's time goes down by
/// one, and a cell whose time runs out is emptied.
pub open spec fn tick_cell(m: MachineView, i: int) -> MachineView {
    let t = m.ttl[i];
    MachineView {
        ttl: m.ttl.update(i, if t > 0 { (t - 1) as u8 } else { 0u8 }),
        cells: if t == 1 { m.cells.update(i, -1i32) } else { m.cells },
        ..m
    }
}

/// The first `k` cells ticked.
pub open spec fn tick_cells(m: MachineView, k: int) -> MachineView {
    MachineView {
        ttl: Seq::new(m.ttl.len(), |j: int| if j < k && m.ttl[j] > 0 { (m.ttl[j] - 1) as u8 } else { m.ttl[j] }),
        cells: Seq::new(m.cells.len(), |j: int| if j < k && m.ttl[j] == 1 { -1i32 } else { m.cells[j] }),
        ..m
    }
}

/// The gates' part of the state update.
pub open spec fn tick_gates(m: MachineView) -> MachineView {
    if m.ttso > 0 {
        MachineView { ttso: (m.ttso - 1) as u8, gates: if m.ttso == 1 { 0u8 } else { m.gates }, ..m }
    } else {
        m
    }
}

pub open spec fn cell_tick_code(i: u8) -> Seq<Instr> {
    seq![Instr::LoadTtl(0, i), Instr::Const(1, 0), Instr::Compare(2, Cond::Ugt, 0, 1)] + guarded(
        2,
        seq![Instr::Const(3, 1), Instr::Sub(0, 0, 3), Instr::StoreTtl(i, 0), Instr::Compare(4, Cond::Eq, 0, 1)]
            + guarded(4, seq![Instr::Const(5, -1i32), Instr::StoreCell(i, 5)]),
    )
}

pub open spec fn cells_tick_code(k: nat) -> Seq<Instr>
    decreases k,
{
    if k == 0 {
        seq![]
    } else {
        cells_tick_code((k - 1) as nat) + cell_tick_code((k - 1) as u8)
    }
}

pub open spec fn gates_tick_code() -> Seq<Instr> {
    seq![Instr::LoadTtso(0), Instr::Const(1, 0), Instr::Compare(2, Cond::Ugt, 0, 1)] + guarded(
        2,
        seq![Instr::Const(3, 1), Instr::Sub(0, 0, 3), Instr::StoreTtso(0), Instr::Compare(4, Cond::Eq, 0, 1)]
            + guarded(4, seq![Instr::Const(5, 0), Instr::StoreGates(5)]),
    )
}

/// The body of the state update routine.
pub open spec fn state_update_spec_code(reduce_ttso: bool) -> Seq<Instr> {
    (if reduce_ttso { gates_tick_code() } else { seq![] }) + cells_tick_code(CELL_COUNT as nat)
}

/// Runs that touch only the machine.
pub open spec fn only_machine(s: CodeState, r: CodeState) -> bool {
    &&& r.out == s.out
    &&& r.cursor == s.cursor
    &&& r.status == s.status
    &&& r.regs.len() == s.regs.len()
}

proof fn lemma_cell_tick(i: u8, s: CodeState, input: Seq<u8>)
    requires
        s.m.wf(),
        i < CELL_COUNT,
        s.regs.len() == REGISTERS,
    ensures
        run_from(cell_tick_code(i), 0, s, input).m == tick_cell(s.m, i as int),
        only_machine(s, run_from(cell_tick_code(i), 0, s, input)),
        skips_ok(cell_tick_code(i)),
{
    reveal_with_fuel(run_plain, 5);
    let p = seq![Instr::LoadTtl(0, i), Instr::Const(1, 0), Instr::Compare(2, Cond::Ugt, 0, 1)];
    let q = seq![Instr::Const(3, 1), Instr::Sub(0, 0, 3), Instr::StoreTtl(i, 0), Instr::Compare(4, Cond::Eq, 0, 1)];
    let rr = seq![Instr::Const(5, -1i32), Instr::StoreCell(i, 5)];
    assert(plain(p));
    assert(plain(q));
    assert(plain(rr));
    lemma_plain(p, s, input);
    lemma_plain(rr, s, input);
    lemma_skips_guarded(4, rr);
    let g4 = guarded(4, rr);
    lemma_plain(q, s, input);
    lemma_skips_concat(q, g4);
    lemma_skips_guarded(2, q + g4);
    lemma_skips_concat(p, guarded(2, q + g4));
    lemma_concat(p, guarded(2, q + g4), 0, s, input);
    let s1 = run_from(p, 0, s, input);
    let t = s.m.ttl[i as int];
    assert(s1.regs[0] == t as i32 && s1.regs[1] == 0 && s1.m == s.m);
    lemma_guarded(2, q + g4, s1, input);
    if t > 0 {
        assert(s1.regs[2] == 1);
        lemma_plain(q, s1, input);
        lemma_concat(q, g4, 0, s1, input);
        let s2 = run_from(q, 0, s1, input);
        assert(s2.regs[0] == t - 1);
        assert(s2.m.ttl == s.m.ttl.update(i as int, (t - 1) as u8));
        lemma_guarded(4, rr, s2, input);
        if t == 1 {
            lemma_plain(rr, s2, input);
            assert(run_from(cell_tick_code(i), 0, s, input).m =~= tick_cell(s.m, i as int));
        } else {
            assert(run_from(cell_tick_code(i), 0, s, input).m =~= tick_cell(s.m, i as int));
        }
    } else {
        assert(s1.regs[2] == 0);
        assert(s.m.ttl.update(i as int, 0u8) =~= s.m.ttl);
    }
}

proof fn lemma_cells_tick(k: nat, s: CodeState, input: Seq<u8>)
    requires
        s.m.wf(),
        k <= CELL_COUNT,
        s.regs.len() == REGISTERS,
    ensures
        run_from(cells_tick_code(k), 0, s, input).m == tick_cells(s.m, k as int),
        only_machine(s, run_from(cells_tick_code(k), 0, s, input)),
        skips_ok(cells_tick_code(k)),
    decreases k,
{
    if k == 0 {
        assert(tick_cells(s.m, 0).ttl =~= s.m.ttl);
        assert(tick_cells(s.m, 0).cells =~= s.m.cells);
        assert(skips_ok(cells_tick_code(0)));
    } else {
        let a = cells_tick_code((k - 1) as nat);
        let b = cell_tick_code((k - 1) as u8);
        lemma_cells_tick((k - 1) as nat, s, input);
        let s1 = run_from(a, 0, s, input);
        assert(s1.m.wf());
        lemma_cell_tick((k - 1) as u8, s1, input);
        lemma_concat(a, b, 0, s, input);
        lemma_skips_concat(a, b);
        assert(tick_cell(tick_cells(s.m, k - 1), k - 1).ttl =~= tick_cells(s.m, k as int).ttl);
        assert(tick_cell(tick_cells(s.m, k - 1), k - 1).cells =~= tick_cells(s.m, k as int).cells);
    }
}

proof fn lemma_gates_tick(s: CodeState, input: Seq<u8>)
    requires
        s.m.wf(),
        s.regs.len() == REGISTERS,
    ensures
        run_from(gates_tick_code(), 0, s, input).m == tick_gates(s.m),
        only_machine(s, run_from(gates_tick_code(), 0, s, input)),
        skips_ok(gates_tick_code()),
{
    reveal_with_fuel(run_plain, 5);
    let p = seq![Instr::LoadTtso(0), Instr::Const(1, 0), Instr::Compare(2, Cond::Ugt, 0, 1)];
    let q = seq![Instr::Const(3, 1), Instr::Sub(0, 0, 3), Instr::StoreTtso(0), Instr::Compare(4, Cond::Eq, 0, 1)];
    let rr = seq![Instr::Const(5, 0), Instr::StoreGates(5)];
    assert(plain(p));
    assert(plain(q));
    assert(plain(rr));
    lemma_plain(p, s, input);
    lemma_plain(rr, s, input);
    lemma_skips_guarded(4, rr);
    let g4 = guarded(4, rr);
    lemma_plain(q, s, input);
    lemma_skips_concat(q, g4);
    lemma_skips_guarded(2, q + g4);
    lemma_skips_concat(p, guarded(2, q + g4));
    lemma_concat(p, guarded(2, q + g4), 0, s, input);
    let s1 = run_from(p, 0, s, input);
    let t = s.m.ttso;
    lemma_guarded(2, q + g4, s1, input);
    if t > 0 {
        lemma_plain(q, s1, input);
        lemma_concat(q, g4, 0, s1, input);
        let s2 = run_from(q, 0, s1, input);
        lemma_guarded(4, rr, s2, input);
        if t == 1 {
            lemma_plain(rr, s2, input);
        }
    }
}

/// The state update routine's code does one tick of the state update.
pub proof fn lemma_state_update_code(reduce_ttso: bool, m: MachineView, input: Seq<u8>, cursor: nat)
    requires
        m.wf(),
    ensures
        exec_instrs(state_update_spec_code(reduce_ttso), m, input, cursor) == (sur(m, reduce_ttso), Seq::<u8>::empty(), cursor, 0i32),
{
    let s = start(m, cursor);
    let g = if reduce_ttso { gates_tick_code() } else { seq![] };
    let c = cells_tick_code(CELL_COUNT as nat);
    if reduce_ttso {
        lemma_gates_tick(s, input);
    } else {
        assert(skips_ok(g));
    }
    lemma_concat(g, c, 0, s, input);
    let s1 = run_from(g, 0, s, input);
    assert(s1.m == if reduce_ttso { tick_gates(m) } else { m });
    assert(only_machine(s, s1));
    lemma_cells_tick(CELL_COUNT as nat, s1, input);
    let r = run_from(c, 0, s1, input);
    assert(r.m.ttl =~= sur(m, reduce_ttso).ttl);
    assert(r.m.cells =~= sur(m, reduce_ttso).cells);
}

/// Folding the arguments into register 6: one load and one add (or
/// subtract) per argument.
pub open spec fn fold_code(args: Seq<u8>, adding: bool, k: nat) -> Seq<Instr>
    decreases k,
{
    if k == 0 {
        seq![]
    } else {
        fold_code(args, adding, (k - 1) as nat) + seq![
            Instr::LoadCell(7, args[k - 1]),
            if adding { Instr::Add(6, 6, 7) } else { Instr::Sub(6, 6, 7) },
        ]
    }
}

/// Addition or Subtraction: start from the first argument, fold in every
/// argument, and store into the last.
pub open spec fn arith_code(args: Seq<u8>, adding: bool) -> Seq<Instr> {
    seq![Instr::LoadCell(6, args[0])] + fold_code(args, adding, args.len()) + seq![
        Instr::StoreCell(args[args.len() - 1], 6),
    ]
}

/// Input: read a byte into the first argument.
pub open spec fn input_code(args: Seq<u8>) -> Seq<Instr> {
    seq![Instr::Getchar(6), Instr::StoreCell(args[0], 6)]
}

/// Output from argument `i` on: a pair of cells as tens and units, a last
/// lone cell as it is.
pub open spec fn output_code(args: Seq<u8>, i: nat) -> Seq<Instr>
    decreases args.len() - i,
{
    if i >= args.len() {
        seq![]
    } else if i + 1 == args.len() {
        seq![Instr::LoadCell(6, args[i as int]), Instr::Putchar(6)]
    } else {
        seq![
            Instr::LoadCell(6, args[i as int]),
            Instr::Const(7, 10),
            Instr::Mul(6, 6, 7),
            Instr::LoadCell(8, args[i + 1 as int]),
            Instr::Add(6, 6, 8),
            Instr::Putchar(6),
        ] + output_code(args, i + 2)
    }
}

/// Which function the cell holds: register 2 for Addition, 3 for
/// Subtraction, 4 for Input and 5 for anything else (Output).
pub open spec fn dispatch_code(f: u8) -> Seq<Instr> {
    seq![
        Instr::LoadCell(0, f),
        Instr::Const(1, 1),
        Instr::Compare(2, Cond::Eq, 0, 1),
        Instr::Const(1, 0),
        Instr::Compare(3, Cond::Eq, 0, 1),
        Instr::Const(1, 3),
        Instr::Compare(4, Cond::Eq, 0, 1),
        Instr::Add(5, 2, 3),
        Instr::Add(5, 5, 4),
        Instr::Const(1, 0),
        Instr::Compare(5, Cond::Eq, 5, 1),
    ]
}

/// A call of the function in cell `f` on `args`.
pub open spec fn call_spec_code(f: u8, args: Seq<u8>) -> Seq<Instr> {
    dispatch_code(f) + guarded(2, arith_code(args, true)) + guarded(3, arith_code(args, false)) + guarded(
        4,
        input_code(args),
    ) + guarded(5, output_code(args, 0))
}

/// Code without skips run on a concatenation runs both parts in turn.
proof fn lemma_plain_concat(a: Seq<Instr>, b: Seq<Instr>, s: CodeState, input: Seq<u8>)
    ensures
        run_plain(a + b, s, input) == run_plain(b, run_plain(a, s, input), input),
    decreases b.len(),
{
    if b.len() == 0 {
        assert(a + b =~= a);
    } else {
        assert((a + b).drop_last() =~= a + b.drop_last());
        assert((a + b).last() == b.last());
        lemma_plain_concat(a, b.drop_last(), s, input);
    }
}

proof fn lemma_fold(args: Seq<u8>, adding: bool, k: nat, s: CodeState, input: Seq<u8>)
    requires
        k <= args.len(),
        s.m.wf(),
        s.regs.len() == REGISTERS,
        forall|j: int| 0 <= j < args.len() ==> args[j] < CELL_COUNT,
        args.len() >= 1,
        s.regs[6] == s.m.cells[args[0] as int],
    ensures
        plain(fold_code(args, adding, k)),
        run_plain(fold_code(args, adding, k), s, input).m == s.m,
        only_machine(s, run_plain(fold_code(args, adding, k), s, input)),
        forall|x: int| 0 <= x < 6 ==> #[trigger] run_plain(fold_code(args, adding, k), s, input).regs[x] == s.regs[x],
        run_plain(fold_code(args, adding, k), s, input).regs[6] == if adding {
            crate::runtime::fold_add(s.m.cells, args, k)
        } else {
            crate::runtime::fold_sub(s.m.cells, args, k)
        },
    decreases k,
{
    if k > 0 {
        lemma_fold(args, adding, (k - 1) as nat, s, input);
        let a = fold_code(args, adding, (k - 1) as nat);
        let b = seq![
            Instr::LoadCell(7, args[k - 1]),
            if adding { Instr::Add(6, 6, 7) } else { Instr::Sub(6, 6, 7) },
        ];
        lemma_plain_concat(a, b, s, input);
        reveal_with_fuel(run_plain, 3);
        assert(b.drop_last() =~= seq![Instr::LoadCell(7, args[k - 1])]);
        assert(seq![Instr::LoadCell(7, args[k - 1])].drop_last() =~= Seq::<Instr>::empty());
        assert(plain(fold_code(args, adding, k))) by {
            assert forall|pc: int| 0 <= pc < fold_code(args, adding, k).len() implies !((#[trigger] fold_code(args, adding, k)[pc]) is When) by {
                if pc < a.len() {
                    assert(fold_code(args, adding, k)[pc] == a[pc]);
                } else {
                    assert(fold_code(args, adding, k)[pc] == b[pc - a.len()]);
                }
            }
        }
    }
}

#[verifier::rlimit(60)]
proof fn lemma_output(args: Seq<u8>, i: nat, s: CodeState, input: Seq<u8>)
    requires
        s.m.wf(),
        s.regs.len() == REGISTERS,
        forall|j: int| 0 <= j < args.len() ==> args[j] < CELL_COUNT,
    ensures
        plain(output_code(args, i)),
        run_plain(output_code(args, i), s, input).m == s.m,
        run_plain(output_code(args, i), s, input).out == s.out + crate::runtime::output_values(s.m.cells, args, i),
        run_plain(output_code(args, i), s, input).cursor == s.cursor,
        run_plain(output_code(args, i), s, input).status == s.status,
        run_plain(output_code(args, i), s, input).regs.len() == REGISTERS,
        forall|x: int| 0 <= x < 6 ==> #[trigger] run_plain(output_code(args, i), s, input).regs[x] == s.regs[x],
    decreases args.len() - i,
{
    reveal_with_fuel(run_plain, 7);
    if i >= args.len() {
        assert(s.out + seq![] =~= s.out);
    } else if i + 1 == args.len() {
        let c = output_code(args, i);
        assert(c.drop_last() =~= seq![Instr::LoadCell(6, args[i as int])]);
        assert(c.drop_last().drop_last() =~= Seq::<Instr>::empty());
        assert(plain(c));
    } else {
        let pair = seq![
            Instr::LoadCell(6, args[i as int]),
            Instr::Const(7, 10),
            Instr::Mul(6, 6, 7),
            Instr::LoadCell(8, args[i + 1 as int]),
            Instr::Add(6, 6, 8),
            Instr::Putchar(6),
        ];
        let rest = output_code(args, i + 2);
        lemma_plain_concat(pair, rest, s, input);
        assert(pair.drop_last() =~= seq![Instr::LoadCell(6, args[i as int]), Instr::Const(7, 10), Instr::Mul(6, 6, 7), Instr::LoadCell(8, args[i + 1 as int]), Instr::Add(6, 6, 8)]);
        assert(pair.drop_last().drop_last() =~= seq![Instr::LoadCell(6, args[i as int]), Instr::Const(7, 10), Instr::Mul(6, 6, 7), Instr::LoadCell(8, args[i + 1 as int])]);
        assert(pair.drop_last().drop_last().drop_last() =~= seq![Instr::LoadCell(6, args[i as int]), Instr::Const(7, 10), Instr::Mul(6, 6, 7)]);
        assert(pair.drop_last().drop_last().drop_last().drop_last() =~= seq![Instr::LoadCell(6, args[i as int]), Instr::Const(7, 10)]);
        assert(pair.drop_last().drop_last().drop_last().drop_last().drop_last() =~= seq![Instr::LoadCell(6, args[i as int])]);
        assert(pair.drop_last().drop_last().drop_last().drop_last().drop_last().drop_last() =~= Seq::<Instr>::empty());
        let s1 = run_plain(pair, s, input);
        assert(s1.m == s.m && s1.regs.len() == REGISTERS);
        lemma_output(args, i + 2, s1, input);
        assert(plain(output_code(args, i))) by {
            assert forall|pc: int| 0 <= pc < output_code(args, i).len() implies !((#[trigger] output_code(args, i)[pc]) is When) by {
                if pc < pair.len() {
                    assert(output_code(args, i)[pc] == pair[pc]);
                } else {
                    assert(output_code(args, i)[pc] == rest[pc - pair.len()]);
                }
            }
        }
        assert(s.out.push(s1.out.last()) == s1.out);
        assert(s.out + crate::runtime::output_values(s.m.cells, args, i) =~= s1.out + crate::runtime::output_values(s.m.cells, args, i + 2));
    }
}

proof fn lemma_arith(args: Seq<u8>, adding: bool, s: CodeState, input: Seq<u8>)
    requires
        s.m.wf(),
        s.regs.len() == REGISTERS,
        forall|j: int| 0 <= j < args.len() ==> args[j] < CELL_COUNT,
        args.len() >= 1,
    ensures
        plain(arith_code(args, adding)),
        run_plain(arith_code(args, adding), s, input).m == (MachineView {
            cells: s.m.cells.update(
                args[args.len() - 1] as int,
                if adding {
                    crate::runtime::fold_add(s.m.cells, args, args.len())
                } else {
                    crate::runtime::fold_sub(s.m.cells, args, args.len())
                },
            ),
            ..s.m
        }),
        only_machine(s, run_plain(arith_code(args, adding), s, input)),
        forall|x: int| 0 <= x < 6 ==> #[trigger] run_plain(arith_code(args, adding), s, input).regs[x] == s.regs[x],
{
    let a = seq![Instr::LoadCell(6, args[0])];
    let f = fold_code(args, adding, args.len());
    let z = seq![Instr::StoreCell(args[args.len() - 1], 6)];
    reveal_with_fuel(run_plain, 2);
    assert(a.drop_last() =~= Seq::<Instr>::empty());
    assert(z.drop_last() =~= Seq::<Instr>::empty());
    let s1 = run_plain(a, s, input);
    lemma_fold(args, adding, args.len(), s1, input);
    lemma_plain_concat(a, f, s, input);
    lemma_plain_concat(a + f, z, s, input);
    assert(plain(arith_code(args, adding))) by {
        assert forall|pc: int| 0 <= pc < arith_code(args, adding).len() implies !((#[trigger] arith_code(args, adding)[pc]) is When) by {
            if pc == 0 {
            } else if pc < 1 + f.len() {
                assert(arith_code(args, adding)[pc] == f[pc - 1]);
            } else {
                assert(arith_code(args, adding)[pc] == z[pc - 1 - f.len()]);
            }
        }
    }
}

proof fn lemma_input(args: Seq<u8>, s: CodeState, input: Seq<u8>)
    requires
        s.regs.len() == REGISTERS,
        args.len() >= 1,
    ensures
        plain(input_code(args)),
        run_plain(input_code(args), s, input).m == (MachineView {
            cells: s.m.cells.update(args[0] as int, input_at(input, s.cursor)),
            ..s.m
        }),
        run_plain(input_code(args), s, input).out == s.out,
        run_plain(input_code(args), s, input).status == s.status,
        run_plain(input_code(args), s, input).cursor == if s.cursor < input.len() { s.cursor + 1 } else { s.cursor },
        run_plain(input_code(args), s, input).regs.len() == REGISTERS,
        forall|x: int| 0 <= x < 6 ==> #[trigger] run_plain(input_code(args), s, input).regs[x] == s.regs[x],
{
    reveal_with_fuel(run_plain, 3);
    let c = input_code(args);
    assert(c.drop_last() =~= seq![Instr::Getchar(6)]);
    assert(c.drop_last().drop_last() =~= Seq::<Instr>::empty());
}

proof fn lemma_fold_len(args: Seq<u8>, adding: bool, k: nat)
    ensures
        fold_code(args, adding, k).len() == 2 * k,
    decreases k,
{
    if k > 0 {
        lemma_fold_len(args, adding, (k - 1) as nat);
    }
}

proof fn lemma_output_len(args: Seq<u8>, i: nat)
    ensures
        output_code(args, i).len() <= 3 * args.len(),
        i <= args.len() ==> output_code(args, i).len() <= 3 * (args.len() - i),
    decreases args.len() - i,
{
    if i + 1 < args.len() {
        lemma_output_len(args, i + 2);
    }
}

/// A guarded block of code without skips.
proof fn lemma_guarded_plain(x: u8, block: Seq<Instr>, s: CodeState, input: Seq<u8>)
    requires
        plain(block),
        block.len() < u64::MAX,
    ensures
        skips_ok(guarded(x, block)),
        run_from(guarded(x, block), 0, s, input) == if s.regs[x as int] != 0 {
            run_plain(block, s, input)
        } else {
            s
        },
{
    lemma_plain(block, s, input);
    lemma_skips_guarded(x, block);
    lemma_guarded(x, block, s, input);
}

/// The call code does what a call of a valid function does.
pub proof fn lemma_call_code(f: u8, args: Seq<u8>, m: MachineView, input: Seq<u8>, cursor: nat)
    requires
        m.wf(),
        f < CELL_COUNT,
        args.len() >= 1,
        args.len() < 1000,
        forall|k: int| 0 <= k < args.len() ==> args[k] < CELL_COUNT,
        crate::runtime::fvr_ok(m, f),
    ensures
        exec_instrs(call_spec_code(f, args), m, input, cursor) == (
            crate::runtime::call_effect(m, f, args, input, cursor),
            crate::runtime::call_output(m, f, args),
            crate::runtime::cursor_after(m.cells[f as int], input, cursor),
            0i32,
        ),
{
    let s0 = start(m, cursor);
    let d = dispatch_code(f);
    let g2 = guarded(2, arith_code(args, true));
    let g3 = guarded(3, arith_code(args, false));
    let g4 = guarded(4, input_code(args));
    let g5 = guarded(5, output_code(args, 0));
    assert(plain(d));
    lemma_plain(d, s0, input);
    reveal_with_fuel(run_plain, 12);
    let s1 = run_from(d, 0, s0, input);
    let v = m.cells[f as int];
    assert(s1.m == m && s1.out == Seq::<u8>::empty() && s1.cursor == cursor && s1.status == 0);
    assert(s1.regs.len() == REGISTERS);
    assert(s1.regs[2] == (if v == 1 { 1i32 } else { 0i32 }));
    assert(s1.regs[3] == (if v == 0 { 1i32 } else { 0i32 }));
    assert(s1.regs[4] == (if v == 3 { 1i32 } else { 0i32 }));
    assert(s1.regs[5] == (if v == 2 { 1i32 } else { 0i32 }));
    lemma_arith(args, true, s1, input);
    lemma_arith(args, false, s1, input);
    lemma_input(args, s1, input);
    lemma_output(args, 0, s1, input);
    lemma_fold_len(args, true, args.len());
    lemma_fold_len(args, false, args.len());
    lemma_output_len(args, 0);
    lemma_guarded_plain(2, arith_code(args, true), s1, input);
    let s2 = run_from(g2, 0, s1, input);
    lemma_guarded_plain(3, arith_code(args, false), s2, input);
    let s3 = run_from(g3, 0, s2, input);
    lemma_guarded_plain(4, input_code(args), s3, input);
    let s4 = run_from(g4, 0, s3, input);
    lemma_guarded_plain(5, output_code(args, 0), s4, input);
    lemma_skips_concat(d, g2);
    lemma_skips_concat(d + g2, g3);
    lemma_skips_concat(d + g2 + g3, g4);
    lemma_concat(d + g2 + g3 + g4, g5, 0, s0, input);
    lemma_concat(d + g2 + g3, g4, 0, s0, input);
    lemma_concat(d + g2, g3, 0, s0, input);
    lemma_concat(d, g2, 0, s0, input);
    assert(crate::runtime::output_values(m.cells, args, 0).len() >= 0);
    assert(Seq::<u8>::empty() + crate::runtime::output_values(m.cells, args, 0) =~= crate::runtime::output_values(m.cells, args, 0));
}

/// The region test every routine starts with: register 2 holds whether the
/// region is not the Layers, register 10 whether it is.
pub open spec fn region_test_code() -> Seq<Instr> {
    seq![
        Instr::LoadRegion(0),
        Instr::Const(1, 1),
        Instr::Compare(2, Cond::Ne, 0, 1),
        Instr::Compare(10, Cond::Eq, 0, 1),
    ]
}

/// Prints `msg` and makes the result 1.
pub open spec fn refuse_code(msg: Vec<u8>) -> Seq<Instr> {
    seq![Instr::Print(msg), Instr::Const(3, 1), Instr::Status(3)]
}

pub open spec fn open_gate_code() -> Seq<Instr> {
    seq![Instr::Const(7, 1), Instr::Add(4, 4, 7), Instr::StoreGates(4), Instr::Compare(8, Cond::Eq, 4, 5)]
        + guarded(8, seq![Instr::Const(9, 5), Instr::StoreTtso(9)])
}

/// The drill gate routine: outside the Layers it prints `msg` and fails;
/// in the Layers it opens one more gate.
pub open spec fn drill_gate_spec_code(msg: Vec<u8>) -> Seq<Instr> {
    region_test_code() + guarded(2, refuse_code(msg)) + guarded(
        10,
        seq![Instr::LoadGates(4), Instr::Const(5, 3), Instr::Compare(6, Cond::Ult, 4, 5)] + guarded(6, open_gate_code()),
    )
}

/// The primitive access routine: the region message outside the Layers, the
/// gates message in the Layers with a gate closed.
pub open spec fn primitive_access_spec_code(region_msg: Vec<u8>, gates_msg: Vec<u8>) -> Seq<Instr> {
    region_test_code() + guarded(2, refuse_code(region_msg)) + guarded(
        10,
        seq![Instr::LoadGates(4), Instr::Const(5, 3), Instr::Compare(6, Cond::Ne, 4, 5)] + guarded(6, refuse_code(gates_msg)),
    )
}

/// The function validation routine for cell `f`: a dead cell fails quietly,
/// a living one that holds no function index prints `msg` and fails.
pub open spec fn function_validation_spec_code(f: u8, msg: Vec<u8>) -> Seq<Instr> {
    seq![
        Instr::LoadTtl(0, f),
        Instr::Const(1, 0),
        Instr::Compare(2, Cond::Eq, 0, 1),
        Instr::Compare(10, Cond::Ne, 0, 1),
    ] + guarded(2, seq![Instr::Const(3, 1), Instr::Status(3)]) + guarded(
        10,
        seq![Instr::LoadCell(4, f), Instr::Const(5, 3), Instr::Compare(6, Cond::Ugt, 4, 5)] + guarded(6, refuse_code(msg)),
    )
}

proof fn lemma_refuse(msg: Vec<u8>, s: CodeState, input: Seq<u8>)
    requires
        s.regs.len() == REGISTERS,
    ensures
        plain(refuse_code(msg)),
        run_plain(refuse_code(msg), s, input).m == s.m,
        run_plain(refuse_code(msg), s, input).out == s.out + msg@,
        run_plain(refuse_code(msg), s, input).cursor == s.cursor,
        run_plain(refuse_code(msg), s, input).status == 1,
        run_plain(refuse_code(msg), s, input).regs.len() == REGISTERS,
        forall|x: int| 0 <= x < 16 && x != 3 ==> #[trigger] run_plain(refuse_code(msg), s, input).regs[x] == s.regs[x],
{
    reveal_with_fuel(run_plain, 4);
    let c = refuse_code(msg);
    assert(c.drop_last() =~= seq![Instr::Print(msg), Instr::Const(3, 1)]);
    assert(c.drop_last().drop_last() =~= seq![Instr::Print(msg)]);
    assert(c.drop_last().drop_last().drop_last() =~= Seq::<Instr>::empty());
}

proof fn lemma_region_test(s: CodeState, input: Seq<u8>)
    requires
        s.regs.len() == REGISTERS,
    ensures
        plain(region_test_code()),
        run_plain(region_test_code(), s, input).m == s.m,
        only_machine(s, run_plain(region_test_code(), s, input)),
        run_plain(region_test_code(), s, input).regs[2] == (if s.m.region != 1 { 1i32 } else { 0i32 }),
        run_plain(region_test_code(), s, input).regs[10] == (if s.m.region == 1 { 1i32 } else { 0i32 }),
{
    reveal_with_fuel(run_plain, 5);
}

/// The drill gate code does what the drill gate routine does.
pub proof fn lemma_drill_gate_code(msg: Vec<u8>, m: MachineView, input: Seq<u8>, cursor: nat)
    requires
        m.wf(),
    ensures
        exec_instrs(drill_gate_spec_code(msg), m, input, cursor) == if m.region == 1 {
            (crate::machine::dgr(m), Seq::<u8>::empty(), cursor, 0i32)
        } else {
            (m, msg@, cursor, 1i32)
        },
{
    let s0 = start(m, cursor);
    let t = region_test_code();
    let ga = guarded(2, refuse_code(msg));
    let pb = seq![Instr::LoadGates(4), Instr::Const(5, 3), Instr::Compare(6, Cond::Ult, 4, 5)];
    let c1 = seq![Instr::Const(7, 1), Instr::Add(4, 4, 7), Instr::StoreGates(4), Instr::Compare(8, Cond::Eq, 4, 5)];
    let c2 = seq![Instr::Const(9, 5), Instr::StoreTtso(9)];
    let gc = guarded(6, open_gate_code());
    let gb = guarded(10, pb + gc);
    lemma_region_test(s0, input);
    lemma_plain(t, s0, input);
    let s1 = run_from(t, 0, s0, input);
    lemma_refuse(msg, s1, input);
    lemma_guarded_plain(2, refuse_code(msg), s1, input);
    let s2 = run_from(ga, 0, s1, input);
    lemma_skips_concat(t, ga);
    lemma_concat(t + ga, gb, 0, s0, input);
    lemma_concat(t, ga, 0, s0, input);
    reveal_with_fuel(run_plain, 5);
    assert(plain(pb));
    assert(plain(c1));
    assert(plain(c2));
    lemma_plain(c2, s2, input);
    lemma_skips_guarded(8, c2);
    lemma_plain(c1, s2, input);
    lemma_skips_concat(c1, guarded(8, c2));
    lemma_skips_guarded(6, open_gate_code());
    lemma_plain(pb, s2, input);
    lemma_skips_concat(pb, gc);
    lemma_guarded(10, pb + gc, s2, input);
    if m.region == 1 {
        assert(s2 == s1);
        lemma_concat(pb, gc, 0, s2, input);
        let s3 = run_from(pb, 0, s2, input);
        lemma_guarded(6, open_gate_code(), s3, input);
        if m.gates < 3 {
            lemma_concat(c1, guarded(8, c2), 0, s3, input);
            lemma_plain(c1, s3, input);
            let s4 = run_from(c1, 0, s3, input);
            lemma_guarded(8, c2, s4, input);
            lemma_plain(c2, s4, input);
        }
    }
}

/// The primitive access code does what the primitive access routine does.
pub proof fn lemma_primitive_access_code(region_msg: Vec<u8>, gates_msg: Vec<u8>, m: MachineView, input: Seq<u8>, cursor: nat)
    requires
        m.wf(),
    ensures
        exec_instrs(primitive_access_spec_code(region_msg, gates_msg), m, input, cursor) == if m.region != 1 {
            (m, region_msg@, cursor, 1i32)
        } else if m.gates != 3 {
            (m, gates_msg@, cursor, 1i32)
        } else {
            (m, Seq::<u8>::empty(), cursor, 0i32)
        },
{
    let s0 = start(m, cursor);
    let t = region_test_code();
    let ga = guarded(2, refuse_code(region_msg));
    let pb = seq![Instr::LoadGates(4), Instr::Const(5, 3), Instr::Compare(6, Cond::Ne, 4, 5)];
    let gc = guarded(6, refuse_code(gates_msg));
    let gb = guarded(10, pb + gc);
    lemma_region_test(s0, input);
    lemma_plain(t, s0, input);
    let s1 = run_from(t, 0, s0, input);
    lemma_refuse(region_msg, s1, input);
    lemma_guarded_plain(2, refuse_code(region_msg), s1, input);
    let s2 = run_from(ga, 0, s1, input);
    lemma_skips_concat(t, ga);
    lemma_concat(t + ga, gb, 0, s0, input);
    lemma_concat(t, ga, 0, s0, input);
    reveal_with_fuel(run_plain, 4);
    assert(plain(pb));
    lemma_plain(pb, s2, input);
    lemma_refuse(gates_msg, s2, input);
    lemma_guarded_plain(6, refuse_code(gates_msg), s2, input);
    lemma_skips_concat(pb, gc);
    lemma_guarded(10, pb + gc, s2, input);
    if m.region == 1 {
        lemma_concat(pb, gc, 0, s2, input);
        let s3 = run_from(pb, 0, s2, input);
        lemma_refuse(gates_msg, s3, input);
        lemma_guarded_plain(6, refuse_code(gates_msg), s3, input);
        assert(Seq::<u8>::empty() + gates_msg@ =~= gates_msg@);
    } else {
        assert(Seq::<u8>::empty() + region_msg@ =~= region_msg@);
    }
}

/// The function validation code does what the function validation routine does.
pub proof fn lemma_function_validation_code(f: u8, msg: Vec<u8>, m: MachineView, input: Seq<u8>, cursor: nat)
    requires
        m.wf(),
        f < CELL_COUNT,
    ensures
        exec_instrs(function_validation_spec_code(f, msg), m, input, cursor) == if crate::runtime::fvr_ok(m, f) {
            (m, Seq::<u8>::empty(), cursor, 0i32)
        } else if m.ttl[f as int] != 0 {
            (m, msg@, cursor, 1i32)
        } else {
            (m, Seq::<u8>::empty(), cursor, 1i32)
        },
{
    let s0 = start(m, cursor);
    let t = seq![Instr::LoadTtl(0, f), Instr::Const(1, 0), Instr::Compare(2, Cond::Eq, 0, 1), Instr::Compare(10, Cond::Ne, 0, 1)];
    let dead = seq![Instr::Const(3, 1), Instr::Status(3)];
    let ga = guarded(2, dead);
    let pb = seq![Instr::LoadCell(4, f), Instr::Const(5, 3), Instr::Compare(6, Cond::Ugt, 4, 5)];
    let gc = guarded(6, refuse_code(msg));
    let gb = guarded(10, pb + gc);
    reveal_with_fuel(run_plain, 5);
    assert(plain(t));
    assert(plain(dead));
    assert(plain(pb));
    lemma_plain(t, s0, input);
    let s1 = run_from(t, 0, s0, input);
    lemma_guarded_plain(2, dead, s1, input);
    let s2 = run_from(ga, 0, s1, input);
    lemma_skips_concat(t, ga);
    lemma_concat(t + ga, gb, 0, s0, input);
    lemma_concat(t, ga, 0, s0, input);
    lemma_plain(pb, s2, input);
    lemma_refuse(msg, s2, input);
    lemma_guarded_plain(6, refuse_code(msg), s2, input);
    lemma_skips_concat(pb, gc);
    lemma_guarded(10, pb + gc, s2, input);
    if m.ttl[f as int] != 0 {
        lemma_concat(pb, gc, 0, s2, input);
        let s3 = run_from(pb, 0, s2, input);
        lemma_refuse(msg, s3, input);
        lemma_guarded_plain(6, refuse_code(msg), s3, input);
        assert(Seq::<u8>::empty() + msg@ =~= msg@);
    }
}

fn push_all(code: &mut Vec<Instr>, more: Vec<Instr>)
    ensures
        final(code)@ == old(code)@ + more@,
{
    let mut more = more;
    code.append(&mut more);
}

fn guard(x: u8, block: Vec<Instr>) -> (r: Vec<Instr>)
    requires
        block.len() < 1_000_000,
    ensures
        r@ == guarded(x, block@),
{
    let mut r: Vec<Instr> = Vec::new();
    r.push(Instr::When(x, block.len() as u64));
    push_all(&mut r, block);
    assert(r@ =~= guarded(x, block@));
    r
}

fn message_bytes(msg: String) -> (r: Vec<u8>)
    ensures
        r@ == crate::runtime::bytes_of(msg@),
{
    let mut r: Vec<u8> = Vec::new();
    crate::runtime::print(&mut r, &msg);
    assert(r@ =~= crate::runtime::bytes_of(msg@));
    r
}

fn refuse(msg: Vec<u8>) -> (r: Vec<Instr>)
    ensures
        r@ == refuse_code(msg),
{
    let mut r: Vec<Instr> = Vec::new();
    let ghost m = msg;
    r.push(Instr::Print(msg));
    r.push(Instr::Const(3, 1));
    r.push(Instr::Status(3));
    assert(r@ =~= refuse_code(m));
    r
}

fn region_test() -> (r: Vec<Instr>)
    ensures
        r@ == region_test_code(),
{
    let mut r: Vec<Instr> = Vec::new();
    r.push(Instr::LoadRegion(0));
    r.push(Instr::Const(1, 1));
    r.push(Instr::Compare(2, Cond::Ne, 0, 1));
    r.push(Instr::Compare(10, Cond::Eq, 0, 1));
    assert(r@ =~= region_test_code());
    r
}

/// The body of the state update routine, one tick.
pub fn state_update_code(reduce_ttso: bool) -> (r: Vec<Instr>)
    ensures
        r@ == state_update_spec_code(reduce_ttso),
        forall|m: MachineView| #[trigger] m.wf() ==> exec_instrs(r@, m, seq![], 0).0 == sur(m, reduce_ttso),
        forall|m: MachineView, input: Seq<u8>, cursor: nat| m.wf() ==> #[trigger] exec_instrs(r@, m, input, cursor) == (
            sur(m, reduce_ttso),
            Seq::<u8>::empty(),
            cursor,
            0i32,
        ),
{
    let mut r: Vec<Instr> = Vec::new();
    if reduce_ttso {
        r.push(Instr::LoadTtso(0));
        r.push(Instr::Const(1, 0));
        r.push(Instr::Compare(2, Cond::Ugt, 0, 1));
        let mut q: Vec<Instr> = Vec::new();
        q.push(Instr::Const(3, 1));
        q.push(Instr::Sub(0, 0, 3));
        q.push(Instr::StoreTtso(0));
        q.push(Instr::Compare(4, Cond::Eq, 0, 1));
        let mut z: Vec<Instr> = Vec::new();
        z.push(Instr::Const(5, 0));
        z.push(Instr::StoreGates(5));
        push_all(&mut q, guard(4, z));
        push_all(&mut r, guard(2, q));
        assert(r@ =~= gates_tick_code());
    }
    let ghost head = r@;
    assert(r@ =~= head + cells_tick_code(0));
    let mut i: u8 = 0;
    while i < CELL_COUNT as u8
        invariant
            i <= CELL_COUNT,
            r@ == head + cells_tick_code(i as nat),
        decreases CELL_COUNT - i,
    {
        let mut c: Vec<Instr> = Vec::new();
        c.push(Instr::LoadTtl(0, i));
        c.push(Instr::Const(1, 0));
        c.push(Instr::Compare(2, Cond::Ugt, 0, 1));
        let mut q: Vec<Instr> = Vec::new();
        q.push(Instr::Const(3, 1));
        q.push(Instr::Sub(0, 0, 3));
        q.push(Instr::StoreTtl(i, 0));
        q.push(Instr::Compare(4, Cond::Eq, 0, 1));
        let mut z: Vec<Instr> = Vec::new();
        z.push(Instr::Const(5, -1i32));
        z.push(Instr::StoreCell(i, 5));
        push_all(&mut q, guard(4, z));
        push_all(&mut c, guard(2, q));
        assert(c@ =~= cell_tick_code(i));
        push_all(&mut r, c);
        assert(r@ =~= head + cells_tick_code((i + 1) as nat));
        i = i + 1;
    }
    assert(r@ =~= state_update_spec_code(reduce_ttso));
    proof {
        assert forall|m: MachineView, input: Seq<u8>, cursor: nat| m.wf() implies #[trigger] exec_instrs(r@, m, input, cursor) == (
            sur(m, reduce_ttso),
            Seq::<u8>::empty(),
            cursor,
            0i32,
        ) by {
            lemma_state_update_code(reduce_ttso, m, input, cursor);
        }
        assert forall|m: MachineView| #[trigger] m.wf() implies exec_instrs(r@, m, seq![], 0).0 == sur(m, reduce_ttso) by {
            lemma_state_update_code(reduce_ttso, m, seq![], 0);
        }
    }
    r
}

/// The body of the drill gate routine.
pub fn drill_gate_code() -> (r: Vec<Instr>)
    ensures
        forall|m: MachineView, input: Seq<u8>, cursor: nat| m.wf() ==> #[trigger] exec_instrs(r@, m, input, cursor) == if m.region == 1 {
            (crate::machine::dgr(m), Seq::<u8>::empty(), cursor, 0i32)
        } else {
            (m, crate::runtime::bytes_of(crate::errors::gate_region_runtime_msg()), cursor, 1i32)
        },
{
    let msg = message_bytes(crate::errors::err_invalid_gate_access_region_not_layers_runtime());
    let ghost mv = msg;
    let mut r = region_test();
    push_all(&mut r, guard(2, refuse(msg)));
    let mut b: Vec<Instr> = Vec::new();
    b.push(Instr::LoadGates(4));
    b.push(Instr::Const(5, 3));
    b.push(Instr::Compare(6, Cond::Ult, 4, 5));
    let mut o: Vec<Instr> = Vec::new();
    o.push(Instr::Const(7, 1));
    o.push(Instr::Add(4, 4, 7));
    o.push(Instr::StoreGates(4));
    o.push(Instr::Compare(8, Cond::Eq, 4, 5));
    let mut z: Vec<Instr> = Vec::new();
    z.push(Instr::Const(9, 5));
    z.push(Instr::StoreTtso(9));
    push_all(&mut o, guard(8, z));
    assert(o@ =~= open_gate_code());
    push_all(&mut b, guard(6, o));
    push_all(&mut r, guard(10, b));
    assert(r@ =~= drill_gate_spec_code(mv));
    proof {
        assert forall|m: MachineView, input: Seq<u8>, cursor: nat| m.wf() implies #[trigger] exec_instrs(r@, m, input, cursor) == if m.region == 1 {
            (crate::machine::dgr(m), Seq::<u8>::empty(), cursor, 0i32)
        } else {
            (m, crate::runtime::bytes_of(crate::errors::gate_region_runtime_msg()), cursor, 1i32)
        } by {
            lemma_drill_gate_code(mv, m, input, cursor);
        }
    }
    r
}

/// The body of the primitive access routine.
pub fn primitive_access_code() -> (r: Vec<Instr>)
    ensures
        forall|m: MachineView, input: Seq<u8>, cursor: nat| m.wf() ==> #[trigger] exec_instrs(r@, m, input, cursor) == if crate::runtime::par_ok(m) {
            (m, Seq::<u8>::empty(), cursor, 0i32)
        } else {
            (m, crate::runtime::bytes_of(crate::runtime::par_msg(m)), cursor, 1i32)
        },
{
    let rmsg = message_bytes(crate::errors::err_invalid_primitive_access_region_not_layers_runtime());
    let gmsg = message_bytes(crate::errors::err_invalid_primitive_access_gates_not_open_runtime());
    let ghost rv = rmsg;
    let ghost gv = gmsg;
    let mut r = region_test();
    push_all(&mut r, guard(2, refuse(rmsg)));
    let mut b: Vec<Instr> = Vec::new();
    b.push(Instr::LoadGates(4));
    b.push(Instr::Const(5, 3));
    b.push(Instr::Compare(6, Cond::Ne, 4, 5));
    push_all(&mut b, guard(6, refuse(gmsg)));
    push_all(&mut r, guard(10, b));
    assert(r@ =~= primitive_access_spec_code(rv, gv));
    proof {
        assert forall|m: MachineView, input: Seq<u8>, cursor: nat| m.wf() implies #[trigger] exec_instrs(r@, m, input, cursor) == if crate::runtime::par_ok(m) {
            (m, Seq::<u8>::empty(), cursor, 0i32)
        } else {
            (m, crate::runtime::bytes_of(crate::runtime::par_msg(m)), cursor, 1i32)
        } by {
            lemma_primitive_access_code(rv, gv, m, input, cursor);
        }
    }
    r
}

/// The body of the function validation routine for cell `f`. The message it
/// prints is the routine's own; the caller prints another on refusal.
pub fn function_validation_code(f: u8) -> (r: Vec<Instr>)
    requires
        f < CELL_COUNT,
    ensures
        forall|m: MachineView, input: Seq<u8>, cursor: nat| m.wf() ==> #[trigger] exec_instrs(r@, m, input, cursor) == if crate::runtime::fvr_ok(m, f) {
            (m, Seq::<u8>::empty(), cursor, 0i32)
        } else if m.ttl[f as int] != 0 {
            (m, crate::runtime::bytes_of(crate::errors::non_function_runtime_msg()), cursor, 1i32)
        } else {
            (m, Seq::<u8>::empty(), cursor, 1i32)
        },
{
    let msg = message_bytes(crate::errors::err_attempt_to_use_non_function_primitive_to_massacre());
    let ghost mv = msg;
    let mut r: Vec<Instr> = Vec::new();
    r.push(Instr::LoadTtl(0, f));
    r.push(Instr::Const(1, 0));
    r.push(Instr::Compare(2, Cond::Eq, 0, 1));
    r.push(Instr::Compare(10, Cond::Ne, 0, 1));
    let mut dead: Vec<Instr> = Vec::new();
    dead.push(Instr::Const(3, 1));
    dead.push(Instr::Status(3));
    push_all(&mut r, guard(2, dead));
    let mut b: Vec<Instr> = Vec::new();
    b.push(Instr::LoadCell(4, f));
    b.push(Instr::Const(5, 3));
    b.push(Instr::Compare(6, Cond::Ugt, 4, 5));
    push_all(&mut b, guard(6, refuse(msg)));
    push_all(&mut r, guard(10, b));
    assert(r@ =~= function_validation_spec_code(f, mv));
    proof {
        assert forall|m: MachineView, input: Seq<u8>, cursor: nat| m.wf() implies #[trigger] exec_instrs(r@, m, input, cursor) == if crate::runtime::fvr_ok(m, f) {
            (m, Seq::<u8>::empty(), cursor, 0i32)
        } else if m.ttl[f as int] != 0 {
            (m, crate::runtime::bytes_of(crate::errors::non_function_runtime_msg()), cursor, 1i32)
        } else {
            (m, Seq::<u8>::empty(), cursor, 1i32)
        } by {
            lemma_function_validation_code(f, mv, m, input, cursor);
        }
    }
    r
}

fn arith(args: &Vec<u8>, adding: bool) -> (r: Vec<Instr>)
    requires
        args.len() >= 1,
    ensures
        r@ == arith_code(args@, adding),
{
    let mut r: Vec<Instr> = Vec::new();
    r.push(Instr::LoadCell(6, args[0]));
    let ghost head = r@;
    assert(r@ =~= head + fold_code(args@, adding, 0));
    let mut k: usize = 0;
    while k < args.len()
        invariant
            k <= args.len(),
            head == seq![Instr::LoadCell(6, args@[0])],
            r@ == head + fold_code(args@, adding, k as nat),
        decreases args.len() - k,
    {
        r.push(Instr::LoadCell(7, args[k]));
        if adding {
            r.push(Instr::Add(6, 6, 7));
        } else {
            r.push(Instr::Sub(6, 6, 7));
        }
        assert(r@ =~= head + fold_code(args@, adding, (k + 1) as nat));
        k = k + 1;
    }
    r.push(Instr::StoreCell(args[args.len() - 1], 6));
    assert(r@ =~= arith_code(args@, adding));
    r
}

fn output(args: &Vec<u8>) -> (r: Vec<Instr>)
    ensures
        r@ == output_code(args@, 0),
{
    let mut r: Vec<Instr> = Vec::new();
    let mut i: usize = 0;
    assert(output_code(args@, 0) =~= r@ + output_code(args@, 0));
    while i < args.len()
        invariant
            i <= args.len(),
            output_code(args@, 0) == r@ + output_code(args@, i as nat),
        decreases args.len() - i,
    {
        let ghost before = r@;
        if i + 1 == args.len() {
            r.push(Instr::LoadCell(6, args[i]));
            r.push(Instr::Putchar(6));
            assert(output_code(args@, (i + 1) as nat) =~= Seq::<Instr>::empty());
            assert(before + output_code(args@, i as nat) =~= r@ + output_code(args@, (i + 1) as nat));
            i = i + 1;
        } else {
            r.push(Instr::LoadCell(6, args[i]));
            r.push(Instr::Const(7, 10));
            r.push(Instr::Mul(6, 6, 7));
            r.push(Instr::LoadCell(8, args[i + 1]));
            r.push(Instr::Add(6, 6, 8));
            r.push(Instr::Putchar(6));
            assert(before + output_code(args@, i as nat) =~= r@ + output_code(args@, (i + 2) as nat));
            i = i + 2;
        }
    }
    assert(output_code(args@, i as nat) =~= Seq::<Instr>::empty());
    assert(r@ =~= output_code(args@, 0));
    r
}

/// The code of a call of the function in cell `f` on `args`, once the
/// function validation routine has accepted `f`.
pub fn call_code(f: u8, args: &Vec<u8>) -> (r: Vec<Instr>)
    requires
        f < CELL_COUNT,
        args.len() >= 1,
        args.len() <= CELL_COUNT,
        forall|k: int| 0 <= k < args.len() ==> args@[k] < CELL_COUNT,
    ensures
        r@ == call_spec_code(f, args@),
        forall|m: MachineView, input: Seq<u8>, c: nat| m.wf() && crate::runtime::fvr_ok(m, f) ==> #[trigger] exec_instrs(r@, m, input, c) == (
            crate::runtime::call_effect(m, f, args@, input, c),
            crate::runtime::call_output(m, f, args@),
            crate::runtime::cursor_after(m.cells[f as int], input, c),
            0i32,
        ),
{
    let mut r: Vec<Instr> = Vec::new();
    r.push(Instr::LoadCell(0, f));
    r.push(Instr::Const(1, 1));
    r.push(Instr::Compare(2, Cond::Eq, 0, 1));
    r.push(Instr::Const(1, 0));
    r.push(Instr::Compare(3, Cond::Eq, 0, 1));
    r.push(Instr::Const(1, 3));
    r.push(Instr::Compare(4, Cond::Eq, 0, 1));
    r.push(Instr::Add(5, 2, 3));
    r.push(Instr::Add(5, 5, 4));
    r.push(Instr::Const(1, 0));
    r.push(Instr::Compare(5, Cond::Eq, 5, 1));
    assert(r@ =~= dispatch_code(f));
    proof {
        lemma_fold_len(args@, true, args.len() as nat);
        lemma_fold_len(args@, false, args.len() as nat);
        lemma_output_len(args@, 0);
    }
    push_all(&mut r, guard(2, arith(args, true)));
    push_all(&mut r, guard(3, arith(args, false)));
    let mut inp: Vec<Instr> = Vec::new();
    inp.push(Instr::Getchar(6));
    inp.push(Instr::StoreCell(args[0], 6));
    assert(inp@ =~= input_code(args@));
    push_all(&mut r, guard(4, inp));
    push_all(&mut r, guard(5, output(args)));
    assert(r@ =~= call_spec_code(f, args@));
    proof {
        assert forall|m: MachineView, input: Seq<u8>, c: nat| m.wf() && crate::runtime::fvr_ok(m, f) implies #[trigger] exec_instrs(r@, m, input, c) == (
            crate::runtime::call_effect(m, f, args@, input, c),
            crate::runtime::call_output(m, f, args@),
            crate::runtime::cursor_after(m.cells[f as int], input, c),
            0i32,
        ) by {
            lemma_call_code(f, args@, m, input, c);
        }
    }
    r
}

/// Fails (result 1) when the test leaves register 2 set; prints nothing.
pub open spec fn fail_code() -> Seq<Instr> {
    seq![Instr::Const(3, 1), Instr::Status(3)]
}

pub open spec fn cell_access_spec_code() -> Seq<Instr> {
    seq![Instr::LoadRegion(0), Instr::Const(1, 0), Instr::Compare(2, Cond::Ne, 0, 1)] + guarded(2, fail_code())
}

pub open spec fn expression_life_spec_code(c: u8) -> Seq<Instr> {
    seq![Instr::LoadTtl(0, c), Instr::Const(1, 0), Instr::Compare(2, Cond::Eq, 0, 1)] + guarded(2, fail_code())
}

proof fn lemma_test_then_fail(test: Seq<Instr>, s: CodeState, input: Seq<u8>)
    requires
        plain(test),
        s.regs.len() == REGISTERS,
        run_plain(test, s, input).m == s.m,
        only_machine(s, run_plain(test, s, input)),
    ensures
        run_from(test + guarded(2, fail_code()), 0, s, input).m == s.m,
        run_from(test + guarded(2, fail_code()), 0, s, input).out == s.out,
        run_from(test + guarded(2, fail_code()), 0, s, input).cursor == s.cursor,
        run_from(test + guarded(2, fail_code()), 0, s, input).status == if run_plain(test, s, input).regs[2] != 0 {
            1i32
        } else {
            s.status
        },
{
    reveal_with_fuel(run_plain, 3);
    assert(plain(fail_code()));
    lemma_plain(test, s, input);
    let s1 = run_plain(test, s, input);
    lemma_guarded_plain(2, fail_code(), s1, input);
    lemma_concat(test, guarded(2, fail_code()), 0, s, input);
    assert(fail_code().drop_last() =~= seq![Instr::Const(3, 1)]);
    assert(fail_code().drop_last().drop_last() =~= Seq::<Instr>::empty());
}

/// The body of the cell access routine.
pub fn cell_access_code() -> (r: Vec<Instr>)
    ensures
        forall|m: MachineView, input: Seq<u8>, cursor: nat| m.wf() ==> #[trigger] exec_instrs(r@, m, input, cursor) == (
            m,
            Seq::<u8>::empty(),
            cursor,
            if m.region == 0 { 0i32 } else { 1i32 },
        ),
{
    let mut r: Vec<Instr> = Vec::new();
    r.push(Instr::LoadRegion(0));
    r.push(Instr::Const(1, 0));
    r.push(Instr::Compare(2, Cond::Ne, 0, 1));
    let mut z: Vec<Instr> = Vec::new();
    z.push(Instr::Const(3, 1));
    z.push(Instr::Status(3));
    assert(z@ =~= fail_code());
    push_all(&mut r, guard(2, z));
    assert(r@ =~= cell_access_spec_code());
    proof {
        assert forall|m: MachineView, input: Seq<u8>, cursor: nat| m.wf() implies #[trigger] exec_instrs(r@, m, input, cursor) == (
            m,
            Seq::<u8>::empty(),
            cursor,
            if m.region == 0 { 0i32 } else { 1i32 },
        ) by {
            reveal_with_fuel(run_plain, 4);
            let t = seq![Instr::LoadRegion(0), Instr::Const(1, 0), Instr::Compare(2, Cond::Ne, 0, 1)];
            assert(plain(t));
            lemma_test_then_fail(t, start(m, cursor), input);
        }
    }
    r
}

/// The body of the expression life routine for cell `c`.
pub fn expression_life_code(c: u8) -> (r: Vec<Instr>)
    requires
        c < CELL_COUNT,
    ensures
        forall|m: MachineView, input: Seq<u8>, cursor: nat| m.wf() ==> #[trigger] exec_instrs(r@, m, input, cursor) == (
            m,
            Seq::<u8>::empty(),
            cursor,
            if m.ttl[c as int] != 0 { 0i32 } else { 1i32 },
        ),
{
    let mut r: Vec<Instr> = Vec::new();
    r.push(Instr::LoadTtl(0, c));
    r.push(Instr::Const(1, 0));
    r.push(Instr::Compare(2, Cond::Eq, 0, 1));
    let mut z: Vec<Instr> = Vec::new();
    z.push(Instr::Const(3, 1));
    z.push(Instr::Status(3));
    assert(z@ =~= fail_code());
    push_all(&mut r, guard(2, z));
    assert(r@ =~= expression_life_spec_code(c));
    proof {
        assert forall|m: MachineView, input: Seq<u8>, cursor: nat| m.wf() implies #[trigger] exec_instrs(r@, m, input, cursor) == (
            m,
            Seq::<u8>::empty(),
            cursor,
            if m.ttl[c as int] != 0 { 0i32 } else { 1i32 },
        ) by {
            reveal_with_fuel(run_plain, 4);
            let t = seq![Instr::LoadTtl(0, c), Instr::Const(1, 0), Instr::Compare(2, Cond::Eq, 0, 1)];
            assert(plain(t));
            lemma_test_then_fail(t, start(m, cursor), input);
        }
    }
    r
}

} // verus!
