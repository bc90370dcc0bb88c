//! What a compiled program does when it runs: each construct's effect on the
//! machine and on standard output, and a run of a whole program.

use vstd::prelude::*;
use vstd::string::*;
use vstd::wrapping::i32_specs;
use crate::ast::{
    chain_cells, flatten, AnyExpression, LeachExpression, OrganismExpression, Passive, PrimitiveValue, Region,
    RegionExpression,
};
use crate::errors::{
    cell_region_runtime_msg, death_leach_runtime_msg, gate_region_runtime_msg,
    non_function_runtime_msg, primitive_access_runtime_msg, primitive_gates_runtime_msg,
    primitive_region_runtime_msg,
    err_attempt_to_leach_death_expression_onto_another_cell,
    err_attempt_to_use_non_function_primitive_to_massacre, err_invalid_cell_access_region_runtime,
    err_invalid_gate_access_region_not_layers_runtime,
    err_invalid_primitive_access_gates_not_open_runtime,
    err_invalid_primitive_access_region_not_layers_runtime, err_invalid_primitive_access_runtime,
};
use crate::machine::{
    dgr, initial, post_exec_spec, sur, Machine, MachineView, ALL_GATES_OPEN, CELLS_REGION, CELL_COUNT,
    FRESH_TTL, LAYERS_REGION,
};
use crate::lexer::{lex, tokenize};
use crate::parser::{expr_wf, exprs_model, leach_wf, parse_spec, Parser};

verus! {

/// The bytes that printing `s` writes.
pub open spec fn bytes_of(s: Seq<char>) -> Seq<u8> {
    s.map_values(|c: char| #[verifier::truncate] ((c as u32) as u8))
}

/// Writes `msg` to the output, one byte per character.
pub fn print(out: &mut Vec<u8>, msg: &String)
    ensures
        final(out)@ == old(out)@ + bytes_of(msg@),
{
    let s = msg.as_str();
    let n = s.unicode_len();
    let mut i: usize = 0;
    while i < n
        invariant
            s@ == msg@,
            n == msg@.len(),
            i <= n,
            out@ == old(out)@ + bytes_of(msg@.subrange(0, i as int)),
        decreases n - i,
    {
        let c = s.get_char(i);
        let b: u8 = #[verifier::truncate] ((c as u32) as u8);
        out.push(b);
        assert(bytes_of(msg@.subrange(0, i + 1)) =~= bytes_of(msg@.subrange(0, i as int)).push(b));
        i = i + 1;
    }
    assert(msg@.subrange(0, n as int) =~= msg@);
}

/// The number for a region in the machine's region register.
pub open spec fn region_code(r: Region) -> u8 {
    match r {
        Region::Cells => CELLS_REGION,
        Region::Layers => LAYERS_REGION,
    }
}

/// A region change: the register is set, then one tick.
pub open spec fn region_spec(m: MachineView, r: u8) -> MachineView {
    sur(MachineView { region: r, ..m }, true)
}

/// The region changes of a primitive store, one after the other.
pub open spec fn regions_spec(m: MachineView, rs: Seq<u8>) -> MachineView
    decreases rs.len(),
{
    if rs.len() == 0 {
        m
    } else {
        region_spec(regions_spec(m, rs.drop_last()), rs.last())
    }
}

/// What a primitive stores in a cell: a digit its value, a function its index.
pub open spec fn store_value(p: PrimitiveValue) -> i32 {
    match p {
        PrimitiveValue::Zero => 0,
        PrimitiveValue::One => 1,
        PrimitiveValue::Two => 2,
        PrimitiveValue::Three => 3,
        PrimitiveValue::Four => 4,
        PrimitiveValue::Five => 5,
        PrimitiveValue::Six => 6,
        PrimitiveValue::Seven => 7,
        PrimitiveValue::Eight => 8,
        PrimitiveValue::Nine => 9,
        PrimitiveValue::Subtraction => 0,
        PrimitiveValue::Addition => 1,
        PrimitiveValue::Output => 2,
        PrimitiveValue::Input => 3,
    }
}

pub fn primitive_store_value(p: PrimitiveValue) -> (r: i32)
    ensures
        r == store_value(p),
{
    match p {
        PrimitiveValue::Zero => 0,
        PrimitiveValue::One => 1,
        PrimitiveValue::Two => 2,
        PrimitiveValue::Three => 3,
        PrimitiveValue::Four => 4,
        PrimitiveValue::Five => 5,
        PrimitiveValue::Six => 6,
        PrimitiveValue::Seven => 7,
        PrimitiveValue::Eight => 8,
        PrimitiveValue::Nine => 9,
        PrimitiveValue::Subtraction => 0,
        PrimitiveValue::Addition => 1,
        PrimitiveValue::Output => 2,
        PrimitiveValue::Input => 3,
    }
}

/// A value written into cell `c` with a tick in between: the cell is set,
/// the machine ticks, and the cell gets a fresh time to live.
pub open spec fn write_spec(m: MachineView, c: u8, v: i32) -> MachineView {
    let ticked = sur(MachineView { cells: m.cells.update(c as int, v), ..m }, true);
    MachineView { ttl: ticked.ttl.update(c as int, FRESH_TTL), ..ticked }
}

/// A cell copy `a~b` on a machine where `a` is alive.
pub open spec fn copy_spec(m: MachineView, a: u8, b: u8) -> MachineView {
    let w = write_spec(m, b, m.cells[a as int]);
    MachineView { ttl: w.ttl.update(a as int, 0), ..w }
}

/// The sum that Addition stores: the first argument, then every argument
/// (the first one again included), with 32-bit wrapping.
pub open spec fn fold_add(cells: Seq<i32>, args: Seq<u8>, k: nat) -> i32
    decreases k,
{
    if k == 0 {
        cells[args[0] as int]
    } else {
        i32_specs::wrapping_add(fold_add(cells, args, (k - 1) as nat), cells[args[k - 1] as int])
    }
}

/// The difference that Subtraction stores, folded in the same way.
pub open spec fn fold_sub(cells: Seq<i32>, args: Seq<u8>, k: nat) -> i32
    decreases k,
{
    if k == 0 {
        cells[args[0] as int]
    } else {
        i32_specs::wrapping_sub(fold_sub(cells, args, (k - 1) as nat), cells[args[k - 1] as int])
    }
}

/// The value that Output hands to `putchar` for the arguments from `i` on: a
/// pair of cells as tens and units, a last lone cell as it is.
pub open spec fn output_values(cells: Seq<i32>, args: Seq<u8>, i: nat) -> Seq<u8>
    decreases args.len() - i,
{
    if i >= args.len() {
        seq![]
    } else if i + 1 == args.len() {
        seq![#[verifier::truncate] (cells[args[i as int] as int] as u8)]
    } else {
        seq![
            #[verifier::truncate] (i32_specs::wrapping_add(
                i32_specs::wrapping_mul(cells[args[i as int] as int], 10),
                cells[args[i + 1 as int] as int],
            ) as u8),
        ] + output_values(cells, args, i + 2)
    }
}

/// What `getchar` gives at `cursor`: the next byte, or -1 at the end.
pub open spec fn input_at(input: Seq<u8>, cursor: nat) -> i32 {
    if cursor < input.len() {
        input[cursor as int] as i32
    } else {
        -1i32
    }
}

/// The machine after a call of the function in cell `f` on `args`, before
/// the ticks and deaths that follow every call.
pub open spec fn call_effect(m: MachineView, f: u8, args: Seq<u8>, input: Seq<u8>, cursor: nat) -> MachineView {
    let last = args[args.len() - 1] as int;
    let v = m.cells[f as int];
    if v == 1 {
        MachineView { cells: m.cells.update(last, fold_add(m.cells, args, args.len())), ..m }
    } else if v == 0 {
        MachineView { cells: m.cells.update(last, fold_sub(m.cells, args, args.len())), ..m }
    } else if v == 3 {
        MachineView { cells: m.cells.update(args[0] as int, input_at(input, cursor)), ..m }
    } else {
        m
    }
}

/// Collects the cells of a chain, function first.
pub fn collect_chain(l: &LeachExpression, cells: &mut Vec<u8>)
    requires
        leach_wf(*l),
        forall|k: int| 0 <= k < old(cells)@.len() ==> old(cells)@[k] < CELL_COUNT,
    ensures
        final(cells)@ == old(cells)@ + chain_cells(*l),
        forall|k: int| 0 <= k < final(cells)@.len() ==> final(cells)@[k] < CELL_COUNT,
    decreases l,
{
    match &l.left {
        Passive::Cell(c) => cells.push(c.ident),
        Passive::Primitive(_) => {},
    }
    match &l.right {
        Some(r) => {
            collect_chain(r, cells);
            assert(cells@ =~= old(cells)@ + chain_cells(*l));
        },
        None => {
            assert(cells@ =~= old(cells)@ + chain_cells(*l));
        },
    }
}

/// Whether the primitive access routine lets a primitive be touched.
pub open spec fn par_ok(m: MachineView) -> bool {
    m.region == LAYERS_REGION && m.gates == ALL_GATES_OPEN
}

/// What the primitive access routine prints when it refuses.
pub open spec fn par_msg(m: MachineView) -> Seq<char> {
    if m.region != LAYERS_REGION {
        primitive_region_runtime_msg()
    } else {
        primitive_gates_runtime_msg()
    }
}

/// Whether the function validation routine accepts the function in cell `f`.
pub open spec fn fvr_ok(m: MachineView, f: u8) -> bool {
    m.ttl[f as int] != 0 && 0 <= m.cells[f as int] <= 3
}

/// What a refused call prints: the routine's own message where the cell is
/// alive but holds no function, then the caller's.
pub open spec fn fvr_fail_msg(m: MachineView, f: u8) -> Seq<char> {
    if m.ttl[f as int] != 0 {
        non_function_runtime_msg() + non_function_runtime_msg()
    } else {
        non_function_runtime_msg()
    }
}

/// The region codes of the region changes of a primitive store.
pub open spec fn region_codes(rs: Seq<RegionExpression>) -> Seq<u8> {
    rs.map_values(|r: RegionExpression| region_code(r.to))
}

/// The cursor after a call that reads input when the function is Input.
pub open spec fn cursor_after(v: i32, input: Seq<u8>, cursor: nat) -> nat {
    if v == 3 && cursor < input.len() {
        cursor + 1
    } else {
        cursor
    }
}

/// The bytes that a call prints: Output's values, nothing for the others.
pub open spec fn call_output(m: MachineView, f: u8, args: Seq<u8>) -> Seq<u8> {
    let v = m.cells[f as int];
    if v == 0 || v == 1 || v == 3 {
        seq![]
    } else {
        output_values(m.cells, args, 0)
    }
}

/// A chain of a well-formed leach has at least two cells, all among the fifteen.
pub proof fn lemma_chain_cells(l: LeachExpression)
    requires
        leach_wf(l),
    ensures
        forall|k: int| 0 <= k < chain_cells(l).len() ==> chain_cells(l)[k] < CELL_COUNT,
        l.left is Cell && l.right is Some ==> chain_cells(l).len() >= 2,
        l.left is Cell ==> chain_cells(l).len() >= 1,
    decreases l,
{
    match l.right {
        Some(r) => {
            lemma_chain_cells(*r);
        },
        None => {},
    }
}

impl Machine {
    /// A region change: `->C` or `->L`.
    pub fn run_region(&mut self, to: Region)
        requires
            old(self)@.wf(),
        ensures
            final(self)@ == region_spec(old(self)@, region_code(to)),
            final(self)@.wf(),
    {
        self.curr_region = match to {
            Region::Cells => CELLS_REGION,
            Region::Layers => LAYERS_REGION,
        };
        self.state_update(true);
    }

    /// A drill: the drill gate routine, then a tick that leaves the gates' time.
    pub fn run_drill(&mut self, out: &mut Vec<u8>) -> (ok: bool)
        requires
            old(self)@.wf(),
        ensures
            ok == (old(self)@.region == LAYERS_REGION),
            ok ==> final(self)@ == sur(dgr(old(self)@), false) && final(out)@ == old(out)@,
            !ok ==> final(out)@ == old(out)@ + bytes_of(gate_region_runtime_msg()) && final(self)@
                == old(self)@,
            final(self)@.wf(),
    {
        if self.drill_gate() != 0 {
            print(out, &err_invalid_gate_access_region_not_layers_runtime());
            return false;
        }
        self.state_update(false);
        true
    }

    /// A lone cell: only the cell access check.
    pub fn run_lone_cell(&self, out: &mut Vec<u8>) -> (ok: bool)
        ensures
            ok == (self@.region == CELLS_REGION),
            ok ==> final(out)@ == old(out)@,
            !ok ==> final(out)@ == old(out)@ + bytes_of(cell_region_runtime_msg()),
    {
        if self.cell_access() != 0 {
            print(out, &err_invalid_cell_access_region_runtime());
            return false;
        }
        true
    }

    /// The primitive access routine, printing its message when it refuses.
    fn primitive_access_printing(&self, out: &mut Vec<u8>) -> (ok: bool)
        ensures
            ok == par_ok(self@),
            ok ==> final(out)@ == old(out)@,
            !ok ==> final(out)@ == old(out)@ + bytes_of(par_msg(self@)),
    {
        if self.primitive_access() == 0 {
            return true;
        }
        if self.curr_region != LAYERS_REGION {
            print(out, &err_invalid_primitive_access_region_not_layers_runtime());
        } else {
            print(out, &err_invalid_primitive_access_gates_not_open_runtime());
        }
        false
    }

    /// A lone primitive: only the primitive access check.
    pub fn run_lone_primitive(&self, out: &mut Vec<u8>) -> (ok: bool)
        ensures
            ok == par_ok(self@),
            ok ==> final(out)@ == old(out)@,
            !ok ==> final(out)@ == old(out)@ + bytes_of(par_msg(self@)),
    {
        self.primitive_access_printing(out)
    }

    /// A primitive store `p~c`, with the region changes written between them.
    pub fn run_store_primitive(
        &mut self,
        p: PrimitiveValue,
        target: u8,
        regions: &Vec<RegionExpression>,
        out: &mut Vec<u8>,
    ) -> (ok: bool)
        requires
            old(self)@.wf(),
            target < CELL_COUNT,
        ensures
            final(self)@.wf(),
            !par_ok(old(self)@) ==> !ok && final(out)@ == old(out)@ + bytes_of(par_msg(old(self)@))
                + bytes_of(primitive_access_runtime_msg()) && final(self)@ == old(self)@,
            par_ok(old(self)@) && regions_spec(old(self)@, region_codes(regions@)).region != CELLS_REGION
                ==> !ok && final(out)@ == old(out)@ + bytes_of(cell_region_runtime_msg()) && final(self)@
                == regions_spec(old(self)@, region_codes(regions@)),
            par_ok(old(self)@) && regions_spec(old(self)@, region_codes(regions@)).region == CELLS_REGION
                ==> ok && final(out)@ == old(out)@ && final(self)@ == write_spec(
                regions_spec(old(self)@, region_codes(regions@)),
                target,
                store_value(p),
            ),
    {
        if !self.primitive_access_printing(out) {
            print(out, &err_invalid_primitive_access_runtime());
            return false;
        }
        let mut k: usize = 0;
        while k < regions.len()
            invariant
                k <= regions.len(),
                self@.wf(),
                self@ == regions_spec(old(self)@, region_codes(regions@).subrange(0, k as int)),
            decreases regions.len() - k,
        {
            self.run_region(regions[k].to);
            assert(region_codes(regions@).subrange(0, k + 1).drop_last() =~= region_codes(regions@).subrange(0, k as int));
            k = k + 1;
        }
        assert(region_codes(regions@).subrange(0, regions.len() as int) =~= region_codes(regions@));
        if self.cell_access() != 0 {
            print(out, &err_invalid_cell_access_region_runtime());
            return false;
        }
        self.set_cell(target, primitive_store_value(p));
        self.state_update(true);
        self.set_ttl(target, FRESH_TTL);
        true
    }

    /// A cell copy `a~b`: the value of a living `a` moves to `b`.
    pub fn run_cell_copy(&mut self, a: u8, b: u8, out: &mut Vec<u8>) -> (ok: bool)
        requires
            old(self)@.wf(),
            a < CELL_COUNT,
            b < CELL_COUNT,
        ensures
            final(self)@.wf(),
            ok == (old(self)@.ttl[a as int] != 0),
            ok ==> final(self)@ == copy_spec(old(self)@, a, b) && final(out)@ == old(out)@,
            !ok ==> final(out)@ == old(out)@ + bytes_of(death_leach_runtime_msg()) && final(self)@
                == old(self)@,
    {
        if self.expression_life_validation(a) != 0 {
            print(out, &err_attempt_to_leach_death_expression_onto_another_cell());
            return false;
        }
        let v = self.cells[a as usize];
        self.set_cell(b, v);
        self.state_update(true);
        self.set_ttl(b, FRESH_TTL);
        self.set_ttl(a, 0);
        true
    }

    /// A call `f~a0~...~aN` ending in a massacre: the function in cell `f`
    /// runs on the arguments, then every argument but the last dies.
    pub fn run_function_call(
        &mut self,
        f: u8,
        args: &Vec<u8>,
        input: &Vec<u8>,
        cursor: &mut usize,
        out: &mut Vec<u8>,
    ) -> (ok: bool)
        requires
            old(self)@.wf(),
            f < CELL_COUNT,
            args.len() >= 1,
            forall|k: int| 0 <= k < args.len() ==> args@[k] < CELL_COUNT,
            *old(cursor) <= input.len(),
        ensures
            final(self)@.wf(),
            *final(cursor) <= input.len(),
            ok == fvr_ok(old(self)@, f),
            !ok ==> final(out)@ == old(out)@ + bytes_of(fvr_fail_msg(old(self)@, f)) && final(self)@
                == old(self)@ && *final(cursor) == *old(cursor),
            ok ==> final(self)@ == post_exec_spec(
                call_effect(old(self)@, f, args@, input@, *old(cursor) as nat),
                f,
                args@,
            ),
            ok ==> final(out)@ == old(out)@ + call_output(old(self)@, f, args@),
            ok ==> *final(cursor) == cursor_after(old(self)@.cells[f as int], input@, *old(cursor) as nat),
    {
        if self.function_validation(f) != 0 {
            if self.ttl_table[f as usize] != 0 {
                print(out, &err_attempt_to_use_non_function_primitive_to_massacre());
            }
            print(out, &err_attempt_to_use_non_function_primitive_to_massacre());
            proof {
                if old(self)@.ttl[f as int] != 0 {
                    assert(bytes_of(non_function_runtime_msg() + non_function_runtime_msg()) =~= bytes_of(
                        non_function_runtime_msg()) + bytes_of(non_function_runtime_msg()));
                }
            }
            return false;
        }
        let v = self.cells[f as usize];
        let last = args[args.len() - 1];
        if v == 1 {
            let mut acc = self.cells[args[0] as usize];
            let mut k: usize = 0;
            while k < args.len()
                invariant
                    k <= args.len(),
                    self@ == old(self)@,
                    self@.wf(),
                    forall|j: int| 0 <= j < args.len() ==> args@[j] < CELL_COUNT,
                    acc == fold_add(self@.cells, args@, k as nat),
                decreases args.len() - k,
            {
                acc = acc.wrapping_add(self.cells[args[k] as usize]);
                k = k + 1;
            }
            self.set_cell(last, acc);
        } else if v == 0 {
            let mut acc = self.cells[args[0] as usize];
            let mut k: usize = 0;
            while k < args.len()
                invariant
                    k <= args.len(),
                    self@ == old(self)@,
                    self@.wf(),
                    forall|j: int| 0 <= j < args.len() ==> args@[j] < CELL_COUNT,
                    acc == fold_sub(self@.cells, args@, k as nat),
                decreases args.len() - k,
            {
                acc = acc.wrapping_sub(self.cells[args[k] as usize]);
                k = k + 1;
            }
            self.set_cell(last, acc);
        } else if v == 3 {
            let got: i32 = if *cursor < input.len() {
                let b = input[*cursor];
                *cursor = *cursor + 1;
                b as i32
            } else {
                -1
            };
            self.set_cell(args[0], got);
        } else {
            let mut i: usize = 0;
            while i < args.len()
                invariant
                    i <= args.len(),
                    self@ == old(self)@,
                    self@.wf(),
                    forall|j: int| 0 <= j < args.len() ==> args@[j] < CELL_COUNT,
                    out@ + output_values(self@.cells, args@, i as nat) == old(out)@ + output_values(
                        self@.cells,
                        args@,
                        0,
                    ),
                decreases args.len() - i,
            {
                let ghost before = out@;
                let ghost rest = output_values(self@.cells, args@, i as nat);
                if i + 1 == args.len() {
                    let value = self.cells[args[i] as usize];
                    let byte: u8 = #[verifier::truncate] (value as u8);
                    out.push(byte);
                    assert(rest =~= seq![byte]);
                    assert(output_values(self@.cells, args@, (i + 1) as nat) =~= seq![]);
                    assert(before + rest =~= out@ + output_values(self@.cells, args@, (i + 1) as nat));
                    i = i + 1;
                } else {
                    let value = self.cells[args[i] as usize].wrapping_mul(10).wrapping_add(
                        self.cells[args[i + 1] as usize],
                    );
                    let byte: u8 = #[verifier::truncate] (value as u8);
                    out.push(byte);
                    assert(rest =~= seq![byte] + output_values(self@.cells, args@, (i + 2) as nat));
                    assert(before + rest =~= out@ + output_values(self@.cells, args@, (i + 2) as nat));
                    i = i + 2;
                }
            }
            assert(output_values(self@.cells, args@, i as nat) =~= seq![]);
            assert(out@ =~= old(out)@ + output_values(self@.cells, args@, 0));
        }
        self.post_func_exec(f, args);
        true
    }
}

#[derive(Debug, PartialEq, Eq, Clone, Copy, Structural)]
pub enum Status {
    Running,
    /// The program ran to its end and exits with 0.
    Success,
    /// A runtime check failed; the program exits with 1.
    Failure,
    /// The run was cut off after the allowed number of steps.
    OutOfFuel,
}

/// What a run of a program printed, and how it ended.
pub struct Run {
    pub output: Vec<u8>,
    pub status: Status,
}

/// A state of a run: the machine, the expression to run next, what has been
/// printed, how much input has been read, and whether the run goes on.
pub struct Config {
    pub m: MachineView,
    pub pc: nat,
    pub out: Seq<u8>,
    pub cursor: nat,
    pub status: Status,
}

pub open spec fn initial_config() -> Config {
    Config { m: initial(), pc: 0, out: seq![], cursor: 0, status: Status::Running }
}

/// The index of the first label named `name` from `k` on, or the length.
pub open spec fn label_from(exprs: Seq<AnyExpression>, name: Seq<char>, k: nat) -> nat
    decreases exprs.len() - k,
{
    if k >= exprs.len() {
        exprs.len()
    } else if exprs[k as int] is Label && exprs[k as int]->Label_0.label@ == name {
        k
    } else {
        label_from(exprs, name, k + 1)
    }
}

/// The cell on the right of a leach.
pub open spec fn leach_target(l: LeachExpression) -> u8 {
    l.right->Some_0.left->Cell_0.ident
}

/// The region changes recorded on a leach.
pub open spec fn leach_regions(l: LeachExpression) -> Seq<RegionExpression> {
    match l.region_change {
        Some(v) => v@,
        None => seq![],
    }
}

pub open spec fn next_config(c: Config, m: MachineView) -> Config {
    Config { m, pc: c.pc + 1, ..c }
}

pub open spec fn failed_config(c: Config, printed: Seq<u8>) -> Config {
    Config { out: c.out + printed, status: Status::Failure, ..c }
}

/// A leach on the machine: a primitive store, a cell copy or a call.
pub open spec fn leach_step(l: LeachExpression, c: Config, input: Seq<u8>) -> Config {
    let m = c.m;
    match l.left {
        Passive::Primitive(p) => {
            if !par_ok(m) {
                failed_config(c, bytes_of(par_msg(m)) + bytes_of(primitive_access_runtime_msg()))
            } else {
                let m1 = regions_spec(m, region_codes(leach_regions(l)));
                if m1.region != CELLS_REGION {
                    failed_config(c, bytes_of(cell_region_runtime_msg()))
                } else {
                    next_config(c, write_spec(m1, leach_target(l), store_value(p.pval)))
                }
            }
        },
        Passive::Cell(a) => {
            if l.is_chain {
                let f = a.ident;
                let args = chain_cells(*l.right->Some_0);
                if !fvr_ok(m, f) {
                    failed_config(c, bytes_of(fvr_fail_msg(m, f)))
                } else {
                    Config {
                        m: post_exec_spec(call_effect(m, f, args, input, c.cursor), f, args),
                        pc: c.pc + 1,
                        out: c.out + call_output(m, f, args),
                        cursor: cursor_after(m.cells[f as int], input, c.cursor),
                        status: Status::Running,
                    }
                }
            } else if m.ttl[a.ident as int] == 0 {
                failed_config(c, bytes_of(death_leach_runtime_msg()))
            } else {
                next_config(c, copy_spec(m, a.ident, leach_target(l)))
            }
        },
    }
}

/// One expression of the program run on the machine.
pub open spec fn step_spec(exprs: Seq<AnyExpression>, c: Config, input: Seq<u8>) -> Config {
    let m = c.m;
    match exprs[c.pc as int] {
        AnyExpression::Cell(_) => if m.region == CELLS_REGION {
            next_config(c, m)
        } else {
            failed_config(c, bytes_of(cell_region_runtime_msg()))
        },
        AnyExpression::Primitive(_) => if par_ok(m) {
            next_config(c, m)
        } else {
            failed_config(c, bytes_of(par_msg(m)))
        },
        AnyExpression::Region(r) => next_config(c, region_spec(m, region_code(r.to))),
        AnyExpression::Drill(_) => if m.region == LAYERS_REGION {
            next_config(c, sur(dgr(m), false))
        } else {
            failed_config(c, bytes_of(gate_region_runtime_msg()))
        },
        AnyExpression::Label(_) => next_config(c, m),
        AnyExpression::Dummy(_) => next_config(c, m),
        AnyExpression::Jump(j) => {
            let t = label_from(exprs, j.to@, 0);
            if t >= exprs.len() {
                Config { status: Status::Failure, ..c }
            } else {
                let taken = !j.conditional || m.cells[0] == 0;
                Config { m: sur(m, true), pc: if taken { t } else { c.pc + 1 }, ..c }
            }
        },
        AnyExpression::Leach(l) => leach_step(l, c, input),
    }
}

/// A run of at most `fuel` steps from `c`.
pub open spec fn run_spec(exprs: Seq<AnyExpression>, c: Config, input: Seq<u8>, fuel: nat) -> Config
    decreases fuel,
{
    if c.status != Status::Running {
        c
    } else if c.pc >= exprs.len() {
        Config { status: Status::Success, ..c }
    } else if fuel == 0 {
        Config { status: Status::OutOfFuel, ..c }
    } else {
        run_spec(exprs, step_spec(exprs, c, input), input, (fuel - 1) as nat)
    }
}

/// The expressions of a program, head first.
pub fn expressions_of(program: OrganismExpression, v: &mut Vec<AnyExpression>)
    ensures
        final(v)@ == old(v)@ + flatten(program),
    decreases program,
{
    let OrganismExpression { child, right } = program;
    v.push(child);
    match right {
        Some(next) => {
            expressions_of(*next, v);
            assert(v@ =~= old(v)@ + flatten(program));
        },
        None => {
            assert(v@ =~= old(v)@ + flatten(program));
        },
    }
}

fn find_label(exprs: &Vec<AnyExpression>, name: &String) -> (r: usize)
    ensures
        r == label_from(exprs@, name@, 0),
{
    let mut k: usize = 0;
    while k < exprs.len()
        invariant
            k <= exprs.len(),
            label_from(exprs@, name@, 0) == label_from(exprs@, name@, k as nat),
        decreases exprs.len() - k,
    {
        match &exprs[k] {
            AnyExpression::Label(l) => {
                if l.label == *name {
                    return k;
                }
            },
            _ => {},
        }
        k = k + 1;
    }
    k
}

/// Runs a parsed program on the machine, reading `input` where the program
/// calls Input, for at most `fuel` steps.
pub fn execute(program: OrganismExpression, input: &Vec<u8>, fuel: u64) -> (r: Run)
    requires
        forall|e: AnyExpression| #[trigger] flatten(program).contains(e) ==> expr_wf(e),
    ensures
        r.status == run_spec(flatten(program), initial_config(), input@, fuel as nat).status,
        r.output@ == run_spec(flatten(program), initial_config(), input@, fuel as nat).out,
        r.status != Status::Running,
{
    let ghost prog = flatten(program);
    let mut exprs: Vec<AnyExpression> = Vec::new();
    expressions_of(program, &mut exprs);
    assert(exprs@ =~= prog);
    let mut m = Machine::new();
    let mut pc: usize = 0;
    let mut out: Vec<u8> = Vec::new();
    let mut cursor: usize = 0;
    let mut fuel_left = fuel;
    loop
        invariant
            exprs@ == prog,
            prog == flatten(program),
            forall|e: AnyExpression| #[trigger] prog.contains(e) ==> expr_wf(e),
            m@.wf(),
            cursor <= input.len(),
            run_spec(prog, initial_config(), input@, fuel as nat) == run_spec(
                prog,
                Config { m: m@, pc: pc as nat, out: out@, cursor: cursor as nat, status: Status::Running },
                input@,
                fuel_left as nat,
            ),
        decreases fuel_left,
    {
        let ghost c = Config { m: m@, pc: pc as nat, out: out@, cursor: cursor as nat, status: Status::Running };
        let ghost f0 = fuel_left as nat;
        if pc >= exprs.len() {
            assert(run_spec(prog, c, input@, f0) == Config { status: Status::Success, ..c });
            return Run { output: out, status: Status::Success };
        }
        if fuel_left == 0 {
            assert(run_spec(prog, c, input@, f0) == Config { status: Status::OutOfFuel, ..c });
            return Run { output: out, status: Status::OutOfFuel };
        }
        fuel_left = fuel_left - 1;
        assert(run_spec(prog, c, input@, f0) == run_spec(prog, step_spec(prog, c, input@), input@, fuel_left as nat));
        assert(prog.contains(prog[pc as int]));
        assert(expr_wf(prog[pc as int]));
        let ok = match &exprs[pc] {
            AnyExpression::Cell(_) => m.run_lone_cell(&mut out),
            AnyExpression::Primitive(_) => m.run_lone_primitive(&mut out),
            AnyExpression::Region(r) => {
                m.run_region(r.to);
                true
            },
            AnyExpression::Drill(_) => m.run_drill(&mut out),
            AnyExpression::Label(_) => true,
            AnyExpression::Dummy(_) => true,
            AnyExpression::Jump(j) => {
                let t = find_label(&exprs, &j.to);
                if t >= exprs.len() {
                    assert(step_spec(prog, c, input@) == Config { status: Status::Failure, ..c });
                    return Run { output: out, status: Status::Failure };
                }
                let taken = !j.conditional || m.cells[0] == 0;
                m.state_update(true);
                if taken {
                    pc = t;
                } else {
                    pc = pc + 1;
                }
                continue;
            },
            AnyExpression::Leach(l) => {
                match &l.left {
                    Passive::Primitive(p) => {
                        let target = match &l.right {
                            Some(r) => {
                                assert(leach_wf(**r));
                                match &r.left {
                                    Passive::Cell(cell) => cell.ident,
                                    Passive::Primitive(_) => 0,
                                }
                            },
                            None => 0,
                        };
                        let no_regions: Vec<RegionExpression> = Vec::new();
                        let regions = match &l.region_change {
                            Some(v) => v,
                            None => &no_regions,
                        };
                        assert(regions@ == leach_regions(*l));
                        m.run_store_primitive(p.pval, target, regions, &mut out)
                    },
                    Passive::Cell(a) => {
                        if l.is_chain {
                            let mut args: Vec<u8> = Vec::new();
                            match &l.right {
                                Some(r) => {
                                    proof { lemma_chain_cells(**r); }
                                    collect_chain(r, &mut args);
                                    assert(args@ =~= chain_cells(**r));
                                },
                                None => {},
                            }
                            m.run_function_call(a.ident, &args, input, &mut cursor, &mut out)
                        } else {
                            let target = match &l.right {
                                Some(r) => {
                                    assert(leach_wf(**r));
                                    match &r.left {
                                        Passive::Cell(cell) => cell.ident,
                                        Passive::Primitive(_) => 0,
                                    }
                                },
                                None => 0,
                            };
                            m.run_cell_copy(a.ident, target, &mut out)
                        }
                    },
                }
            },
        };
        if !ok {
            return Run { output: out, status: Status::Failure };
        }
        pc = pc + 1;
    }
}

/// Compiles a source and runs it on the machine: the source's diagnostic
/// where it does not compile, else how the run went.
pub fn run_source(source: &str, input: &Vec<u8>, fuel: u64) -> (r: Result<Run, String>)
    requires
        source@.len() < i32::MAX,
    ensures
        lex(source@) is Err ==> r is Err && r->Err_0@ == lex(source@)->Err_0,
        lex(source@) is Ok && parse_spec(lex(source@)->Ok_0) is Err ==> r is Err && r->Err_0@
            == parse_spec(lex(source@)->Ok_0)->Err_0,
        lex(source@) is Ok && parse_spec(lex(source@)->Ok_0) is Ok ==> r is Ok && exists|
            p: OrganismExpression,
        |
            exprs_model(flatten(p)) == parse_spec(lex(source@)->Ok_0)->Ok_0.0 && (forall|
                e: AnyExpression,
            | #[trigger] flatten(p).contains(e) ==> expr_wf(e)) && r->Ok_0.output@ == run_spec(
                flatten(p),
                initial_config(),
                input@,
                fuel as nat,
            ).out && r->Ok_0.status == run_spec(flatten(p), initial_config(), input@, fuel as nat).status,
        r is Ok ==> r->Ok_0.status != Status::Running,
{
    let tokens = match tokenize(source) {
        Ok(t) => t,
        Err(e) => {
            return Err(e);
        },
    };
    let mut parser = Parser::new(tokens);
    let (program, _labels) = match parser.parse() {
        Ok(p) => p,
        Err(e) => {
            return Err(e);
        },
    };
    let ghost parsed = program;
    let run = execute(program, input, fuel);
    assert(exprs_model(flatten(parsed)) == parse_spec(lex(source@)->Ok_0)->Ok_0.0);
    Ok(run)
}

} // verus!
