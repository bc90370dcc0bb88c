//! The machine that a compiled Mindbend program runs on: fifteen cells, their
//! times to live, the current region, the Layers gates and the time the
//! gates stay open; and the routines that a compiled program calls on it.

use vstd::prelude::*;

verus! {

pub const CELL_COUNT: usize = 15;

/// The time to live that a freshly written cell gets.
pub const FRESH_TTL: u8 = 5;

/// How many steps the gates stay open once the third is drilled.
pub const GATES_OPEN_TICKS: u8 = 5;

pub const ALL_GATES_OPEN: u8 = 3;

/// `curr_region` for the Cells region; 1 stands for the Layers.
pub const CELLS_REGION: u8 = 0;

pub const LAYERS_REGION: u8 = 1;

/// What a cell holds when nothing lives in it.
pub const EMPTY_CELL: i32 = -1;

pub struct Machine {
    pub cells: Vec<i32>,
    pub ttl_table: Vec<u8>,
    pub curr_region: u8,
    pub curr_gates_state: u8,
    pub gates_ttso: u8,
}

/// The machine as values.
pub struct MachineView {
    pub cells: Seq<i32>,
    pub ttl: Seq<u8>,
    pub region: u8,
    pub gates: u8,
    pub ttso: u8,
}

impl View for Machine {
    type V = MachineView;

    open spec fn view(&self) -> MachineView {
        MachineView {
            cells: self.cells@,
            ttl: self.ttl_table@,
            region: self.curr_region,
            gates: self.curr_gates_state,
            ttso: self.gates_ttso,
        }
    }
}

impl MachineView {
    /// Fifteen cells with fifteen times to live, a region that is one of
    /// the two, and a gate state of at most three.
    pub open spec fn wf(self) -> bool {
        &&& self.cells.len() == CELL_COUNT
        &&& self.ttl.len() == CELL_COUNT
        &&& self.region <= LAYERS_REGION
        &&& self.gates <= ALL_GATES_OPEN
    }
}

/// The state a program starts in: every cell empty and dead, in the Cells
/// region, every gate closed.
pub open spec fn initial() -> MachineView {
    MachineView {
        cells: Seq::new(CELL_COUNT as nat, |i: int| EMPTY_CELL),
        ttl: Seq::new(CELL_COUNT as nat, |i: int| 0u8),
        region: CELLS_REGION,
        gates: 0,
        ttso: 0,
    }
}

/// One tick of the state update routine. With `reduce_ttso` the gates' time
/// to stay open goes down by one, and the gates close when it reaches zero.
/// Every living cell's time to live goes down by one, and a cell whose time
/// runs out is emptied.
pub open spec fn sur(m: MachineView, reduce_ttso: bool) -> MachineView {
    let ttso: u8 = if reduce_ttso && m.ttso > 0 { (m.ttso - 1) as u8 } else { m.ttso };
    let gates: u8 = if reduce_ttso && m.ttso == 1 { 0 } else { m.gates };
    MachineView {
        cells: Seq::new(m.cells.len(), |i: int| if m.ttl[i] == 1 { EMPTY_CELL } else { m.cells[i] }),
        ttl: Seq::new(m.ttl.len(), |i: int| if m.ttl[i] > 0 { (m.ttl[i] - 1) as u8 } else { 0u8 }),
        region: m.region,
        gates,
        ttso,
    }
}

/// `n` ticks of the state update routine, each reducing the gates' time.
pub open spec fn sur_times(m: MachineView, n: nat) -> MachineView
    decreases n,
{
    if n == 0 {
        m
    } else {
        sur(sur_times(m, (n - 1) as nat), true)
    }
}

/// Ticks keep the machine well formed and its region as it was.
pub proof fn lemma_sur_times_region(m: MachineView, n: nat)
    requires
        m.wf(),
    ensures
        sur_times(m, n).wf(),
        sur_times(m, n).region == m.region,
    decreases n,
{
    if n > 0 {
        lemma_sur_times_region(m, (n - 1) as nat);
    }
}

/// `ttl` with the first `k` arguments' times set to zero.
pub open spec fn kill_args(ttl: Seq<u8>, args: Seq<u8>, k: nat) -> Seq<u8>
    decreases k,
{
    if k == 0 {
        ttl
    } else {
        kill_args(ttl, args, (k - 1) as nat).update(args[k - 1] as int, 0)
    }
}

/// The ticks and deaths after a call of the function in cell `f`: one tick
/// per argument, every argument but the last dies, the function's cell dies,
/// and the last argument, which holds the result, gets a fresh time to live.
pub open spec fn post_exec_spec(m: MachineView, f: u8, args: Seq<u8>) -> MachineView {
    let t = sur_times(m, args.len());
    let last = args[args.len() - 1] as int;
    MachineView {
        ttl: kill_args(t.ttl, args, (args.len() - 1) as nat).update(f as int, 0).update(last, FRESH_TTL),
        ..t
    }
}

/// The drill gate routine on a machine in the Layers: one more gate opens,
/// and opening the third starts the gates' time to stay open.
pub open spec fn dgr(m: MachineView) -> MachineView {
    if m.gates < ALL_GATES_OPEN {
        let gates = (m.gates + 1) as u8;
        MachineView {
            gates,
            ttso: if gates == ALL_GATES_OPEN { GATES_OPEN_TICKS } else { m.ttso },
            ..m
        }
    } else {
        m
    }
}

/// A tick decays every time to live, and the gates' time, by at most one;
/// a cell whose time runs out is emptied; nothing else changes.
pub proof fn lemma_tick_decays(m: MachineView, reduce_ttso: bool)
    requires
        m.wf(),
    ensures
        sur(m, reduce_ttso).wf(),
        forall|i: int|
            0 <= i < CELL_COUNT ==> {
                let t = #[trigger] sur(m, reduce_ttso).ttl[i];
                &&& t <= m.ttl[i] <= t + 1
                &&& (t == 0 ==> m.ttl[i] <= 1)
                &&& (t == 0 && m.ttl[i] == 1 ==> sur(m, reduce_ttso).cells[i] == EMPTY_CELL)
                &&& (t > 0 ==> sur(m, reduce_ttso).cells[i] == m.cells[i])
            },
        sur(m, reduce_ttso).ttso <= m.ttso <= sur(m, reduce_ttso).ttso + 1,
        sur(m, reduce_ttso).region == m.region,
{
}

/// A tick that does not reduce the gates' time (the one after a drill) leaves
/// that time and the gates as they were, and still decays every living cell.
pub proof fn lemma_drill_tick_keeps_gates_time(m: MachineView)
    requires
        m.wf(),
    ensures
        sur(m, false).ttso == m.ttso,
        sur(m, false).gates == m.gates,
        forall|i: int|
            0 <= i < CELL_COUNT ==> #[trigger] sur(m, false).ttl[i] == if m.ttl[i] > 0 {
                m.ttl[i] - 1
            } else {
                0
            },
{
}

impl Machine {
    pub fn new() -> (r: Machine)
        ensures
            r@ == initial(),
    {
        let mut cells: Vec<i32> = Vec::new();
        let mut ttl_table: Vec<u8> = Vec::new();
        let mut i: usize = 0;
        while i < CELL_COUNT
            invariant
                i <= CELL_COUNT,
                cells@ == Seq::new(i as nat, |k: int| EMPTY_CELL),
                ttl_table@ == Seq::new(i as nat, |k: int| 0u8),
            decreases CELL_COUNT - i,
        {
            cells.push(EMPTY_CELL);
            ttl_table.push(0);
            i = i + 1;
            assert(cells@ =~= Seq::new(i as nat, |k: int| EMPTY_CELL));
            assert(ttl_table@ =~= Seq::new(i as nat, |k: int| 0u8));
        }
        Machine { cells, ttl_table, curr_region: CELLS_REGION, curr_gates_state: 0, gates_ttso: 0 }
    }

    /// The state update routine (one tick).
    pub fn state_update(&mut self, reduce_ttso: bool)
        requires
            old(self)@.wf(),
        ensures
            final(self)@ == sur(old(self)@, reduce_ttso),
            final(self)@.wf(),
    {
        if reduce_ttso && self.gates_ttso > 0 {
            self.gates_ttso = self.gates_ttso - 1;
            if self.gates_ttso == 0 {
                self.curr_gates_state = 0;
            }
        }
        let ghost start = self@;
        let mut i: usize = 0;
        while i < CELL_COUNT
            invariant
                0 <= i <= CELL_COUNT,
                start.wf(),
                old(self)@.wf(),
                self.cells@.len() == CELL_COUNT,
                self.ttl_table@.len() == CELL_COUNT,
                self.curr_region == start.region,
                self.curr_gates_state == start.gates,
                self.gates_ttso == start.ttso,
                forall|k: int| 0 <= k < i ==> self.ttl_table@[k] == sur(old(self)@, reduce_ttso).ttl[k],
                forall|k: int| 0 <= k < i ==> self.cells@[k] == sur(old(self)@, reduce_ttso).cells[k],
                forall|k: int| i <= k < CELL_COUNT ==> self.ttl_table@[k] == old(self)@.ttl[k],
                forall|k: int| i <= k < CELL_COUNT ==> self.cells@[k] == old(self)@.cells[k],
            decreases CELL_COUNT - i,
        {
            if self.ttl_table[i] > 0 {
                let t = self.ttl_table[i] - 1;
                self.ttl_table.set(i, t);
                if t == 0 {
                    self.cells.set(i, EMPTY_CELL);
                }
            }
            i = i + 1;
        }
        assert(self@.cells =~= sur(old(self)@, reduce_ttso).cells);
        assert(self@.ttl =~= sur(old(self)@, reduce_ttso).ttl);
    }

    /// The primitive access routine: 0 where a primitive may be touched (in
    /// the Layers, with every gate open), else 1.
    pub fn primitive_access(&self) -> (r: i32)
        ensures
            r == if self.curr_region == LAYERS_REGION && self.curr_gates_state == ALL_GATES_OPEN {
                0i32
            } else {
                1i32
            },
    {
        if self.curr_region == LAYERS_REGION && self.curr_gates_state == ALL_GATES_OPEN {
            0
        } else {
            1
        }
    }

    /// The cell access routine: 0 in the Cells region, else 1.
    pub fn cell_access(&self) -> (r: i32)
        ensures
            r == if self.curr_region == CELLS_REGION { 0i32 } else { 1i32 },
    {
        if self.curr_region == CELLS_REGION {
            0
        } else {
            1
        }
    }

    /// The drill gate routine: outside the Layers it fails (1) and changes
    /// nothing; in the Layers it opens one more gate.
    pub fn drill_gate(&mut self) -> (r: i32)
        requires
            old(self)@.wf(),
        ensures
            old(self).curr_region != LAYERS_REGION ==> r == 1 && final(self)@ == old(self)@,
            old(self).curr_region == LAYERS_REGION ==> r == 0 && final(self)@ == dgr(old(self)@),
            final(self)@.wf(),
    {
        if self.curr_region != LAYERS_REGION {
            return 1;
        }
        if self.curr_gates_state < ALL_GATES_OPEN {
            self.curr_gates_state = self.curr_gates_state + 1;
            if self.curr_gates_state == ALL_GATES_OPEN {
                self.gates_ttso = GATES_OPEN_TICKS;
            }
        }
        0
    }

    /// The expression life validation routine: 0 where the cell's expression
    /// is alive, else 1.
    pub fn expression_life_validation(&self, cell_num: u8) -> (r: i32)
        requires
            self@.wf(),
            cell_num < CELL_COUNT,
        ensures
            r == if self@.ttl[cell_num as int] != 0 { 0i32 } else { 1i32 },
    {
        if self.ttl_table[cell_num as usize] != 0 {
            0
        } else {
            1
        }
    }

    /// The function validation routine: 0 where the cell holds a living
    /// function primitive (an index from 0 to 3), else 1.
    pub fn function_validation(&self, cell_num: u8) -> (r: i32)
        requires
            self@.wf(),
            cell_num < CELL_COUNT,
        ensures
            r == if self@.ttl[cell_num as int] != 0 && 0 <= self@.cells[cell_num as int] <= 3 {
                0i32
            } else {
                1i32
            },
    {
        if self.ttl_table[cell_num as usize] == 0 {
            return 1;
        }
        let v = self.cells[cell_num as usize];
        if 0 <= v && v <= 3 {
            0
        } else {
            1
        }
    }

    /// Writes `value` into a cell; its time to live stays as it was.
    pub fn set_cell(&mut self, cell_num: u8, value: i32)
        requires
            old(self)@.wf(),
            cell_num < CELL_COUNT,
        ensures
            final(self)@ == (MachineView { cells: old(self)@.cells.update(cell_num as int, value), ..old(self)@ }),
    {
        self.cells.set(cell_num as usize, value);
    }

    pub fn set_ttl(&mut self, cell_num: u8, ttl: u8)
        requires
            old(self)@.wf(),
            cell_num < CELL_COUNT,
        ensures
            final(self)@ == (MachineView { ttl: old(self)@.ttl.update(cell_num as int, ttl), ..old(self)@ }),
    {
        self.ttl_table.set(cell_num as usize, ttl);
    }

    /// What follows a function call on `args`: one tick per argument, every
    /// argument but the last and the function's own cell die, and the last
    /// argument, which holds the result, gets a fresh time to live.
    pub fn post_func_exec(&mut self, func_cell: u8, args: &Vec<u8>)
        requires
            old(self)@.wf(),
            func_cell < CELL_COUNT,
            args.len() >= 1,
            forall|k: int| 0 <= k < args.len() ==> args@[k] < CELL_COUNT,
        ensures
            final(self)@.wf(),
            final(self)@ == post_exec_spec(old(self)@, func_cell, args@),
            final(self)@.region == old(self)@.region,
    {
        let mut n: usize = 0;
        while n < args.len()
            invariant
                n <= args.len(),
                self@.wf(),
                self@ == sur_times(old(self)@, n as nat),
            decreases args.len() - n,
        {
            self.state_update(true);
            n = n + 1;
        }
        proof { lemma_sur_times_region(old(self)@, args.len() as nat); }
        let ghost ticked = self@;
        let last = args.len() - 1;
        let mut k: usize = 0;
        while k < last
            invariant
                k <= last,
                last == args.len() - 1,
                forall|j: int| 0 <= j < args.len() ==> args@[j] < CELL_COUNT,
                self@.wf(),
                self@.cells == ticked.cells,
                self@.region == ticked.region,
                self@.gates == ticked.gates,
                self@.ttso == ticked.ttso,
                self@.ttl == kill_args(ticked.ttl, args@, k as nat),
            decreases last - k,
        {
            self.set_ttl(args[k], 0);
            k = k + 1;
        }
        self.set_ttl(func_cell, 0);
        self.set_ttl(args[last], FRESH_TTL);
    }
}

} // verus!
