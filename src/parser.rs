//! Builds the syntax tree from tokens and checks what can be checked before
//! the program runs: regions, gates, cells within a leach, labels and jumps.

use vstd::prelude::*;
use vstd::string::*;
use crate::ast::{
    any_repr, bool_text, decimal_text, passive_repr, leach_repr, organism_repr, chain_cells, cell_number, cell_value, flatten, is_cell_char, AnyExpression, CellExpression, DrillExpression,
    DummyExpression, JumpExpression, LabelExpression, LeachExpression, OrganismExpression, Passive,
    PrimitiveExpression, PrimitiveValue, Region, RegionExpression,
};
use crate::errors::{
    attempt_to_jump_to_non_existent_label_msg, attempt_to_leach_expr_onto_itself_msg,
    chain_leach_expression_ending_without_chain_leach_expression_msg,
    chained_leach_expression_must_end_in_massacre_msg, drill_in_cells_msg, duplicate_label_msg,
    expected_cell_expression_after_msg, expected_cell_expression_msg, invalid_cell_access_region_msg,
    invalid_primitive_access_gates_msg, invalid_primitive_access_region_msg, invalid_primitive_msg,
    leach_expression_must_start_with_primitive_or_cell_msg, triple_six_eq_not_expected_here_msg,
    triple_six_not_expected_here_msg, unrecognized_cell_msg, unrecognized_region_msg,
    err_attempt_to_jump_to_non_existent_label, err_attempt_to_leach_expr_onto_itself,
    err_chain_leach_expression_ending_without_chain_leach_expression,
    err_chained_leach_expression_must_end_in_massacre, err_drill_in_cells, err_duplicate_label,
    err_expected_cell_expression, err_expected_cell_expression_after,
    err_invalid_cell_access_region, err_invalid_primitive, err_invalid_primitive_access_gates,
    err_invalid_primitive_access_region, err_leach_expression_must_start_with_primitive_or_cell,
    err_triple_six_eq_not_expected_here, err_triple_six_not_expected_here, err_unrecognized_cell,
    err_unrecognized_region,
};
use crate::lexer::{Token, TokenModel};

verus! {

#[derive(Debug, PartialEq, Eq, Clone, Copy, Structural)]
enum LayersGatesState {
    AllClose,
    OneOpen,
    TwoOpen,
    ThreeOpen,
}

pub struct Parser {
    tokens: Vec<Token>,
    next: usize,
    curr_region: Region,
    layers_gates_state: LayersGatesState,
    encountered_jumps: Vec<(usize, String)>,
    encountered_labels: Vec<(usize, String)>,
}

/// The value that a primitive's symbol or index names (both forms of the table).
pub open spec fn primitive_of(s: Seq<char>) -> Option<PrimitiveValue> {
    if s == seq!['>', '<'] {
        Some(PrimitiveValue::Output)
    } else if s == seq!['<', '>'] {
        Some(PrimitiveValue::Input)
    } else if s.len() != 1 {
        None
    } else {
        let c = s[0];
        if c == '!' || c == 'D' {
            Some(PrimitiveValue::One)
        } else if c == '@' || c == 'C' {
            Some(PrimitiveValue::Two)
        } else if c == '#' || c == 'B' {
            Some(PrimitiveValue::Three)
        } else if c == '+' || c == 'A' {
            Some(PrimitiveValue::Four)
        } else if c == '%' || c == '9' {
            Some(PrimitiveValue::Five)
        } else if c == '`' || c == '8' {
            Some(PrimitiveValue::Six)
        } else if c == '&' || c == '7' {
            Some(PrimitiveValue::Seven)
        } else if c == '*' || c == '6' {
            Some(PrimitiveValue::Eight)
        } else if c == '(' || c == '5' {
            Some(PrimitiveValue::Nine)
        } else if c == ')' || c == '4' {
            Some(PrimitiveValue::Zero)
        } else if c == '2' {
            Some(PrimitiveValue::Output)
        } else if c == '3' {
            Some(PrimitiveValue::Input)
        } else if c == '}' || c == '1' {
            Some(PrimitiveValue::Addition)
        } else if c == '{' || c == '0' {
            Some(PrimitiveValue::Subtraction)
        } else {
            None
        }
    }
}

pub fn primitive_value(ident: &String) -> (r: Option<PrimitiveValue>)
    ensures
        r == primitive_of(ident@),
{
    let s = ident.as_str();
    let n = s.unicode_len();
    if n == 2 {
        let a = s.get_char(0);
        let b = s.get_char(1);
        if a == '>' && b == '<' {
            assert(ident@ =~= seq!['>', '<']);
            return Some(PrimitiveValue::Output);
        }
        if a == '<' && b == '>' {
            assert(ident@ =~= seq!['<', '>']);
            return Some(PrimitiveValue::Input);
        }
        assert(ident@ != seq!['>', '<']);
        assert(ident@ != seq!['<', '>']);
        return None;
    }
    if n != 1 {
        assert(ident@.len() != 2);
        return None;
    }
    let c = s.get_char(0);
    if c == '!' || c == 'D' {
        Some(PrimitiveValue::One)
    } else if c == '@' || c == 'C' {
        Some(PrimitiveValue::Two)
    } else if c == '#' || c == 'B' {
        Some(PrimitiveValue::Three)
    } else if c == '+' || c == 'A' {
        Some(PrimitiveValue::Four)
    } else if c == '%' || c == '9' {
        Some(PrimitiveValue::Five)
    } else if c == '`' || c == '8' {
        Some(PrimitiveValue::Six)
    } else if c == '&' || c == '7' {
        Some(PrimitiveValue::Seven)
    } else if c == '*' || c == '6' {
        Some(PrimitiveValue::Eight)
    } else if c == '(' || c == '5' {
        Some(PrimitiveValue::Nine)
    } else if c == ')' || c == '4' {
        Some(PrimitiveValue::Zero)
    } else if c == '2' {
        Some(PrimitiveValue::Output)
    } else if c == '3' {
        Some(PrimitiveValue::Input)
    } else if c == '}' || c == '1' {
        Some(PrimitiveValue::Addition)
    } else if c == '{' || c == '0' {
        Some(PrimitiveValue::Subtraction)
    } else {
        None
    }
}

/// The region that a region identifier names.
pub open spec fn region_of(s: Seq<char>) -> Option<Region> {
    if s == seq!['C'] {
        Some(Region::Cells)
    } else if s == seq!['L'] {
        Some(Region::Layers)
    } else {
        None
    }
}

fn region_value(ident: &String) -> (r: Option<Region>)
    ensures
        r == region_of(ident@),
{
    let s = ident.as_str();
    if s.unicode_len() != 1 {
        assert(ident@ != seq!['C'] && ident@ != seq!['L']);
        return None;
    }
    let c = s.get_char(0);
    if c == 'C' {
        assert(ident@ =~= seq!['C']);
        Some(Region::Cells)
    } else if c == 'L' {
        assert(ident@ =~= seq!['L']);
        Some(Region::Layers)
    } else {
        assert(ident@ != seq!['C'] && ident@ != seq!['L']);
        None
    }
}

/// The cell that an identifier names, where it names one.
pub open spec fn cell_of(s: Seq<char>) -> Option<u8> {
    if s.len() == 1 && is_cell_char(s[0]) {
        Some(cell_number(s[0]))
    } else {
        None
    }
}

fn cell_ident_value(ident: &String) -> (r: Option<u8>)
    ensures
        r == cell_of(ident@),
        r is Some ==> r->Some_0 < 15,
{
    let s = ident.as_str();
    if s.unicode_len() != 1 {
        return None;
    }
    let c = s.get_char(0);
    if ('0' <= c && c <= '9') || ('A' <= c && c <= 'E') {
        Some(cell_value(c))
    } else {
        None
    }
}

fn copy_string(s: &String) -> (r: String)
    ensures
        r@ == s@,
{
    s.clone()
}

/// The name of a label token.
pub open spec fn label_name(t: TokenModel) -> Seq<char> {
    t->Label_0
}

/// The target of a jump token, conditional or not.
pub open spec fn jump_target(t: TokenModel) -> Seq<char> {
    match t {
        TokenModel::Jump(n) => n,
        TokenModel::ConditionalJump(n) => n,
        _ => seq![],
    }
}

pub open spec fn is_jump(t: TokenModel) -> bool {
    t is Jump || t is ConditionalJump
}

/// The names of the label tokens among `ts`, in order.
pub open spec fn label_names(ts: Seq<TokenModel>) -> Seq<Seq<char>>
    decreases ts.len(),
{
    if ts.len() == 0 {
        seq![]
    } else if ts.last() is Label {
        label_names(ts.drop_last()).push(label_name(ts.last()))
    } else {
        label_names(ts.drop_last())
    }
}

/// No name stands twice.
pub open spec fn distinct(names: Seq<Seq<char>>) -> bool {
    forall|a: int, b: int| 0 <= a < b < names.len() ==> names[a] != names[b]
}

/// The views of a list of names.
pub open spec fn names_of(v: Seq<String>) -> Seq<Seq<char>> {
    v.map_values(|s: String| s@)
}

/// Every expression of a parsed program is well formed: cells are among the
/// fifteen, and each leach has a cell on its right.
pub open spec fn leach_wf(l: LeachExpression) -> bool
    decreases l,
{
    &&& match l.left {
        Passive::Cell(c) => c.ident < 15,
        Passive::Primitive(_) => true,
    }
    &&& match l.right {
        Some(r) => r.left is Cell && !r.is_chain && r.region_change is None && leach_wf(*r),
        None => true,
    }
}

pub open spec fn expr_wf(e: AnyExpression) -> bool {
    match e {
        AnyExpression::Cell(c) => c.ident < 15,
        AnyExpression::Leach(l) => l.right is Some && leach_wf(l),
        _ => true,
    }
}


/// A leach as values: its left side, the cells of the links after it, whether
/// it is a call, and the region changes written after a primitive.
pub struct LeachModel {
    pub left: Passive,
    pub cells: Seq<u8>,
    pub is_chain: bool,
    pub regions: Option<Seq<Region>>,
}

/// An expression as values.
pub enum ExprModel {
    Cell(u8),
    Primitive(PrimitiveValue),
    Leach(LeachModel),
    Region(Region),
    Drill,
    Label(Seq<char>),
    Jump(Seq<char>, bool),
    Dummy,
}

pub open spec fn leach_model(l: LeachExpression) -> LeachModel {
    LeachModel {
        left: l.left,
        cells: match l.right {
            Some(r) => chain_cells(*r),
            None => seq![],
        },
        is_chain: l.is_chain,
        regions: match l.region_change {
            Some(v) => Some(v@.map_values(|r: RegionExpression| r.to)),
            None => None,
        },
    }
}

pub open spec fn expr_model(e: AnyExpression) -> ExprModel {
    match e {
        AnyExpression::Cell(c) => ExprModel::Cell(c.ident),
        AnyExpression::Primitive(p) => ExprModel::Primitive(p.pval),
        AnyExpression::Leach(l) => ExprModel::Leach(leach_model(l)),
        AnyExpression::Region(r) => ExprModel::Region(r.to),
        AnyExpression::Drill(_) => ExprModel::Drill,
        AnyExpression::Label(l) => ExprModel::Label(l.label@),
        AnyExpression::Jump(j) => ExprModel::Jump(j.to@, j.conditional),
        AnyExpression::Dummy(_) => ExprModel::Dummy,
    }
}

pub open spec fn exprs_model(es: Seq<AnyExpression>) -> Seq<ExprModel> {
    es.map_values(|e: AnyExpression| expr_model(e))
}

/// What the parser knows between expressions: the region, how many gates
/// are open, and the labels and jumps read so far with their positions.
pub struct PState {
    pub region: Region,
    pub gates: nat,
    pub labels: Seq<(nat, Seq<char>)>,
    pub jumps: Seq<(nat, Seq<char>)>,
}

pub open spec fn init_pstate() -> PState {
    PState { region: Region::Cells, gates: 0, labels: seq![], jumps: seq![] }
}

/// The first index from `i` on that holds no region identifier.
pub open spec fn region_run_end(ts: Seq<TokenModel>, i: nat) -> nat
    decreases ts.len() - i,
{
    if i < ts.len() && ts[i as int] is RegionIdent {
        region_run_end(ts, i + 1)
    } else {
        i
    }
}

/// The regions that the identifiers from `i` up to `j` name, or the message
/// for the first that names none.
pub open spec fn run_regions(ts: Seq<TokenModel>, i: nat, j: nat) -> Result<Seq<Region>, Seq<char>>
    decreases j - i,
{
    if i >= j {
        Ok(seq![])
    } else {
        let r = ts[i as int]->RegionIdent_0;
        match region_of(r) {
            None => Err(unrecognized_region_msg(i + 1, r)),
            Some(g) => match run_regions(ts, i + 1, j) {
                Ok(rs) => Ok(seq![g] + rs),
                Err(m) => Err(m),
            },
        }
    }
}

pub open spec fn last_region(start: Region, rs: Seq<Region>) -> Region {
    if rs.len() == 0 {
        start
    } else {
        rs.last()
    }
}

/// The cells of a leach after the Tilde at index `j - 1` (position
/// `tilde_pos`): the cells read, whether a massacre ended them, and the index
/// after the leach.
pub open spec fn leach_run(ts: Seq<TokenModel>, j: nat, seen: Seq<u8>, tilde_pos: nat) -> Result<(Seq<u8>, bool, nat), Seq<char>>
    decreases ts.len() - j,
{
    if j >= ts.len() {
        Err(expected_cell_expression_after_msg(tilde_pos))
    } else if !(ts[j as int] is CellIdent) {
        Err(expected_cell_expression_msg(j + 1))
    } else {
        let c = ts[j as int]->CellIdent_0;
        match cell_of(c) {
            None => Err(unrecognized_cell_msg(j + 1, c)),
            Some(id) => if seen.contains(id) {
                Err(attempt_to_leach_expr_onto_itself_msg(j + 1))
            } else if j + 1 < ts.len() && ts[j + 1 as int] is Tilde {
                match leach_run(ts, j + 2, seen.push(id), j + 2) {
                    Ok((cs, m, n)) => Ok((seq![id] + cs, m, n)),
                    Err(e) => Err(e),
                }
            } else if j + 1 < ts.len() && ts[j + 1 as int] is TripleSixEqM {
                Ok((seq![id], true, j + 2))
            } else {
                Ok((seq![id], false, j + 1))
            },
        }
    }
}

/// A leach from cell `first` whose cells were read as `run`: more than one
/// cell after the first must end in a massacre.
pub open spec fn finish_leach(first: u8, run: Result<(Seq<u8>, bool, nat), Seq<char>>) -> Result<(LeachModel, nat), Seq<char>> {
    match run {
        Err(m) => Err(m),
        Ok((cs, massacre, next)) => if cs.len() > 1 && !massacre {
            Err(chained_leach_expression_must_end_in_massacre_msg(next))
        } else {
            Ok((LeachModel { left: Passive::Cell(CellExpression { ident: first }), cells: cs, is_chain: massacre, regions: None }, next))
        },
    }
}

/// A store from the primitive at `i` whose Tilde is at `j`.
pub open spec fn primitive_leach(ts: Seq<TokenModel>, i: nat, j: nat, v: PrimitiveValue, rs: Seq<Region>) -> Result<(LeachModel, nat), Seq<char>> {
    let k = j + 1;
    if k >= ts.len() {
        Err(expected_cell_expression_after_msg(i + 1))
    } else if !(ts[k as int] is CellIdent) {
        Err(expected_cell_expression_msg(k + 1))
    } else {
        let c = ts[k as int]->CellIdent_0;
        match cell_of(c) {
            None => Err(unrecognized_cell_msg(i + 1, c)),
            Some(id) => Ok((LeachModel { left: Passive::Primitive(PrimitiveExpression { pval: v }), cells: seq![id], is_chain: false, regions: Some(rs) }, k + 1)),
        }
    }
}

/// The position of the first label named `name`, if there is one.
pub open spec fn first_label_pos(labels: Seq<(nat, Seq<char>)>, name: Seq<char>, k: nat) -> Option<nat>
    decreases labels.len() - k,
{
    if k >= labels.len() {
        None
    } else if labels[k as int].1 == name {
        Some(labels[k as int].0)
    } else {
        first_label_pos(labels, name, k + 1)
    }
}

/// The position reported for a primitive that names no value.
pub open spec fn clamped_pos(pos: nat) -> int {
    if pos <= i32::MAX {
        pos as int
    } else {
        i32::MAX as int
    }
}

/// What parsing the expression that starts at index `i` does.
pub enum PStep {
    Fail(Seq<char>),
    Next(Option<ExprModel>, nat, PState),
}

pub open spec fn pstep(ts: Seq<TokenModel>, i: nat, st: PState) -> PStep {
    let pos = i + 1;
    match ts[i as int] {
        TokenModel::PrimitiveIdent(p) => if st.region != Region::Layers {
            PStep::Fail(invalid_primitive_access_region_msg(pos))
        } else if st.gates != 3 {
            PStep::Fail(invalid_primitive_access_gates_msg(pos))
        } else {
            match primitive_of(p) {
                None => PStep::Fail(invalid_primitive_msg(clamped_pos(pos))),
                Some(v) => {
                    let j = region_run_end(ts, i + 1);
                    match run_regions(ts, i + 1, j) {
                        Err(m) => PStep::Fail(m),
                        Ok(rs) => {
                            let st2 = PState { region: last_region(st.region, rs), ..st };
                            if j < ts.len() && ts[j as int] is Tilde {
                                match primitive_leach(ts, i, j, v, rs) {
                                    Err(m) => PStep::Fail(m),
                                    Ok((l, n)) => PStep::Next(Some(ExprModel::Leach(l)), n, st2),
                                }
                            } else {
                                PStep::Next(Some(ExprModel::Primitive(v)), i + 1, st2)
                            }
                        },
                    }
                },
            }
        },
        TokenModel::CellIdent(c) => if st.region != Region::Cells {
            PStep::Fail(invalid_cell_access_region_msg(pos))
        } else {
            match cell_of(c) {
                None => PStep::Fail(unrecognized_cell_msg(pos, c)),
                Some(id) => if i + 1 < ts.len() && ts[i + 1 as int] is Tilde {
                    match finish_leach(id, leach_run(ts, i + 2, seq![id], i + 2)) {
                        Err(m) => PStep::Fail(m),
                        Ok((l, n)) => PStep::Next(Some(ExprModel::Leach(l)), n, st),
                    }
                } else {
                    PStep::Next(Some(ExprModel::Cell(id)), i + 1, st)
                },
            }
        },
        TokenModel::RegionIdent(r) => match region_of(r) {
            None => PStep::Fail(unrecognized_region_msg(pos, r)),
            Some(g) => PStep::Next(Some(ExprModel::Region(g)), i + 1, PState { region: g, ..st }),
        },
        TokenModel::Drill => if st.region != Region::Layers {
            PStep::Fail(drill_in_cells_msg(pos))
        } else {
            PStep::Next(Some(ExprModel::Drill), i + 1, PState { gates: if st.gates < 3 { st.gates + 1 } else { 3 }, ..st })
        },
        TokenModel::Label(l) => match first_label_pos(st.labels, l, 0) {
            Some(first) => PStep::Fail(duplicate_label_msg(first, pos)),
            None => PStep::Next(Some(ExprModel::Label(l)), i + 1, PState { labels: st.labels.push((pos, l)), ..st }),
        },
        TokenModel::Jump(l) => PStep::Next(Some(ExprModel::Jump(l, false)), i + 1, PState { jumps: st.jumps.push((pos, l)), ..st }),
        TokenModel::ConditionalJump(l) => PStep::Next(Some(ExprModel::Jump(l, true)), i + 1, PState { jumps: st.jumps.push((pos, l)), ..st }),
        TokenModel::Tilde => PStep::Fail(leach_expression_must_start_with_primitive_or_cell_msg(pos)),
        TokenModel::TripleSixEqM => PStep::Fail(chain_leach_expression_ending_without_chain_leach_expression_msg(pos)),
        TokenModel::TripleSixEq => PStep::Fail(triple_six_eq_not_expected_here_msg(pos)),
        TokenModel::TripleSix => PStep::Fail(triple_six_not_expected_here_msg(pos)),
        TokenModel::TripleSixEqO => PStep::Next(if i + 1 >= ts.len() { Some(ExprModel::Dummy) } else { None }, i + 1, st),
    }
}

pub open spec fn opt_seq(e: Option<ExprModel>) -> Seq<ExprModel> {
    match e {
        Some(x) => seq![x],
        None => seq![],
    }
}

/// The expressions from index `i` on and the state at the end, or the first failure.
pub open spec fn parse_from(ts: Seq<TokenModel>, i: nat, st: PState) -> Result<(Seq<ExprModel>, PState), Seq<char>>
    decreases ts.len() - i,
{
    if i >= ts.len() {
        Ok((seq![], st))
    } else {
        match pstep(ts, i, st) {
            PStep::Fail(m) => Err(m),
            PStep::Next(e, j, st2) => {
                let next = if i < j <= ts.len() { j } else { i + 1 };
                match parse_from(ts, next, st2) {
                    Ok((es, fin)) => Ok((opt_seq(e) + es, fin)),
                    Err(m) => Err(m),
                }
            },
        }
    }
}

/// The position of the first jump whose target is no label, if there is one.
pub open spec fn first_unresolved(jumps: Seq<(nat, Seq<char>)>, labels: Seq<(nat, Seq<char>)>, k: nat) -> Option<nat>
    decreases jumps.len() - k,
{
    if k >= jumps.len() {
        None
    } else if first_label_pos(labels, jumps[k as int].1, 0) is None {
        Some(jumps[k as int].0)
    } else {
        first_unresolved(jumps, labels, k + 1)
    }
}

/// A whole parse: the expressions (a lone dummy for an empty program) and
/// the label names in order, or the first failure; jumps are resolved last.
pub open spec fn parse_spec(ts: Seq<TokenModel>) -> Result<(Seq<ExprModel>, Seq<Seq<char>>), Seq<char>> {
    match parse_from(ts, 0, init_pstate()) {
        Err(m) => Err(m),
        Ok((es, st)) => match first_unresolved(st.jumps, st.labels, 0) {
            Some(p) => Err(attempt_to_jump_to_non_existent_label_msg(p)),
            None => Ok((
                if es.len() == 0 { seq![ExprModel::Dummy] } else { es },
                st.labels.map_values(|l: (nat, Seq<char>)| l.1),
            )),
        },
    }
}

spec fn gate_count(g: LayersGatesState) -> nat {
    match g {
        LayersGatesState::AllClose => 0,
        LayersGatesState::OneOpen => 1,
        LayersGatesState::TwoOpen => 2,
        LayersGatesState::ThreeOpen => 3,
    }
}

/// `acc` put before the expressions of `r`.
pub open spec fn prepend_models(
    acc: Seq<ExprModel>,
    r: Result<(Seq<ExprModel>, PState), Seq<char>>,
) -> Result<(Seq<ExprModel>, PState), Seq<char>> {
    match r {
        Ok((es, st)) => Ok((acc + es, st)),
        Err(m) => Err(m),
    }
}

proof fn lemma_push_model(es: Seq<AnyExpression>, e: AnyExpression)
    ensures
        exprs_model(es.push(e)) == exprs_model(es) + opt_seq(Some(expr_model(e))),
{
    assert(exprs_model(es.push(e)) =~= exprs_model(es) + opt_seq(Some(expr_model(e))));
}

proof fn lemma_prepend_assoc(a: Seq<ExprModel>, b: Seq<ExprModel>, x: Result<(Seq<ExprModel>, PState), Seq<char>>)
    ensures
        prepend_models(a, prepend_models(b, x)) == prepend_models(a + b, x),
{
    if x is Ok {
        assert(a + (b + x->Ok_0.0) =~= (a + b) + x->Ok_0.0);
    }
}

/// `acc` put before the cells of a leach run.
pub open spec fn prefix_run(
    acc: Seq<u8>,
    r: Result<(Seq<u8>, bool, nat), Seq<char>>,
) -> Result<(Seq<u8>, bool, nat), Seq<char>> {
    match r {
        Ok((cs, m, n)) => Ok((acc + cs, m, n)),
        Err(e) => Err(e),
    }
}

/// `acc` put before the regions of `r`.
pub open spec fn prepend_regions(acc: Seq<Region>, r: Result<Seq<Region>, Seq<char>>) -> Result<Seq<Region>, Seq<char>> {
    match r {
        Ok(rs) => Ok(acc + rs),
        Err(m) => Err(m),
    }
}

pub open spec fn region_views(v: Seq<RegionExpression>) -> Seq<Region> {
    v.map_values(|r: RegionExpression| r.to)
}

/// The text of plain links holding `cells`, the first link outermost.
pub open spec fn chain_repr(cells: Seq<u8>) -> Seq<char>
    decreases cells.len(),
{
    if cells.len() == 0 {
        "None"@
    } else {
        "(left: "@ + decimal_text(cells[0]) + ", right: "@ + chain_repr(cells.drop_first())
            + ", is_chain: "@ + bool_text(false) + ")"@
    }
}

proof fn lemma_plain_links_repr(l: LeachExpression)
    requires
        leach_wf(l),
        l.left is Cell,
        !l.is_chain,
    ensures
        leach_repr(l) == chain_repr(chain_cells(l)),
    decreases l,
{
    let c = l.left->Cell_0;
    assert(passive_repr(l.left) == decimal_text(c.ident));
    match l.right {
        Some(r) => {
            lemma_plain_links_repr(*r);
            assert(chain_cells(l) == seq![c.ident] + chain_cells(*r));
            assert(chain_cells(l)[0] == c.ident);
            assert(chain_cells(l).drop_first() =~= chain_cells(*r));
            assert(leach_repr(l) == "(left: "@ + decimal_text(c.ident) + ", right: "@ + leach_repr(*r)
                + ", is_chain: "@ + bool_text(false) + ")"@);
            assert(chain_repr(chain_cells(l)) == "(left: "@ + decimal_text(c.ident) + ", right: "@
                + chain_repr(chain_cells(*r)) + ", is_chain: "@ + bool_text(false) + ")"@);
        },
        None => {
            assert(chain_cells(l) == seq![c.ident]);
            assert(chain_cells(l).drop_first() =~= seq![]);
            assert(chain_repr(chain_cells(l)) == "(left: "@ + decimal_text(c.ident) + ", right: "@
                + chain_repr(seq![]) + ", is_chain: "@ + bool_text(false) + ")"@);
        },
    }
}

proof fn lemma_expr_repr_by_model(a: AnyExpression, b: AnyExpression)
    requires
        expr_wf(a),
        expr_wf(b),
        expr_model(a) == expr_model(b),
    ensures
        any_repr(a) == any_repr(b),
{
    if let AnyExpression::Leach(la) = a {
        if let AnyExpression::Leach(lb) = b {
            let ra = *la.right->Some_0;
            let rb = *lb.right->Some_0;
            lemma_plain_links_repr(ra);
            lemma_plain_links_repr(rb);
            assert(leach_model(la).cells == chain_cells(ra));
            assert(leach_model(lb).cells == chain_cells(rb));
        }
    }
}

/// Two well-formed programs whose expressions have the same values render to
/// the same text. `parse` pins those values down for given tokens, so
/// rendering what it returns is stable: every parse of a source renders alike.
pub proof fn lemma_repr_stable(a: OrganismExpression, b: OrganismExpression)
    requires
        forall|e: AnyExpression| #[trigger] flatten(a).contains(e) ==> expr_wf(e),
        forall|e: AnyExpression| #[trigger] flatten(b).contains(e) ==> expr_wf(e),
        exprs_model(flatten(a)) == exprs_model(flatten(b)),
    ensures
        organism_repr(a) == organism_repr(b),
    decreases a,
{
    assert(flatten(a).contains(a.child) && flatten(b).contains(b.child)) by {
        assert(flatten(a)[0] == a.child);
        assert(flatten(b)[0] == b.child);
    }
    assert(exprs_model(flatten(a))[0] == expr_model(flatten(a)[0]));
    assert(exprs_model(flatten(b))[0] == expr_model(flatten(b)[0]));
    assert(flatten(a).len() > 0 && flatten(b).len() > 0);
    assert(exprs_model(flatten(a))[0] == exprs_model(flatten(b))[0]);
    lemma_expr_repr_by_model(a.child, b.child);
    match (a.right, b.right) {
        (Some(ra), Some(rb)) => {
            assert(flatten(*ra) =~= flatten(a).drop_first());
            assert(flatten(*rb) =~= flatten(b).drop_first());
            assert forall|e: AnyExpression| #[trigger] flatten(*ra).contains(e) implies expr_wf(e) by {
                let k = choose|k: int| 0 <= k < flatten(*ra).len() && flatten(*ra)[k] == e;
                assert(flatten(a)[k + 1] == e);
                assert(flatten(a).contains(e));
            }
            assert forall|e: AnyExpression| #[trigger] flatten(*rb).contains(e) implies expr_wf(e) by {
                let k = choose|k: int| 0 <= k < flatten(*rb).len() && flatten(*rb)[k] == e;
                assert(flatten(b)[k + 1] == e);
                assert(flatten(b).contains(e));
            }
            assert(exprs_model(flatten(*ra)) =~= exprs_model(flatten(a)).drop_first());
            assert(exprs_model(flatten(*rb)) =~= exprs_model(flatten(b)).drop_first());
            lemma_repr_stable(*ra, *rb);
        },
        (Some(ra), None) => {
            assert(exprs_model(flatten(a)).len() == flatten(a).len());
            assert(flatten(a).len() == 1 + flatten(*ra).len());
        },
        (None, Some(rb)) => {
            assert(exprs_model(flatten(b)).len() == flatten(b).len());
            assert(flatten(b).len() == 1 + flatten(*rb).len());
        },
        (None, None) => {},
    }
}

/// Parsing `ts` reaches index `i` in state `st`, having read `es` before it.
pub open spec fn reaches(ts: Seq<TokenModel>, i: nat, st: PState, es: Seq<ExprModel>) -> bool {
    i < ts.len() && parse_from(ts, 0, init_pstate()) == prepend_models(es, parse_from(ts, i, st))
}

/// Where parsing reaches an expression that fails, the whole parse fails
/// with that expression's message.
pub proof fn lemma_parse_fails_at(ts: Seq<TokenModel>, i: nat, st: PState, es: Seq<ExprModel>)
    requires
        reaches(ts, i, st, es),
        pstep(ts, i, st) is Fail,
    ensures
        parse_spec(ts) == Err::<(Seq<ExprModel>, Seq<Seq<char>>), Seq<char>>(pstep(ts, i, st)->Fail_0),
{
}

/// A drill that parsing reaches in the Cells region makes the parse fail
/// with the drill message at its position.
pub proof fn lemma_drill_in_cells_fails(ts: Seq<TokenModel>, i: nat, st: PState, es: Seq<ExprModel>)
    requires
        reaches(ts, i, st, es),
        ts[i as int] is Drill,
        st.region == Region::Cells,
    ensures
        parse_spec(ts) == Err::<(Seq<ExprModel>, Seq<Seq<char>>), Seq<char>>(drill_in_cells_msg(i + 1)),
{
    lemma_parse_fails_at(ts, i, st, es);
}

/// A label that parsing reaches when a label of that name was already read
/// makes the parse fail, naming the first position and this one.
pub proof fn lemma_duplicate_label_fails(ts: Seq<TokenModel>, i: nat, st: PState, es: Seq<ExprModel>)
    requires
        reaches(ts, i, st, es),
        ts[i as int] is Label,
        first_label_pos(st.labels, ts[i as int]->Label_0, 0) is Some,
    ensures
        parse_spec(ts) == Err::<(Seq<ExprModel>, Seq<Seq<char>>), Seq<char>>(duplicate_label_msg(
            first_label_pos(st.labels, ts[i as int]->Label_0, 0)->Some_0,
            i + 1,
        )),
{
    lemma_parse_fails_at(ts, i, st, es);
}

/// Within a leach, a cell that was already seen makes the rest of the leach
/// fail at that cell's position.
pub proof fn lemma_repeated_cell_fails(ts: Seq<TokenModel>, j: nat, seen: Seq<u8>, tilde_pos: nat)
    requires
        j < ts.len(),
        ts[j as int] is CellIdent,
        cell_of(ts[j as int]->CellIdent_0) is Some,
        seen.contains(cell_of(ts[j as int]->CellIdent_0)->Some_0),
    ensures
        leach_run(ts, j, seen, tilde_pos) == Err::<(Seq<u8>, bool, nat), Seq<char>>(
            attempt_to_leach_expr_onto_itself_msg(j + 1),
        ),
{
}

/// A leach from a cell whose following cells fail to read (a repeated cell,
/// a missing one, an unknown one) makes the parse that reaches it fail with
/// the same message.
pub proof fn lemma_leach_failure_fails_parse(ts: Seq<TokenModel>, i: nat, st: PState, es: Seq<ExprModel>)
    requires
        reaches(ts, i, st, es),
        ts[i as int] is CellIdent,
        st.region == Region::Cells,
        cell_of(ts[i as int]->CellIdent_0) is Some,
        i + 1 < ts.len(),
        ts[i + 1 as int] is Tilde,
        leach_run(ts, i + 2, seq![cell_of(ts[i as int]->CellIdent_0)->Some_0], i + 2) is Err,
    ensures
        parse_spec(ts) == Err::<(Seq<ExprModel>, Seq<Seq<char>>), Seq<char>>(
            leach_run(ts, i + 2, seq![cell_of(ts[i as int]->CellIdent_0)->Some_0], i + 2)->Err_0,
        ),
{
    lemma_parse_fails_at(ts, i, st, es);
}

fn clone_token(t: &Token) -> (r: Token)
    ensures
        r@ == t@,
{
    match t {
        Token::TripleSix => Token::TripleSix,
        Token::TripleSixEq => Token::TripleSixEq,
        Token::TripleSixEqM => Token::TripleSixEqM,
        Token::TripleSixEqO => Token::TripleSixEqO,
        Token::Tilde => Token::Tilde,
        Token::Drill => Token::Drill,
        Token::Label(s) => Token::Label(copy_string(s)),
        Token::Jump(s) => Token::Jump(copy_string(s)),
        Token::ConditionalJump(s) => Token::ConditionalJump(copy_string(s)),
        Token::CellIdent(s) => Token::CellIdent(copy_string(s)),
        Token::RegionIdent(s) => Token::RegionIdent(copy_string(s)),
        Token::PrimitiveIdent(s) => Token::PrimitiveIdent(copy_string(s)),
    }
}

/// Tokens that a leach or the region changes before one may take: they
/// never name or target a label.
pub open spec fn unnamed(t: TokenModel) -> bool {
    !(t is Label) && !is_jump(t)
}

/// Unnamed tokens add no label names.
proof fn lemma_label_names_unnamed(ts: Seq<TokenModel>, i: int, j: int)
    requires
        0 <= i <= j <= ts.len(),
        forall|k: int| i <= k < j ==> unnamed(ts[k]),
    ensures
        label_names(ts.subrange(0, j)) == label_names(ts.subrange(0, i)),
    decreases j - i,
{
    if j > i {
        lemma_label_names_unnamed(ts, i, j - 1);
        assert(ts.subrange(0, j).drop_last() =~= ts.subrange(0, j - 1));
    }
}

fn contains_cell(cells: &Vec<u8>, ident: u8) -> (r: bool)
    ensures
        r == cells@.contains(ident),
{
    let mut k: usize = 0;
    while k < cells.len()
        invariant
            k <= cells.len(),
            forall|i: int| 0 <= i < k ==> cells@[i] != ident,
        decreases cells.len() - k,
    {
        if cells[k] == ident {
            return true;
        }
        k = k + 1;
    }
    false
}

/// A run of region identifiers ends at or after where it starts.
proof fn lemma_run_end_ge(ts: Seq<TokenModel>, i: nat)
    ensures
        i <= region_run_end(ts, i),
    decreases ts.len() - i,
{
    if i < ts.len() && ts[i as int] is RegionIdent {
        lemma_run_end_ge(ts, i + 1);
    }
}

/// Inside a run of region identifiers the run ends where it ended from its start.
proof fn lemma_run_end_within(ts: Seq<TokenModel>, j: nat)
    requires
        j < ts.len(),
        ts[j as int] is RegionIdent,
    ensures
        region_run_end(ts, j) == region_run_end(ts, j + 1),
        j < region_run_end(ts, j),
    decreases ts.len() - j,
{
    if j + 1 < ts.len() && ts[j + 1 as int] is RegionIdent {
        lemma_run_end_within(ts, j + 1);
    }
}

impl Parser {
    pub closed spec fn token_models(&self) -> Seq<TokenModel> {
        self.tokens@.map_values(|t: Token| t@)
    }

    /// Nothing has been parsed yet.
    pub closed spec fn fresh(&self) -> bool {
        &&& self.next == 0
        &&& self.encountered_jumps@.len() == 0
        &&& self.encountered_labels@.len() == 0
        &&& self.curr_region == Region::Cells
        &&& self.layers_gates_state == LayersGatesState::AllClose
    }

    /// The parser's state as values.
    pub closed spec fn pstate(&self) -> PState {
        PState {
            region: self.curr_region,
            gates: gate_count(self.layers_gates_state),
            labels: self.encountered_labels@.map_values(|p: (usize, String)| (p.0 as nat, p.1@)),
            jumps: self.encountered_jumps@.map_values(|p: (usize, String)| (p.0 as nat, p.1@)),
        }
    }

    closed spec fn label_views(&self) -> Seq<Seq<char>> {
        self.encountered_labels@.map_values(|p: (usize, String)| p.1@)
    }

    /// What has been recorded matches the tokens read so far.
    closed spec fn inv(&self) -> bool {
        &&& self.next <= self.tokens.len()
        &&& self.tokens.len() < usize::MAX
        &&& self.label_views() == label_names(self.token_models().subrange(0, self.next as int))
        &&& distinct(self.label_views())
        &&& forall|i: int|
            0 <= i < self.next && is_jump(#[trigger] self.token_models()[i]) ==> exists|k: int|
                0 <= k < self.encountered_jumps.len() && #[trigger] self.encountered_jumps@[k].1@
                    == jump_target(self.token_models()[i])
    }

    /// The records stay as they were, and the tokens read since are unnamed.
    closed spec fn moved_over_unnamed(&self, before: &Self) -> bool {
        &&& self.tokens == before.tokens
        &&& self.encountered_jumps == before.encountered_jumps
        &&& self.encountered_labels == before.encountered_labels
        &&& before.next <= self.next <= self.tokens.len()
        &&& forall|k: int| before.next <= k < self.next ==> unnamed(#[trigger] self.token_models()[k])
    }

    pub fn new(tokens: Vec<Token>) -> (r: Self)
        ensures
            r.token_models() == tokens@.map_values(|t: Token| t@),
            r.fresh(),
    {
        Parser {
            tokens,
            next: 0,
            curr_region: Region::Cells,
            layers_gates_state: LayersGatesState::AllClose,
            encountered_jumps: Vec::new(),
            encountered_labels: Vec::new(),
        }
    }

    fn validate_primitive_access(&self, pos: usize) -> (r: Result<(), String>)
        ensures
            r is Ok <==> (self.curr_region == Region::Layers && self.layers_gates_state
                == LayersGatesState::ThreeOpen),
            r is Err ==> r->Err_0@ == if self.curr_region != Region::Layers {
                invalid_primitive_access_region_msg(pos as nat)
            } else {
                invalid_primitive_access_gates_msg(pos as nat)
            },
    {
        if self.curr_region != Region::Layers {
            return Err(err_invalid_primitive_access_region(pos));
        }
        if self.layers_gates_state != LayersGatesState::ThreeOpen {
            return Err(err_invalid_primitive_access_gates(pos));
        }
        Ok(())
    }

    fn validate_cell_access(&self, pos: usize) -> (r: Result<(), String>)
        ensures
            r is Ok <==> self.curr_region == Region::Cells,
            r is Err ==> r->Err_0@ == invalid_cell_access_region_msg(pos as nat),
    {
        if self.curr_region != Region::Cells {
            return Err(err_invalid_cell_access_region(pos));
        }
        Ok(())
    }

    fn validate_drill(&self, pos: usize) -> (r: Result<(), String>)
        ensures
            r is Ok <==> self.curr_region == Region::Layers,
            r is Err ==> r->Err_0@ == drill_in_cells_msg(pos as nat),
    {
        match self.curr_region {
            Region::Layers => Ok(()),
            Region::Cells => Err(err_drill_in_cells(pos)),
        }
    }

    /// Opens one more gate of the Layers; with all three open it does nothing.
    fn drill(&mut self)
        ensures
            final(self).layers_gates_state == match old(self).layers_gates_state {
                LayersGatesState::AllClose => LayersGatesState::OneOpen,
                LayersGatesState::OneOpen => LayersGatesState::TwoOpen,
                _ => LayersGatesState::ThreeOpen,
            },
            final(self).tokens == old(self).tokens,
            final(self).next == old(self).next,
            final(self).curr_region == old(self).curr_region,
            final(self).encountered_jumps == old(self).encountered_jumps,
            final(self).encountered_labels == old(self).encountered_labels,
    {
        self.layers_gates_state = match self.layers_gates_state {
            LayersGatesState::AllClose => LayersGatesState::OneOpen,
            LayersGatesState::OneOpen => LayersGatesState::TwoOpen,
            _ => LayersGatesState::ThreeOpen,
        };
    }

    fn change_region(&mut self, pos: usize, new_region: &String) -> (r: Result<(), String>)
        ensures
            r is Ok <==> region_of(new_region@) is Some,
            r is Ok ==> final(self).curr_region == region_of(new_region@)->Some_0,
            r is Err ==> r->Err_0@ == unrecognized_region_msg(pos as nat, new_region@),
            r is Err ==> final(self).curr_region == old(self).curr_region,
            final(self).tokens == old(self).tokens,
            final(self).next == old(self).next,
            final(self).layers_gates_state == old(self).layers_gates_state,
            final(self).encountered_jumps == old(self).encountered_jumps,
            final(self).encountered_labels == old(self).encountered_labels,
    {
        match region_value(new_region) {
            Some(r) => {
                self.curr_region = r;
                Ok(())
            },
            None => Err(err_unrecognized_region(pos, copy_string(new_region))),
        }
    }

    fn parse_region(&self, pos: usize, r_ident: &String) -> (r: Result<RegionExpression, String>)
        ensures
            r is Ok <==> region_of(r_ident@) is Some,
            r is Ok ==> r->Ok_0.to == region_of(r_ident@)->Some_0,
    {
        match region_value(r_ident) {
            Some(r) => Ok(RegionExpression::new(r)),
            None => Err(err_unrecognized_region(pos, copy_string(r_ident))),
        }
    }

    fn cell_ident_is_valid(&self, c_ident: &String) -> (r: bool)
        ensures
            r == (cell_of(c_ident@) is Some),
    {
        cell_ident_value(c_ident).is_some()
    }

    /// Reads the region identifiers that follow a primitive, applying each in
    /// turn, without consuming them; returns them and the index after the last.
    fn parse_region_changes(&mut self) -> (r: Result<(Vec<RegionExpression>, usize), String>)
        requires
            old(self).next <= old(self).tokens.len(),
        ensures
            final(self).tokens == old(self).tokens,
            final(self).next == old(self).next,
            final(self).layers_gates_state == old(self).layers_gates_state,
            final(self).encountered_jumps == old(self).encountered_jumps,
            final(self).encountered_labels == old(self).encountered_labels,
            r is Ok ==> old(self).next <= r->Ok_0.1 <= old(self).tokens.len(),
            r is Ok ==> forall|k: int|
                old(self).next <= k < r->Ok_0.1 ==> (#[trigger] old(self).token_models()[k]) is RegionIdent,
            r is Ok ==> r->Ok_0.1 == old(self).tokens.len() || !(old(self).tokens@[r->Ok_0.1 as int] is RegionIdent),
            r is Ok ==> r->Ok_0.1 == region_run_end(old(self).token_models(), old(self).next as nat),
            ({
                let rr = run_regions(
                    old(self).token_models(),
                    old(self).next as nat,
                    region_run_end(old(self).token_models(), old(self).next as nat),
                );
                &&& r is Ok <==> rr is Ok
                &&& r is Err ==> r->Err_0@ == rr->Err_0
                &&& r is Ok ==> region_views(r->Ok_0.0@) == rr->Ok_0 && final(self).curr_region
                    == last_region(old(self).curr_region, rr->Ok_0)
            }),
    {
        let ghost tm = self.token_models();
        let ghost start = self.next as nat;
        let ghost end = region_run_end(tm, start);
        proof { lemma_run_end_ge(tm, start); }
        let mut changes: Vec<RegionExpression> = Vec::new();
        let mut j = self.next;
        while j < self.tokens.len() && self.tokens[j].is_region()
            invariant
                self.tokens == old(self).tokens,
                self.next == old(self).next,
                self.layers_gates_state == old(self).layers_gates_state,
                self.encountered_jumps == old(self).encountered_jumps,
                self.encountered_labels == old(self).encountered_labels,
                old(self).next <= j <= self.tokens.len(),
                forall|k: int| old(self).next <= k < j ==> (#[trigger] old(self).token_models()[k]) is RegionIdent,
                tm == self.token_models(),
                start == old(self).next as nat,
                end == region_run_end(tm, start),
                region_run_end(tm, j as nat) == end,
                j <= end,
                run_regions(tm, start, end) == prepend_regions(region_views(changes@), run_regions(tm, j as nat, end)),
                self.curr_region == last_region(old(self).curr_region, region_views(changes@)),
            decreases self.tokens.len() - j,
        {
            let t = clone_token(&self.tokens[j]);
            assert(tm[j as int] == t@);
            proof { lemma_run_end_within(tm, j as nat); }
            if let Token::RegionIdent(r) = t {
                match self.change_region(j + 1, &r) {
                    Ok(()) => {},
                    Err(e) => {
                        assert(j < end);
                        assert(tm[j as int]->RegionIdent_0 == r@);
                        assert(run_regions(tm, j as nat, end) == Err::<Seq<Region>, Seq<char>>(
                            unrecognized_region_msg((j + 1) as nat, r@)));
                        assert(tm == old(self).token_models());
                        return Err(e);
                    },
                }
                let ghost before = region_views(changes@);
                match self.parse_region(j + 1, &r) {
                    Ok(expr) => changes.push(expr),
                    Err(e) => {
                        return Err(e);
                    },
                }
                assert(region_views(changes@) =~= before.push(region_of(r@)->Some_0));
                proof {
                    let rest = run_regions(tm, (j + 1) as nat, end);
                    if rest is Ok {
                        assert(before + (seq![region_of(r@)->Some_0] + rest->Ok_0) =~= before.push(region_of(r@)->Some_0) + rest->Ok_0);
                    }
                }
            }
            j = j + 1;
        }
        proof {
            if j < self.tokens.len() {
                assert(tm[j as int] == self.tokens@[j as int]@);
            }
        }
        assert(region_views(changes@) + seq![] =~= region_views(changes@));
        Ok((changes, j))
    }

    /// A leach from a primitive: its Tilde is the next token.
    fn parse_primitive_leach_expression(
        &mut self,
        pos: usize,
        left: PrimitiveExpression,
        region_changes: Vec<RegionExpression>,
    ) -> (r: Result<LeachExpression, String>)
        requires
            old(self).next < old(self).tokens.len(),
            old(self).token_models()[old(self).next as int] is Tilde,
            old(self).tokens.len() < usize::MAX,
            pos >= 1,
        ensures
            ({
                let res = primitive_leach(
                    old(self).token_models(),
                    (pos - 1) as nat,
                    old(self).next as nat,
                    left.pval,
                    region_views(region_changes@),
                );
                &&& r is Ok <==> res is Ok
                &&& r is Err ==> r->Err_0@ == res->Err_0
                &&& r is Ok ==> leach_model(r->Ok_0) == res->Ok_0.0 && final(self).next == res->Ok_0.1
            }),
            final(self).pstate() == old(self).pstate(),
            r is Ok ==> final(self).moved_over_unnamed(old(self)),
            r is Ok ==> r->Ok_0.right is Some && leach_wf(r->Ok_0),
            final(self).tokens == old(self).tokens,
    {
        let ghost start = self.next;
        self.next = self.next + 1;
        if self.next >= self.tokens.len() {
            return Err(err_expected_cell_expression_after(pos));
        }
        let t = clone_token(&self.tokens[self.next]);
        assert(self.token_models()[self.next as int] == t@);
        let cell_pos = self.next + 1;
        self.next = self.next + 1;
        match t {
            Token::CellIdent(c_ident) => {
                match cell_ident_value(&c_ident) {
                    Some(ident) => {
                        let right = LeachExpression::new(
                            Passive::Cell(CellExpression { ident }),
                            None,
                            false,
                            None,
                        );
                        assert(forall|k: int| start <= k < self.next ==> unnamed(#[trigger] self.token_models()[k]));
                        assert(leach_wf(right));
                        let leach = LeachExpression::new(
                            Passive::Primitive(left),
                            Some(Box::new(right)),
                            false,
                            Some(region_changes),
                        );
                        assert(leach_wf(leach));
                        assert(chain_cells(right) =~= seq![ident]);
                        assert(left == PrimitiveExpression { pval: left.pval });
                        Ok(leach)
                    },
                    None => Err(err_unrecognized_cell(pos, c_ident)),
                }
            },
            _ => Err(err_expected_cell_expression(cell_pos)),
        }
    }

    /// A leach from the cell `first`, whose Tilde (at `pos`) has been read: a
    /// copy `a~b`, or a chain `f~a~...~z` that ends in a massacre.
    fn parse_leach_expression(&mut self, pos: usize, first: u8) -> (r: Result<LeachExpression, String>)
        requires
            old(self).next <= old(self).tokens.len(),
            old(self).tokens.len() < usize::MAX,
            first < 15,
        ensures
            ({
                let res = finish_leach(
                    first,
                    leach_run(old(self).token_models(), old(self).next as nat, seq![first], pos as nat),
                );
                &&& r is Ok <==> res is Ok
                &&& r is Err ==> r->Err_0@ == res->Err_0
                &&& r is Ok ==> leach_model(r->Ok_0) == res->Ok_0.0 && final(self).next == res->Ok_0.1
            }),
            final(self).pstate() == old(self).pstate(),
            r is Ok ==> final(self).moved_over_unnamed(old(self)),
            r is Ok ==> r->Ok_0.right is Some && leach_wf(r->Ok_0),
            final(self).tokens == old(self).tokens,
    {
        let ghost start = self.next;
        let ghost tm = self.token_models();
        let mut cells: Vec<u8> = Vec::new();
        cells.push(first);
        assert(cells@.drop_first() + seq![] =~= seq![]);
        let mut tilde_pos = pos;
        let mut massacre = false;
        let mut last_pos = pos;
        loop
            invariant_except_break
                !massacre,
                leach_run(tm, start as nat, seq![first], pos as nat) == prefix_run(
                    cells@.drop_first(),
                    leach_run(tm, self.next as nat, cells@, tilde_pos as nat),
                ),
            invariant
                self.tokens == old(self).tokens,
                self.encountered_jumps == old(self).encountered_jumps,
                self.encountered_labels == old(self).encountered_labels,
                start <= self.next <= self.tokens.len(),
                self.tokens.len() < usize::MAX,
                start == old(self).next,
                cells.len() >= 1,
                forall|k: int| 0 <= k < cells.len() ==> cells@[k] < 15,
                forall|k: int| start <= k < self.next ==> unnamed(#[trigger] self.token_models()[k]),
                tm == self.token_models(),
                self.pstate() == old(self).pstate(),
                cells@[0] == first,
            ensures
                cells.len() >= 2,
                forall|k: int| 0 <= k < cells.len() ==> cells@[k] < 15,
                cells@[0] == first,
                self.tokens == old(self).tokens,
                self.pstate() == old(self).pstate(),
                self.next <= self.tokens.len(),
                forall|k: int| start <= k < self.next ==> unnamed(#[trigger] self.token_models()[k]),
                leach_run(tm, start as nat, seq![first], pos as nat) == Ok::<(Seq<u8>, bool, nat), Seq<char>>(
                    (cells@.drop_first(), massacre, self.next as nat),
                ),
                !massacre ==> last_pos == self.next,
            decreases self.tokens.len() - self.next,
        {
            if self.next >= self.tokens.len() {
                return Err(err_expected_cell_expression_after(tilde_pos));
            }
            let t = clone_token(&self.tokens[self.next]);
            assert(self.token_models()[self.next as int] == t@);
            let ghost tp0 = tilde_pos as nat;
            let cell_pos = self.next + 1;
            self.next = self.next + 1;
            let c_ident = match t {
                Token::CellIdent(c) => c,
                _ => {
                    return Err(err_expected_cell_expression(cell_pos));
                },
            };
            let ident = match cell_ident_value(&c_ident) {
                Some(v) => v,
                None => {
                    return Err(err_unrecognized_cell(cell_pos, c_ident));
                },
            };
            if contains_cell(&cells, ident) {
                return Err(err_attempt_to_leach_expr_onto_itself(cell_pos));
            }
            let ghost seen = cells@;
            let ghost j = (cell_pos - 1) as nat;
            cells.push(ident);
            assert(cells@.drop_first() =~= seen.drop_first().push(ident));
            last_pos = cell_pos;
            if self.next < self.tokens.len() {
                assert(self.token_models()[self.next as int] == self.tokens@[self.next as int]@);
                match &self.tokens[self.next] {
                    Token::Tilde => {
                        tilde_pos = self.next + 1;
                        self.next = self.next + 1;
                        proof {
                            let rest = leach_run(tm, self.next as nat, cells@, tilde_pos as nat);
                            if rest is Ok {
                                let (cs, m, n) = rest->Ok_0;
                                assert(seen.drop_first() + (seq![ident] + cs) =~= cells@.drop_first() + cs);
                            }
                        }
                    },
                    Token::TripleSixEqM => {
                        self.next = self.next + 1;
                        massacre = true;
                        assert(leach_run(tm, j, seen, tp0) == Ok::<(Seq<u8>, bool, nat), Seq<char>>(
                            (seq![ident], true, self.next as nat)));
                        assert(seen.drop_first() + seq![ident] =~= cells@.drop_first());
                        break;
                    },
                    _ => {
                        assert(leach_run(tm, j, seen, tp0) == Ok::<(Seq<u8>, bool, nat), Seq<char>>(
                            (seq![ident], false, self.next as nat)));
                        assert(seen.drop_first() + seq![ident] =~= cells@.drop_first());
                        break;
                    },
                }
            } else {
                assert(leach_run(tm, j, seen, tp0) == Ok::<(Seq<u8>, bool, nat), Seq<char>>(
                    (seq![ident], false, self.next as nat)));
                assert(seen.drop_first() + seq![ident] =~= cells@.drop_first());
                break;
            }
        }
        if cells.len() > 2 && !massacre {
            return Err(err_chained_leach_expression_must_end_in_massacre(last_pos));
        }
        let mut idx = cells.len() - 1;
        let mut node = LeachExpression::new(
            Passive::Cell(CellExpression { ident: cells[idx] }),
            None,
            false,
            None,
        );
        assert(chain_cells(node) =~= cells@.subrange(idx as int, cells.len() as int));
        while idx > 1
            invariant
                1 <= idx < cells.len(),
                forall|k: int| 0 <= k < cells.len() ==> cells@[k] < 15,
                node.left is Cell,
                !node.is_chain,
                node.region_change is None,
                leach_wf(node),
                chain_cells(node) == cells@.subrange(idx as int, cells.len() as int),
            decreases idx,
        {
            idx = idx - 1;
            let ghost inner = node;
            node = LeachExpression::new(
                Passive::Cell(CellExpression { ident: cells[idx] }),
                Some(Box::new(node)),
                false,
                None,
            );
            assert(chain_cells(node) == seq![cells@[idx as int]] + chain_cells(inner));
            assert(chain_cells(node) =~= cells@.subrange(idx as int, cells.len() as int));
        }
        assert(cells@.subrange(1, cells.len() as int) =~= cells@.drop_first());
        Ok(LeachExpression::new(
            Passive::Cell(CellExpression { ident: cells[0] }),
            Some(Box::new(node)),
            massacre,
            None,
        ))
    }

    /// The position of the label named `name`, if one has been read.
    fn find_label(&self, name: &String) -> (r: Option<usize>)
        ensures
            r is None <==> !self.label_views().contains(name@),
            r is None <==> first_label_pos(self.pstate().labels, name@, 0) is None,
            r is Some ==> r->Some_0 as nat == first_label_pos(self.pstate().labels, name@, 0)->Some_0,
    {
        let mut k: usize = 0;
        while k < self.encountered_labels.len()
            invariant
                k <= self.encountered_labels.len(),
                forall|i: int| 0 <= i < k ==> self.label_views()[i] != name@,
                first_label_pos(self.pstate().labels, name@, 0) == first_label_pos(self.pstate().labels, name@, k as nat),
            decreases self.encountered_labels.len() - k,
        {
            assert(self.pstate().labels[k as int] == (self.encountered_labels@[k as int].0 as nat, self.encountered_labels@[k as int].1@));
            if self.encountered_labels[k].1 == *name {
                assert(self.label_views()[k as int] == name@);
                return Some(self.encountered_labels[k].0);
            }
            k = k + 1;
        }
        proof {
            if self.label_views().contains(name@) {
                let i = choose|i: int| 0 <= i < self.label_views().len() && self.label_views()[i] == name@;
                assert(self.label_views()[i] != name@);
            }
        }
        None
    }


    /// Parses the expression that starts at the next token.
    fn parse_step(&mut self, exprs: &mut Vec<AnyExpression>) -> (r: Result<(), String>)
        requires
            old(self).inv(),
            old(self).next < old(self).tokens.len(),
            forall|k: int| 0 <= k < old(exprs).len() ==> expr_wf(#[trigger] old(exprs)@[k]),
        ensures
            final(self).tokens == old(self).tokens,
            match pstep(old(self).token_models(), old(self).next as nat, old(self).pstate()) {
                PStep::Fail(m) => r is Err && r->Err_0@ == m,
                PStep::Next(e, j, st2) => r is Ok && exprs_model(final(exprs)@) == exprs_model(old(exprs)@)
                    + opt_seq(e) && final(self).next == j && final(self).pstate() == st2,
            },
            r is Ok ==> final(self).inv() && old(self).next < final(self).next <= final(self).tokens.len(),
            r is Ok ==> forall|k: int| 0 <= k < final(exprs).len() ==> expr_wf(#[trigger] final(exprs)@[k]),
    {
        let ghost tm = self.token_models();
        let i = self.next;
        let pos = i + 1;
        let t = clone_token(&self.tokens[i]);
        let ghost st0 = self.pstate();
        let ghost ex0 = exprs_model(exprs@);
        let ghost jumps_before = self.encountered_jumps@;
        assert(tm[i as int] == t@);
        assert(tm.subrange(0, i + 1).drop_last() =~= tm.subrange(0, i as int));
        self.next = i + 1;
        match t {
            Token::PrimitiveIdent(p) => {
                match self.validate_primitive_access(pos) {
                    Ok(()) => {},
                    Err(e) => {
                        return Err(e);
                    },
                }
                let pval = match primitive_value(&p) {
                    Some(v) => v,
                    None => {
                        let at: i32 = if pos <= i32::MAX as usize { pos as i32 } else { i32::MAX };
                        return Err(err_invalid_primitive(at));
                    },
                };
                let (changes, j) = match self.parse_region_changes() {
                    Ok(found) => found,
                    Err(e) => {
                        return Err(e);
                    },
                };
                if j < self.tokens.len() && matches!(self.tokens[j], Token::Tilde) {
                    assert(self.token_models()[j as int] == self.tokens@[j as int]@);
                    self.next = j;
                    assert(forall|k: int| i + 1 <= k < j ==> unnamed(#[trigger] tm[k]));
                    let ghost rs = region_views(changes@);
                    match self.parse_primitive_leach_expression(pos, PrimitiveExpression::new(pval), changes) {
                        Ok(leach) => {
                            let ghost lm = leach_model(leach);
                            proof { lemma_push_model(exprs@, AnyExpression::Leach(leach)); }
                            exprs.push(AnyExpression::Leach(leach));
                            assert(pstep(tm, i as nat, st0) == PStep::Next(Some(ExprModel::Leach(lm)), self.next as nat, self.pstate()));
                        },
                        Err(e) => {
                            return Err(e);
                        },
                    }
                    assert(self.token_models() == tm);
                    assert(forall|k: int| j <= k < self.next ==> unnamed(#[trigger] tm[k]));
                    assert(forall|k: int| i + 1 <= k < self.next ==> unnamed(#[trigger] tm[k]));
                    proof { lemma_label_names_unnamed(tm, i + 1, self.next as int); }
                } else {
                    proof {
                        if j < self.tokens.len() {
                            assert(self.token_models()[j as int] == self.tokens@[j as int]@);
                        }
                        lemma_push_model(exprs@, AnyExpression::Primitive(PrimitiveExpression { pval }));
                    }
                    exprs.push(AnyExpression::Primitive(PrimitiveExpression::new(pval)));
                    assert(pstep(tm, i as nat, st0) == PStep::Next(Some(ExprModel::Primitive(pval)), self.next as nat, self.pstate()));
                }
            },
            Token::CellIdent(c) => {
                match self.validate_cell_access(pos) {
                    Ok(()) => {},
                    Err(e) => {
                        return Err(e);
                    },
                }
                let ident = match cell_ident_value(&c) {
                    Some(v) => v,
                    None => {
                        return Err(err_unrecognized_cell(pos, c));
                    },
                };
                if self.next < self.tokens.len() && matches!(self.tokens[self.next], Token::Tilde) {
                    assert(self.token_models()[self.next as int] == self.tokens@[self.next as int]@);
                    let tilde_pos = self.next + 1;
                    self.next = self.next + 1;
                    match self.parse_leach_expression(tilde_pos, ident) {
                        Ok(leach) => {
                            let ghost lm = leach_model(leach);
                            proof { lemma_push_model(exprs@, AnyExpression::Leach(leach)); }
                            exprs.push(AnyExpression::Leach(leach));
                            assert(pstep(tm, i as nat, st0) == PStep::Next(Some(ExprModel::Leach(lm)), self.next as nat, self.pstate()));
                        },
                        Err(e) => {
                            return Err(e);
                        },
                    }
                    assert(self.token_models() == tm);
                    assert(tm[i + 1] is Tilde);
                    assert(forall|k: int| i + 1 <= k < self.next ==> unnamed(#[trigger] tm[k]));
                    proof { lemma_label_names_unnamed(tm, i + 1, self.next as int); }
                } else {
                    proof {
                        if self.next < self.tokens.len() {
                            assert(self.token_models()[self.next as int] == self.tokens@[self.next as int]@);
                        }
                        lemma_push_model(exprs@, AnyExpression::Cell(CellExpression { ident }));
                    }
                    exprs.push(AnyExpression::Cell(CellExpression { ident }));
                    assert(pstep(tm, i as nat, st0) == PStep::Next(Some(ExprModel::Cell(ident)), self.next as nat, self.pstate()));
                }
            },
            Token::RegionIdent(r) => {
                match self.change_region(pos, &r) {
                    Ok(()) => {},
                    Err(e) => {
                        return Err(e);
                    },
                }
                match self.parse_region(pos, &r) {
                    Ok(region) => {
                        proof { lemma_push_model(exprs@, AnyExpression::Region(region)); }
                        exprs.push(AnyExpression::Region(region));
                        assert(pstep(tm, i as nat, st0) == PStep::Next(Some(ExprModel::Region(region.to)), self.next as nat, self.pstate()));
                    },
                    Err(e) => {
                        return Err(e);
                    },
                }
            },
            Token::Drill => {
                match self.validate_drill(pos) {
                    Ok(()) => self.drill(),
                    Err(e) => {
                        return Err(e);
                    },
                }
                proof { lemma_push_model(exprs@, AnyExpression::Drill(DrillExpression {  })); }
                exprs.push(AnyExpression::Drill(DrillExpression::new()));
                assert(pstep(tm, i as nat, st0) == PStep::Next(Some(ExprModel::Drill), self.next as nat, self.pstate()));
            },
            Token::Label(l) => {
                match self.find_label(&l) {
                    Some(first) => {
                        return Err(err_duplicate_label(first, pos));
                    },
                    None => {},
                }
                let ghost views = self.label_views();
                self.encountered_labels.push((pos, copy_string(&l)));
                assert(self.label_views() =~= views.push(l@));
                assert(self.pstate().labels =~= st0.labels.push((pos as nat, l@)));
                assert(self.pstate().jumps =~= st0.jumps);
                let ghost lname = l@;
                proof { lemma_push_model(exprs@, AnyExpression::Label(LabelExpression { label: l })); }
                exprs.push(AnyExpression::Label(LabelExpression::new(l)));
                assert(pstep(tm, i as nat, st0) == PStep::Next(Some(ExprModel::Label(lname)), self.next as nat, self.pstate()));
            },
            Token::Jump(l) => {
                self.encountered_jumps.push((pos, copy_string(&l)));
                assert(self.encountered_jumps@[jumps_before.len() as int].1@ == jump_target(tm[i as int]));
                assert(self.pstate().jumps =~= st0.jumps.push((pos as nat, l@)));
                assert(self.pstate().labels =~= st0.labels);
                let ghost lname = l@;
                proof { lemma_push_model(exprs@, AnyExpression::Jump(JumpExpression { to: l, conditional: false })); }
                exprs.push(AnyExpression::Jump(JumpExpression::new(l)));
                assert(pstep(tm, i as nat, st0) == PStep::Next(Some(ExprModel::Jump(lname, false)), self.next as nat, self.pstate()));
            },
            Token::ConditionalJump(l) => {
                self.encountered_jumps.push((pos, copy_string(&l)));
                assert(self.encountered_jumps@[jumps_before.len() as int].1@ == jump_target(tm[i as int]));
                assert(self.pstate().jumps =~= st0.jumps.push((pos as nat, l@)));
                assert(self.pstate().labels =~= st0.labels);
                let ghost lname = l@;
                proof { lemma_push_model(exprs@, AnyExpression::Jump(JumpExpression { to: l, conditional: true })); }
                exprs.push(AnyExpression::Jump(JumpExpression::new_conditional(l)));
                assert(pstep(tm, i as nat, st0) == PStep::Next(Some(ExprModel::Jump(lname, true)), self.next as nat, self.pstate()));
            },
            Token::Tilde => {
                return Err(err_leach_expression_must_start_with_primitive_or_cell(pos));
            },
            Token::TripleSixEqM => {
                return Err(err_chain_leach_expression_ending_without_chain_leach_expression(pos));
            },
            Token::TripleSixEq => {
                return Err(err_triple_six_eq_not_expected_here(pos));
            },
            Token::TripleSix => {
                return Err(err_triple_six_not_expected_here(pos));
            },
            Token::TripleSixEqO => {
                if self.next >= self.tokens.len() {
                    proof { lemma_push_model(exprs@, AnyExpression::Dummy(DummyExpression {  })); }
                    exprs.push(AnyExpression::Dummy(DummyExpression::new()));
                } else {
                    assert(exprs_model(exprs@) =~= exprs_model(exprs@) + opt_seq(None));
                }
            },
        }
        assert(forall|k: int| 0 <= k < jumps_before.len() ==> self.encountered_jumps@[k] == jumps_before[k]);
        Ok(())
    }

    /// Reads the whole token stream into a program, checking each expression
    /// as it comes. A `^^^^^^666^^^^^^=O` inside the stream only separates;
    /// as the last token it leaves a dummy expression.
    fn parse_expressions(&mut self) -> (r: Result<OrganismExpression, String>)
        requires
            old(self).inv(),
        ensures
            final(self).tokens == old(self).tokens,
            r is Ok ==> final(self).inv() && final(self).next == final(self).tokens.len(),
            r is Ok ==> forall|e: AnyExpression| #[trigger] flatten(r->Ok_0).contains(e) ==> expr_wf(e),
            ({
                let res = parse_from(old(self).token_models(), old(self).next as nat, old(self).pstate());
                &&& r is Ok <==> res is Ok
                &&& r is Err ==> r->Err_0@ == res->Err_0
                &&& r is Ok ==> final(self).pstate() == res->Ok_0.1 && exprs_model(flatten(r->Ok_0)) == if res->Ok_0.0.len() == 0 {
                    seq![ExprModel::Dummy]
                } else {
                    res->Ok_0.0
                }
            }),
    {
        let ghost tm = self.token_models();
        let ghost res0 = parse_from(tm, self.next as nat, self.pstate());
        let mut exprs: Vec<AnyExpression> = Vec::new();
        assert(exprs_model(exprs@) =~= seq![]);
        assert(prepend_models(seq![], res0) == res0) by {
            if res0 is Ok {
                assert(seq![] + res0->Ok_0.0 =~= res0->Ok_0.0);
            }
        }
        while self.next < self.tokens.len()
            invariant
                self.inv(),
                self.tokens == old(self).tokens,
                forall|k: int| 0 <= k < exprs.len() ==> expr_wf(#[trigger] exprs@[k]),
                tm == self.token_models(),
                tm == old(self).token_models(),
                res0 == parse_from(old(self).token_models(), old(self).next as nat, old(self).pstate()),
                res0 == prepend_models(exprs_model(exprs@), parse_from(tm, self.next as nat, self.pstate())),
            decreases self.tokens.len() - self.next,
        {
            let ghost i = self.next as nat;
            let ghost st0 = self.pstate();
            let ghost ex0 = exprs_model(exprs@);
            match self.parse_step(&mut exprs) {
                Ok(()) => {},
                Err(e) => {
                    return Err(e);
                },
            }
            proof {
                match pstep(tm, i, st0) {
                    PStep::Next(e, j, st2) => {
                        assert(parse_from(tm, i, st0) == prepend_models(opt_seq(e), parse_from(tm, j, st2)));
                        lemma_prepend_assoc(ex0, opt_seq(e), parse_from(tm, self.next as nat, self.pstate()));
                    },
                    PStep::Fail(_) => {},
                }
            }
        }
        let ghost all = exprs@;
        assert(parse_from(tm, self.next as nat, self.pstate()) == Ok::<(Seq<ExprModel>, PState), Seq<char>>((seq![], self.pstate())));
        assert(exprs_model(all) + seq![] =~= exprs_model(all));
        let mut list: Option<Box<OrganismExpression>> = None;
        while exprs.len() > 0
            invariant
                forall|k: int| 0 <= k < exprs.len() ==> expr_wf(#[trigger] exprs@[k]),
                list is Some ==> forall|e: AnyExpression| #[trigger] flatten(*list->Some_0).contains(e) ==> expr_wf(e),
                exprs.len() <= all.len(),
                exprs@ == all.subrange(0, exprs.len() as int),
                list is Some ==> flatten(*list->Some_0) == all.subrange(exprs.len() as int, all.len() as int),
                list is None ==> exprs.len() == all.len(),
            decreases exprs.len(),
        {
            let ghost before = exprs@;
            let e = exprs.pop().unwrap();
            assert(e == before[before.len() - 1]);
            assert(exprs@ == before.drop_last());
            assert(before[before.len() - 1] == all.subrange(0, before.len() as int)[before.len() - 1]);
            assert(e == all[exprs.len() as int]);
            assert(expr_wf(e));
            let ghost rest = list;
            list = Some(Box::new(OrganismExpression::new(e, list)));
            proof {
                let node = *list->Some_0;
                assert(node.child == e && node.right == rest);
                if rest is Some {
                    assert(flatten(node) == seq![e] + flatten(*rest->Some_0));
                    assert(flatten(node) =~= all.subrange(exprs.len() as int, all.len() as int));
                } else {
                    assert(flatten(node) == seq![e]);
                    assert(flatten(node) =~= all.subrange(exprs.len() as int, all.len() as int));
                }
                assert(exprs@ =~= all.subrange(0, exprs.len() as int));
                assert forall|x: AnyExpression| #[trigger] flatten(node).contains(x) implies expr_wf(x) by {
                    let k = choose|k: int| 0 <= k < flatten(node).len() && flatten(node)[k] == x;
                    if k > 0 {
                        assert(flatten(*rest->Some_0)[k - 1] == x);
                        assert(flatten(*rest->Some_0).contains(x));
                    } else {
                        assert(flatten(node)[0] == e);
                    }
                }
            }
        }
        match list {
            Some(head) => {
                assert(all.subrange(0, all.len() as int) =~= all);
                Ok(*head)
            },
            None => {
                let head = OrganismExpression::new(AnyExpression::Dummy(DummyExpression::new()), None);
                proof {
                    assert forall|x: AnyExpression| #[trigger] flatten(head).contains(x) implies expr_wf(x) by {
                        assert(flatten(head)[0] == x);
                    }
                }
                assert(exprs_model(flatten(head)) =~= seq![ExprModel::Dummy]);
                Ok(head)
            },
        }
    }

    /// Parses the tokens and resolves every jump against the labels. Returns
    /// the program and the names of its labels, in order.
    pub fn parse(&mut self) -> (r: Result<(OrganismExpression, Vec<String>), String>)
        requires
            old(self).fresh(),
            old(self).token_models().len() < usize::MAX,
        ensures
            r is Ok ==> names_of(r->Ok_0.1@) == label_names(old(self).token_models()),
            r is Ok ==> distinct(names_of(r->Ok_0.1@)),
            r is Ok ==> forall|i: int|
                0 <= i < old(self).token_models().len() && is_jump(#[trigger] old(self).token_models()[i])
                    ==> names_of(r->Ok_0.1@).contains(jump_target(old(self).token_models()[i])),
            r is Ok ==> forall|e: AnyExpression| #[trigger] flatten(r->Ok_0.0).contains(e) ==> expr_wf(e),
            match parse_spec(old(self).token_models()) {
                Err(m) => r is Err && r->Err_0@ == m,
                Ok((es, names)) => r is Ok && exprs_model(flatten(r->Ok_0.0)) == es && names_of(r->Ok_0.1@)
                    == names,
            },
    {
        proof {
            assert(self.token_models().subrange(0, 0) =~= seq![]);
            assert(self.label_views() =~= seq![]);
            assert(self.pstate().labels =~= seq![]);
            assert(self.pstate().jumps =~= seq![]);
            assert(self.pstate() == init_pstate());
        }
        let org = match self.parse_expressions() {
            Ok(o) => o,
            Err(e) => {
                return Err(e);
            },
        };
        assert(self.token_models().subrange(0, self.next as int) =~= self.token_models());
        let ghost st = self.pstate();
        let mut k: usize = 0;
        while k < self.encountered_jumps.len()
            invariant
                self.inv(),
                self.next == self.tokens.len(),
                self.tokens == old(self).tokens,
                k <= self.encountered_jumps.len(),
                st == self.pstate(),
                first_unresolved(st.jumps, st.labels, 0) == first_unresolved(st.jumps, st.labels, k as nat),
                parse_from(old(self).token_models(), 0, init_pstate()) is Ok,
                parse_from(old(self).token_models(), 0, init_pstate())->Ok_0.1 == st,
                forall|j: int| 0 <= j < k ==> self.label_views().contains(#[trigger] self.encountered_jumps@[j].1@),
            decreases self.encountered_jumps.len() - k,
        {
            let found = self.find_label(&self.encountered_jumps[k].1);
            assert(st.jumps[k as int] == (self.encountered_jumps@[k as int].0 as nat, self.encountered_jumps@[k as int].1@));
            if found.is_none() {
                assert(first_unresolved(st.jumps, st.labels, k as nat) == Some(st.jumps[k as int].0));
                assert(parse_from(old(self).token_models(), 0, init_pstate()) is Ok);
                assert(parse_from(old(self).token_models(), 0, init_pstate())->Ok_0.1 == st);
                return Err(err_attempt_to_jump_to_non_existent_label(self.encountered_jumps[k].0));
            }
            k = k + 1;
        }
        let mut labels: Vec<String> = Vec::new();
        let mut k: usize = 0;
        while k < self.encountered_labels.len()
            invariant
                k <= self.encountered_labels.len(),
                names_of(labels@) == self.label_views().subrange(0, k as int),
            decreases self.encountered_labels.len() - k,
        {
            let ghost before = labels@;
            labels.push(copy_string(&self.encountered_labels[k].1));
            assert(self.label_views()[k as int] == self.encountered_labels@[k as int].1@);
            assert(names_of(labels@) =~= names_of(before).push(self.label_views()[k as int]));
            assert(names_of(labels@) =~= self.label_views().subrange(0, k + 1));
            k = k + 1;
        }
        assert(names_of(labels@) =~= self.label_views());
        assert(self.label_views() =~= st.labels.map_values(|l: (nat, Seq<char>)| l.1));
        proof {
            let tm = self.token_models();
            assert forall|i: int| 0 <= i < tm.len() && is_jump(#[trigger] tm[i]) implies names_of(labels@).contains(jump_target(tm[i])) by {
                let j = choose|j: int| 0 <= j < self.encountered_jumps.len() && #[trigger] self.encountered_jumps@[j].1@ == jump_target(tm[i]);
                assert(self.label_views().contains(self.encountered_jumps@[j].1@));
            }
        }
        Ok((org, labels))
    }
}

} // verus!
