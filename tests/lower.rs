use mindbend::lexer::tokenize;
use mindbend::lower::{lower, Op};
use mindbend::parser::Parser;

fn ops_of(source: &str) -> Vec<Op> {
    let tokens = tokenize(source).unwrap();
    let (program, _) = Parser::new(tokens).parse().unwrap();
    lower(program)
}

#[test]
fn region_change_ticks_once() {
    assert_eq!(ops_of("->C^^^^^^666^^^^^^=O"), vec![Op::SetRegion(0), Op::StateUpdate(true)]);
}

#[test]
fn cell_copy_moves_the_life() {
    assert_eq!(
        ops_of("0~1^^^^^^666^^^^^^=O"),
        vec![
            Op::CheckExpressionLife(0),
            Op::CopyCell(0, 1),
            Op::StateUpdate(true),
            Op::SetTtl(1, 5),
            Op::SetTtl(0, 0),
        ]
    );
}

#[test]
fn call_ticks_once_per_argument_and_kills() {
    assert_eq!(
        ops_of("0~1~2^^^^^^666^^^^^^=M^^^^^^666^^^^^^=O"),
        vec![
            Op::CheckFunction(0),
            Op::Call(0, vec![1, 2]),
            Op::StateUpdate(true),
            Op::StateUpdate(true),
            Op::SetTtl(1, 0),
            Op::SetTtl(0, 0),
            Op::SetTtl(2, 5),
        ]
    );
}

#[test]
fn drills_do_not_tick_the_gates_and_stores_follow_their_regions() {
    assert_eq!(
        ops_of(r"->L\\|//\\|//\\|//$!->C~3^^^^^^666^^^^^^=O"),
        vec![
            Op::SetRegion(1),
            Op::StateUpdate(true),
            Op::DrillGate,
            Op::StateUpdate(false),
            Op::DrillGate,
            Op::StateUpdate(false),
            Op::DrillGate,
            Op::StateUpdate(false),
            Op::CheckPrimitiveAccessForStore,
            Op::SetRegion(0),
            Op::StateUpdate(true),
            Op::CheckCellAccess,
            Op::StoreCell(3, 1),
            Op::StateUpdate(true),
            Op::SetTtl(3, 5),
        ]
    );
}

#[test]
fn jumps_tick_before_they_branch() {
    assert_eq!(
        ops_of("label:a:ijmp:a:jmp:a:^^^^^^666^^^^^^=O"),
        vec![
            Op::Label(String::from("a")),
            Op::TestCellZero,
            Op::StateUpdate(true),
            Op::BranchIfZero(String::from("a")),
            Op::StateUpdate(true),
            Op::Branch(String::from("a")),
        ]
    );
}

#[test]
fn lone_expressions_only_check() {
    assert_eq!(ops_of("0^^^^^^666^^^^^^=O"), vec![Op::CheckCellAccess]);
    assert_eq!(ops_of("^^^^^^666^^^^^^=O"), Vec::<Op>::new());
}
