use mindbend::errors;
use mindbend::machine::Machine;
use mindbend::runtime::{run_source, Run, Status};

fn run(source: &str, input: &[u8]) -> Result<Run, String> {
    run_source(source, &input.to_vec(), 10_000)
}

#[test]
fn prints_a_cell_through_an_output_function() {
    let r = run(r"->L\\|//\\|//\\|//$><->C~0->L$(->C~10~1^^^^^^666^^^^^^=M^^^^^^666^^^^^^=O", b"").unwrap();
    assert_eq!(r.status, Status::Success);
    assert_eq!(r.output, vec![9u8]);
}

#[test]
fn output_pairs_cells_as_tens_and_units() {
    // cell 0 holds Output, cell 1 holds 6 and cell 2 was never written (-1): 6 * 10 - 1 = 59.
    let r = run(r"->L\\|//\\|//\\|//$><->C~0->L$`->C~10~1~2^^^^^^666^^^^^^=M^^^^^^666^^^^^^=O", b"").unwrap();
    assert_eq!(r.status, Status::Success);
    assert_eq!(r.output, b";".to_vec());
}

#[test]
fn repeated_cell_in_chain_does_not_compile() {
    let r = run(r"->L\\|//\\|//\\|//$><->C~0->L$`->C~10~1~1^^^^^^666^^^^^^=M^^^^^^666^^^^^^=O", b"");
    assert_eq!(r.err(), Some(errors::err_attempt_to_leach_expr_onto_itself(18)));
}

#[test]
fn store_then_copy_prints_nothing() {
    let r = run(r"->L\\|//\\|//\\|//$!->C~0->L$><->C~10~1^^^^^^666^^^^^^=O", b"").unwrap();
    assert_eq!(r.status, Status::Success);
    assert!(r.output.is_empty());
}

#[test]
fn input_reads_a_byte() {
    let r = run(r"->L\\|//\\|//\\|//$<>->C~0^^^^^^666^^^^^^=O", b"1").unwrap();
    assert_eq!(r.status, Status::Success);
    assert!(r.output.is_empty());
    let r = run(r"->L\\|//\\|//\\|//$<>->C~0->L$><->C~10~1^^^^^^666^^^^^^=M1~2^^^^^^666^^^^^^=O", b"Z").unwrap();
    assert_eq!(r.status, Status::Success);
    assert!(r.output.is_empty());
}

#[test]
fn non_function_massacre_fails_at_run_time() {
    let r = run(r"->L\\|//\\|//\\|//$(->C~00~1^^^^^^666^^^^^^=M^^^^^^666^^^^^^=O", b"").unwrap();
    assert_eq!(r.status, Status::Failure);
    let msg = errors::err_attempt_to_use_non_function_primitive_to_massacre();
    assert_eq!(r.output, format!("{}{}", msg, msg).into_bytes());
}

#[test]
fn leaching_a_dead_cell_fails_at_run_time() {
    let r = run(r"->L\\|//\\|//\\|//$(->C~00~10~2^^^^^^666^^^^^^=O", b"").unwrap();
    assert_eq!(r.status, Status::Failure);
    assert_eq!(r.output, b"Attempt to leach death expression onto another Cell\n".to_vec());
}

#[test]
fn expired_cell_cannot_be_leached() {
    let r = run(r"->L\\|//\\|//\\|//$(->C~0->L->C->L->C->L->C0~1^^^^^^666^^^^^^=O", b"").unwrap();
    assert_eq!(r.status, Status::Failure);
    assert_eq!(r.output, errors::err_attempt_to_leach_death_expression_onto_another_cell().into_bytes());
}

#[test]
fn gates_close_after_five_ticks() {
    let r = run(r"->L\\|//\\|//\\|//$!->C~0->L$@->C~1->L$#->C~2^^^^^^666^^^^^^=O", b"").unwrap();
    assert_eq!(r.status, Status::Failure);
    let expected = format!(
        "{}{}",
        errors::err_invalid_primitive_access_gates_not_open_runtime(),
        errors::err_invalid_primitive_access_runtime()
    );
    assert_eq!(r.output, expected.into_bytes());
}

#[test]
fn addition_counts_the_first_argument_twice() {
    let mut m = Machine::new();
    let mut out: Vec<u8> = Vec::new();
    let mut cursor: usize = 0;
    m.set_cell(0, 1);
    m.set_ttl(0, 5);
    m.set_cell(1, 2);
    m.set_ttl(1, 5);
    m.set_cell(2, 3);
    m.set_ttl(2, 5);
    assert!(m.run_function_call(0, &vec![1, 2], &Vec::new(), &mut cursor, &mut out));
    assert_eq!(m.cells[2], 2 + 2 + 3);
    assert_eq!((m.ttl_table[0], m.ttl_table[1], m.ttl_table[2]), (0, 0, 5));
    assert!(out.is_empty());
}

#[test]
fn subtraction_and_input_calls() {
    let mut m = Machine::new();
    let mut out: Vec<u8> = Vec::new();
    let mut cursor: usize = 0;
    m.set_cell(0, 0);
    m.set_ttl(0, 5);
    m.set_cell(1, 2);
    m.set_ttl(1, 5);
    m.set_cell(2, 3);
    m.set_ttl(2, 5);
    assert!(m.run_function_call(0, &vec![1, 2], &Vec::new(), &mut cursor, &mut out));
    assert_eq!(m.cells[2], 2 - 2 - 3);
    m.set_cell(3, 3);
    m.set_ttl(3, 5);
    m.set_ttl(4, 5);
    assert!(m.run_function_call(3, &vec![4], &vec![b'x'], &mut cursor, &mut out));
    assert_eq!((m.cells[4], cursor), (b'x' as i32, 1));
    m.set_cell(5, 3);
    m.set_ttl(5, 5);
    assert!(m.run_function_call(5, &vec![6], &vec![b'x'], &mut cursor, &mut out));
    assert_eq!((m.cells[6], cursor), (-1, 1));
}

#[test]
fn refused_steps_leave_the_machine_alone() {
    let mut m = Machine::new();
    let mut out: Vec<u8> = Vec::new();
    let mut cursor: usize = 0;
    m.set_cell(0, 9);
    m.set_ttl(0, 5);
    m.set_cell(1, 4);
    assert!(!m.run_function_call(0, &vec![1], &vec![b'x'], &mut cursor, &mut out));
    assert_eq!((m.cells[0], m.cells[1], m.ttl_table[0], cursor), (9, 4, 5, 0));
    assert!(!m.run_cell_copy(1, 2, &mut out));
    assert_eq!((m.cells[2], m.ttl_table[2], m.ttl_table[0]), (-1, 0, 5));
    assert!(!m.run_store_primitive(mindbend::ast::PrimitiveValue::One, 3, &Vec::new(), &mut out));
    assert_eq!((m.cells[3], m.ttl_table[0]), (-1, 5));
    assert!(!m.run_drill(&mut out));
    assert_eq!((m.curr_gates_state, m.ttl_table[0]), (0, 5));
}

#[test]
fn dead_function_cell_prints_once() {
    let mut m = Machine::new();
    let mut out: Vec<u8> = Vec::new();
    let mut cursor: usize = 0;
    m.set_cell(0, 2);
    assert!(!m.run_function_call(0, &vec![1], &Vec::new(), &mut cursor, &mut out));
    assert_eq!(out, errors::err_attempt_to_use_non_function_primitive_to_massacre().into_bytes());
}

#[test]
fn jumps_loop_until_fuel_runs_out() {
    let r = run("label:top:jmp:top:^^^^^^666^^^^^^=O", b"").unwrap();
    assert_eq!(r.status, Status::OutOfFuel);
    let r = run("jmp:end:0label:end:^^^^^^666^^^^^^=O", b"").unwrap();
    assert_eq!(r.status, Status::Success);
}

#[test]
fn conditional_jump_tests_cell_zero() {
    // cell 0 holds -1 at the start, so the conditional jump falls through to a failing lone primitive.
    let r = run("ijmp:end:$!label:end:^^^^^^666^^^^^^=O", b"");
    assert_eq!(r.err(), Some(errors::err_invalid_primitive_access_region(2)));
    let r = run(r"ijmp:end:->L0label:end:^^^^^^666^^^^^^=O", b"");
    assert_eq!(r.err(), Some(errors::err_invalid_cell_access_region(3)));
}

#[test]
fn chain_of_three_without_massacre_does_not_compile() {
    let src = r"->L\\|//\\|//\\|//$`->C~0->L$(->C~10~2->L\\|//->C1~32~4->L\\|//->C3~54~6->L\\|//->C5~76~8->L$><->C~99~7~8^^^^^^666^^^^^^=O";
    assert_eq!(run(src, b"").err(), Some(errors::err_chained_leach_expression_must_end_in_massacre(53)));
}

#[test]
fn lexing_errors_come_through() {
    assert_eq!(run("0 1", b"").err(), Some(errors::err_whitespace(2)));
}

#[test]
fn a_tick_decays_cells_and_gates() {
    let mut m = Machine::new();
    m.curr_region = 1;
    assert_eq!(m.drill_gate(), 0);
    assert_eq!(m.drill_gate(), 0);
    assert_eq!(m.drill_gate(), 0);
    assert_eq!((m.curr_gates_state, m.gates_ttso), (3, 5));
    m.set_cell(4, 7);
    m.set_ttl(4, 1);
    m.set_ttl(5, 3);
    m.state_update(false);
    assert_eq!(m.gates_ttso, 5);
    assert_eq!(m.ttl_table[4], 0);
    assert_eq!(m.cells[4], -1);
    assert_eq!(m.ttl_table[5], 2);
    for _ in 0..5 {
        m.state_update(true);
    }
    assert_eq!((m.curr_gates_state, m.gates_ttso), (0, 0));
    assert_eq!(m.primitive_access(), 1);
    m.curr_region = 0;
    assert_eq!(m.cell_access(), 0);
    assert_eq!(m.drill_gate(), 1);
}
