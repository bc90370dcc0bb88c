use mindbend::code::{
    call_code, cell_access_code, drill_gate_code, expression_life_code, function_validation_code,
    primitive_access_code, state_update_code, Cond, Instr, REGISTERS,
};
use mindbend::errors;
use mindbend::machine::Machine;

struct Run {
    regs: Vec<i32>,
    out: Vec<u8>,
    status: i32,
}

/// Runs instructions on a machine, one after the other.
fn run(code: &[Instr], m: &mut Machine, input: &[u8], cursor: &mut usize) -> Run {
    let mut r = Run { regs: vec![0; REGISTERS], out: Vec::new(), status: 0 };
    let mut pc = 0;
    while pc < code.len() {
        let reg = |r: &Run, x: &u8| r.regs[*x as usize];
        match &code[pc] {
            Instr::When(x, n) => {
                pc += 1;
                if r.regs[*x as usize] == 0 {
                    pc += *n as usize;
                }
                continue;
            }
            Instr::Const(d, v) => r.regs[*d as usize] = *v,
            Instr::LoadCell(d, c) => r.regs[*d as usize] = m.cells[*c as usize],
            Instr::LoadTtl(d, c) => r.regs[*d as usize] = m.ttl_table[*c as usize] as i32,
            Instr::LoadRegion(d) => r.regs[*d as usize] = m.curr_region as i32,
            Instr::LoadGates(d) => r.regs[*d as usize] = m.curr_gates_state as i32,
            Instr::LoadTtso(d) => r.regs[*d as usize] = m.gates_ttso as i32,
            Instr::StoreCell(c, x) => m.cells[*c as usize] = reg(&r, x),
            Instr::StoreTtl(c, x) => m.ttl_table[*c as usize] = reg(&r, x) as u8,
            Instr::StoreGates(x) => m.curr_gates_state = reg(&r, x) as u8,
            Instr::StoreTtso(x) => m.gates_ttso = reg(&r, x) as u8,
            Instr::Add(d, a, b) => r.regs[*d as usize] = reg(&r, a).wrapping_add(reg(&r, b)),
            Instr::Sub(d, a, b) => r.regs[*d as usize] = reg(&r, a).wrapping_sub(reg(&r, b)),
            Instr::Mul(d, a, b) => r.regs[*d as usize] = reg(&r, a).wrapping_mul(reg(&r, b)),
            Instr::Compare(d, c, a, b) => {
                let (x, y) = (reg(&r, a), reg(&r, b));
                let holds = match c {
                    Cond::Eq => x == y,
                    Cond::Ne => x != y,
                    Cond::Ult => (x as u32) < (y as u32),
                    Cond::Ugt => (x as u32) > (y as u32),
                };
                r.regs[*d as usize] = holds as i32;
            }
            Instr::Putchar(x) => r.out.push(reg(&r, x) as u8),
            Instr::Getchar(d) => {
                r.regs[*d as usize] = if *cursor < input.len() { input[*cursor] as i32 } else { -1 };
                if *cursor < input.len() {
                    *cursor += 1;
                }
            }
            Instr::Print(bytes) => r.out.extend_from_slice(bytes),
            Instr::Status(x) => r.status = reg(&r, x),
        }
        pc += 1;
    }
    r
}

#[test]
fn state_update_code_ticks_like_the_routine() {
    let mut a = Machine::new();
    a.set_cell(3, 7);
    a.set_ttl(3, 1);
    a.set_ttl(4, 4);
    a.gates_ttso = 1;
    a.curr_gates_state = 3;
    let mut b = Machine::new();
    b.set_cell(3, 7);
    b.set_ttl(3, 1);
    b.set_ttl(4, 4);
    b.gates_ttso = 1;
    b.curr_gates_state = 3;
    let mut cursor = 0;
    let r = run(&state_update_code(true), &mut a, b"", &mut cursor);
    b.state_update(true);
    assert_eq!((&a.cells, &a.ttl_table, a.curr_gates_state, a.gates_ttso), (&b.cells, &b.ttl_table, b.curr_gates_state, b.gates_ttso));
    assert_eq!((a.cells[3], a.ttl_table[4], r.status), (-1, 3, 0));
}

#[test]
fn drill_gate_code_opens_gates_and_refuses_outside_the_layers() {
    let mut m = Machine::new();
    let mut cursor = 0;
    let r = run(&drill_gate_code(), &mut m, b"", &mut cursor);
    assert_eq!((r.status, r.out), (1, errors::err_invalid_gate_access_region_not_layers_runtime().into_bytes()));
    m.curr_region = 1;
    for _ in 0..3 {
        let r = run(&drill_gate_code(), &mut m, b"", &mut cursor);
        assert_eq!(r.status, 0);
    }
    assert_eq!((m.curr_gates_state, m.gates_ttso), (3, 5));
}

#[test]
fn access_checks_report_like_the_routines() {
    let mut m = Machine::new();
    let mut cursor = 0;
    let r = run(&primitive_access_code(), &mut m, b"", &mut cursor);
    assert_eq!((r.status, r.out), (1, errors::err_invalid_primitive_access_region_not_layers_runtime().into_bytes()));
    m.curr_region = 1;
    let r = run(&primitive_access_code(), &mut m, b"", &mut cursor);
    assert_eq!((r.status, r.out), (1, errors::err_invalid_primitive_access_gates_not_open_runtime().into_bytes()));
    m.curr_gates_state = 3;
    assert_eq!(run(&primitive_access_code(), &mut m, b"", &mut cursor).status, 0);
    assert_eq!(run(&cell_access_code(), &mut m, b"", &mut cursor).status, 1);
    m.curr_region = 0;
    assert_eq!(run(&cell_access_code(), &mut m, b"", &mut cursor).status, 0);
    assert_eq!(run(&expression_life_code(2), &mut m, b"", &mut cursor).status, 1);
    m.set_ttl(2, 3);
    assert_eq!(run(&expression_life_code(2), &mut m, b"", &mut cursor).status, 0);
}

#[test]
fn function_validation_code_prints_only_for_living_non_functions() {
    let mut m = Machine::new();
    let mut cursor = 0;
    let r = run(&function_validation_code(0), &mut m, b"", &mut cursor);
    assert_eq!((r.status, r.out.len()), (1, 0));
    m.set_cell(0, 9);
    m.set_ttl(0, 5);
    let r = run(&function_validation_code(0), &mut m, b"", &mut cursor);
    assert_eq!((r.status, r.out), (1, errors::err_attempt_to_use_non_function_primitive_to_massacre().into_bytes()));
    m.set_cell(0, 2);
    assert_eq!(run(&function_validation_code(0), &mut m, b"", &mut cursor).status, 0);
}

#[test]
fn call_code_matches_the_machine_call() {
    for (f_value, input) in [(0, b"".as_slice()), (1, b"".as_slice()), (2, b"".as_slice()), (3, b"q".as_slice())] {
        let mut a = Machine::new();
        a.set_cell(0, f_value);
        a.set_ttl(0, 5);
        a.set_cell(1, 6);
        a.set_cell(2, 5);
        a.set_cell(3, 4);
        let mut cursor = 0;
        let r = run(&call_code(0, &vec![1, 2, 3]), &mut a, input, &mut cursor);
        assert_eq!(r.status, 0);
        match f_value {
            0 => assert_eq!(a.cells[3], 6 - 6 - 5 - 4),
            1 => assert_eq!(a.cells[3], 6 + 6 + 5 + 4),
            2 => assert_eq!(r.out, vec![65u8, 4]),
            _ => assert_eq!((a.cells[1], cursor), (b'q' as i32, 1)),
        }
        assert_eq!(r.regs.len(), REGISTERS);
    }
}
