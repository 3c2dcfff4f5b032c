use tape_vm::bracket::{find_backward_match, find_forward_match};
use tape_vm::{compile, Action, Direction, Fault, Outcome, Program};

#[test]
fn forward_scan_finds_the_closing_bracket() {
    let program = compile("[-]");
    assert_eq!(find_forward_match(&program, 0), Some(2));
}

#[test]
fn backward_scan_finds_the_opening_bracket() {
    let program = compile("[-]");
    assert_eq!(find_backward_match(&program, 2), Some(0));
}

#[test]
fn scans_respect_nesting() {
    let program = compile("[[]]");
    assert_eq!(find_forward_match(&program, 0), Some(3));
    assert_eq!(find_forward_match(&program, 1), Some(2));
    assert_eq!(find_backward_match(&program, 3), Some(0));
    assert_eq!(find_backward_match(&program, 2), Some(1));
}

#[test]
fn scans_skip_sibling_loops() {
    let program = compile("[+[-]>[<]+]..[]");
    assert_eq!(find_forward_match(&program, 0), Some(10));
    assert_eq!(find_forward_match(&program, 2), Some(4));
    assert_eq!(find_forward_match(&program, 6), Some(8));
    assert_eq!(find_forward_match(&program, 13), Some(14));
    assert_eq!(find_backward_match(&program, 10), Some(0));
    assert_eq!(find_backward_match(&program, 4), Some(2));
    assert_eq!(find_backward_match(&program, 8), Some(6));
    assert_eq!(find_backward_match(&program, 14), Some(13));
}

#[test]
fn forward_scan_runs_off_the_end() {
    assert_eq!(find_forward_match(&compile("["), 0), None);
    assert_eq!(find_forward_match(&compile("[[]"), 0), None);
    assert_eq!(find_forward_match(&compile("[+-.,<>"), 0), None);
    assert_eq!(find_forward_match(&compile("][]"), 0), None);
}

#[test]
fn scans_start_with_a_counter_of_one_wherever_they_start() {
    assert_eq!(find_forward_match(&compile("+]"), 0), Some(1));
    assert_eq!(find_forward_match(&compile("][]]"), 0), Some(3));
    assert_eq!(find_backward_match(&compile("[+"), 1), Some(0));
    assert_eq!(find_backward_match(&compile("[[]["), 3), Some(0));
}

#[test]
fn backward_scan_runs_off_the_beginning() {
    assert_eq!(find_backward_match(&compile("]"), 0), None);
    assert_eq!(find_backward_match(&compile("[]]"), 2), None);
    assert_eq!(find_backward_match(&compile("+-.,<>]"), 6), None);
}

#[test]
fn scans_from_outside_the_program_find_nothing() {
    let program = compile("[]");
    assert_eq!(find_forward_match(&program, 2), None);
    assert_eq!(find_forward_match(&program, usize::MAX), None);
    assert_eq!(find_backward_match(&program, 2), None);
    assert_eq!(find_backward_match(&program, usize::MAX), None);
    assert_eq!(find_forward_match(&[], 0), None);
    assert_eq!(find_backward_match(&[], 0), None);
}

#[test]
fn matching_is_mutual() {
    let program = compile("+[>[-]<[[+]>]-]<[.]");
    for (open, instruction) in program.iter().enumerate() {
        if *instruction == tape_vm::Instruction::JmpForwardIfZero {
            let close = find_forward_match(&program, open).unwrap();
            assert_eq!(program[close], tape_vm::Instruction::JmpBackwardIfNonZero);
            assert_eq!(find_backward_match(&program, close), Some(open));
        }
    }
}

#[test]
fn zero_cell_skips_nested_loops_in_one_step() {
    let mut program = Program::from_str("[[]]").unwrap();
    assert_eq!(program.step(None), Ok(Action::Continue));
    assert_eq!(program.instruction_pointer(), 4);
    assert!(program.halted());
    assert_eq!(program.step(None), Ok(Action::Halt));
}

#[test]
fn nonzero_cell_enters_nested_loops_and_goes_back() {
    let mut program = Program::from_str("+[[]]").unwrap();
    assert_eq!(program.step(None), Ok(Action::Continue));
    assert_eq!(program.step(None), Ok(Action::Continue));
    assert_eq!(program.instruction_pointer(), 2);
    assert_eq!(program.step(None), Ok(Action::Continue));
    assert_eq!(program.instruction_pointer(), 3);
    // The inner `]` sees a nonzero cell and goes back to just after its `[`.
    assert_eq!(program.step(None), Ok(Action::Continue));
    assert_eq!(program.instruction_pointer(), 3);
}

#[test]
fn nested_loops_on_an_unchanging_nonzero_cell_never_end() {
    let mut program = Program::from_str("+[[]]").unwrap();
    let report = program.run(&[], 10_000);
    assert_eq!(report.outcome, Outcome::OutOfSteps);
    assert_eq!(report.output, Vec::<u8>::new());
    assert_eq!(program.instruction_pointer(), 3);
    assert_eq!(program.cell(), 1);
}

#[test]
fn jumps_do_not_depend_on_the_rest_of_the_tape() {
    // Same program and position, different tapes, both with a nonzero
    // current cell: the `]` sends both to the same place.
    let mut one = Program::from_str("+++>++[>+<-]").unwrap();
    let mut other = Program::from_str("-->+++[>+<-]").unwrap();
    for _ in 0..11 {
        one.step(None).unwrap();
    }
    for _ in 0..11 {
        other.step(None).unwrap();
    }
    assert_eq!(one.instruction_pointer(), 11);
    assert_eq!(other.instruction_pointer(), 11);
    assert_ne!(one.data()[..3], other.data()[..3]);
    assert_eq!(one.step(None), Ok(Action::Continue));
    assert_eq!(other.step(None), Ok(Action::Continue));
    assert_eq!(one.instruction_pointer(), 7);
    assert_eq!(other.instruction_pointer(), 7);
}

#[test]
fn lone_open_bracket_faults_at_position_zero() {
    let mut program = Program::from_str("[").unwrap();
    let report = program.run(&[], 100);
    assert_eq!(
        report.outcome,
        Outcome::Faulted(Fault::UnmatchedBracket { direction: Direction::Forward, position: 0 })
    );
    assert_eq!(report.output, Vec::<u8>::new());
    assert_eq!(report.consumed, 0);
}

#[test]
fn unmatched_open_bracket_reports_its_own_index() {
    let mut program = Program::from_str("+-[]>[+[-]").unwrap();
    let report = program.run(&[], 100);
    assert_eq!(
        report.outcome,
        Outcome::Faulted(Fault::UnmatchedBracket { direction: Direction::Forward, position: 5 })
    );
    // The machine stays at the faulting instruction.
    assert_eq!(program.instruction_pointer(), 5);
}

#[test]
fn unmatched_close_bracket_reports_its_own_index() {
    let mut program = Program::from_str("+]").unwrap();
    let report = program.run(&[], 100);
    assert_eq!(
        report.outcome,
        Outcome::Faulted(Fault::UnmatchedBracket { direction: Direction::Backward, position: 1 })
    );
    assert_eq!(program.instruction_pointer(), 1);
    assert_eq!(program.cell(), 1);
}

#[test]
fn unmatched_close_bracket_after_a_closed_loop() {
    let mut program = Program::from_str("[]+]").unwrap();
    let report = program.run(&[], 100);
    assert_eq!(
        report.outcome,
        Outcome::Faulted(Fault::UnmatchedBracket { direction: Direction::Backward, position: 3 })
    );
}

#[test]
fn unmatched_brackets_that_never_scan_do_not_fault() {
    // `[` on a nonzero cell enters; `]` on a zero cell falls through.
    let mut entered = Program::from_str("+[").unwrap();
    assert_eq!(entered.run(&[], 100).outcome, Outcome::Halted);
    let mut fell_through = Program::from_str("]").unwrap();
    assert_eq!(fell_through.run(&[], 100).outcome, Outcome::Halted);
}
