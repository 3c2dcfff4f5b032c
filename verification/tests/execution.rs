use tape_vm::{Action, Fault, Outcome, Program, Report};

fn run(text: &str, input: &[u8], max_steps: u64) -> (Program, Report) {
    let mut program = Program::from_str(text).unwrap();
    let report = program.run(input, max_steps);
    (program, report)
}

#[test]
fn two_increments_then_output() {
    let (program, report) = run("++.", &[], 1_000);
    assert_eq!(report.output, vec![0x02]);
    assert_eq!(report.outcome, Outcome::Halted);
    assert_eq!(report.consumed, 0);
    assert!(program.halted());
}

#[test]
fn echoes_one_input_byte() {
    let (_, report) = run(",.", &[0x41], 1_000);
    assert_eq!(report.output, vec![0x41]);
    assert_eq!(report.outcome, Outcome::Halted);
    assert_eq!(report.consumed, 1);
}

#[test]
fn input_on_an_exhausted_source_is_a_no_op() {
    let (program, report) = run(",.", &[], 1_000);
    assert_eq!(program.cell(), 0);
    assert_eq!(report.output, vec![0x00]);
    assert_eq!(report.outcome, Outcome::Halted);
    assert_eq!(report.consumed, 0);
}

#[test]
fn exhausted_input_leaves_the_cell_as_it_is() {
    let (program, report) = run("+++,.", &[], 1_000);
    assert_eq!(program.cell(), 3);
    assert_eq!(report.output, vec![3]);
    assert_eq!(report.outcome, Outcome::Halted);
}

#[test]
fn input_overwrites_the_cell() {
    let (program, report) = run("+++,", &[0xff, 0x10], 1_000);
    assert_eq!(program.cell(), 0xff);
    assert_eq!(report.consumed, 1);
    assert_eq!(report.outcome, Outcome::Halted);
}

#[test]
fn reads_input_bytes_in_order() {
    let (program, report) = run(",>,>,>,", &[7, 8, 9], 1_000);
    assert_eq!(&program.data()[..4], &[7, 8, 9, 0]);
    assert_eq!(report.consumed, 3);
    assert_eq!(report.outcome, Outcome::Halted);
}

#[test]
fn clear_loop_on_one_runs_exactly_once() {
    // `+` is one step, entering the loop one, `-` one, leaving at `]` one.
    let (program, report) = run("+[-]", &[], 4);
    assert_eq!(report.outcome, Outcome::Halted);
    assert_eq!(report.output, Vec::<u8>::new());
    assert_eq!(program.cell(), 0);
    assert_eq!(program.instruction_pointer(), 4);

    let (program, report) = run("+[-]", &[], 3);
    assert_eq!(report.outcome, Outcome::OutOfSteps);
    assert_eq!(program.instruction_pointer(), 3);
    assert_eq!(program.cell(), 0);
}

#[test]
fn clear_loop_takes_two_steps_for_each_unit() {
    let (program, report) = run("+++++[-]", &[], 5 + 2 * 5 + 1);
    assert_eq!(report.outcome, Outcome::Halted);
    assert_eq!(program.cell(), 0);
    let (program, report) = run("+++++[-]", &[], 5 + 2 * 5);
    assert_eq!(report.outcome, Outcome::OutOfSteps);
    assert_eq!(program.instruction_pointer(), 7);
}

#[test]
fn loop_is_left_exactly_when_the_cell_is_zero() {
    let mut program = Program::from_str("+++[-]").unwrap();
    let mut values_at_close = Vec::new();
    loop {
        let at_close = program.instruction_pointer() == 5;
        let value = program.cell();
        match program.step(None).unwrap() {
            Action::Halt => break,
            _ => {
                if at_close {
                    values_at_close.push((value, program.instruction_pointer()));
                }
            }
        }
    }
    assert_eq!(values_at_close, vec![(2, 4), (1, 4), (0, 6)]);
}

#[test]
fn nested_loops_multiply() {
    // 3 * 4, with the product in the third cell.
    let (program, report) = run("+++[>++++[>+<-]<-]>>.", &[], 10_000);
    assert_eq!(report.outcome, Outcome::Halted);
    assert_eq!(report.output, vec![12]);
    assert_eq!(&program.data()[..3], &[0, 0, 12]);
}

#[test]
fn deeply_nested_loops_end_when_their_cells_reach_zero() {
    let (program, report) = run("+[>+[>+[>+[-]<-]<-]<-]", &[], 10_000);
    assert_eq!(report.outcome, Outcome::Halted);
    assert_eq!(&program.data()[..4], &[0, 0, 0, 0]);
    assert_eq!(program.instruction_pointer(), 22);
}

#[test]
fn increment_wraps_at_255() {
    let text = "+".repeat(255);
    let (program, _) = run(&text, &[], 1_000);
    assert_eq!(program.cell(), 255);
    let text = "+".repeat(256);
    let (program, report) = run(&text, &[], 1_000);
    assert_eq!(program.cell(), 0);
    assert_eq!(report.outcome, Outcome::Halted);
}

#[test]
fn decrement_wraps_at_zero() {
    let (program, report) = run("-", &[], 1_000);
    assert_eq!(program.cell(), 255);
    assert_eq!(report.outcome, Outcome::Halted);
    let text = "-".repeat(256);
    let (program, _) = run(&text, &[], 1_000);
    assert_eq!(program.cell(), 0);
}

#[test]
fn increment_and_decrement_undo_each_other() {
    for start in [0usize, 1, 127, 254, 255] {
        let text = format!("{}+-.-+.", "+".repeat(start));
        let (_, report) = run(&text, &[], 10_000);
        assert_eq!(report.output, vec![start as u8, start as u8]);
    }
}

#[test]
fn comments_only_halt_at_once() {
    let mut program = Program::from_str("nothing to do, is there?".replace(',', ";").as_str())
        .unwrap();
    assert!(program.halted());
    assert_eq!(program.current(), None);
    let report = program.run(&[1, 2, 3], 0);
    assert_eq!(report, Report { consumed: 0, output: vec![], outcome: Outcome::Halted });
    assert_eq!(program.step(Some(Ok(9))), Ok(Action::Halt));
    assert_eq!(program.instruction_pointer(), 0);
    assert_eq!(program.cell(), 0);
}

#[test]
fn halted_machine_stays_halted() {
    let mut program = Program::from_str("+").unwrap();
    assert_eq!(program.step(None), Ok(Action::Continue));
    for _ in 0..3 {
        assert_eq!(program.step(None), Ok(Action::Halt));
        assert_eq!(program.instruction_pointer(), 1);
        assert_eq!(program.cell(), 1);
    }
}

#[test]
fn each_step_tells_the_host_what_to_do() {
    let mut program = Program::from_str("+.>,.").unwrap();
    assert!(!program.awaits_input());
    assert_eq!(program.step(None), Ok(Action::Continue));
    assert_eq!(program.step(None), Ok(Action::Emit(1)));
    assert_eq!(program.step(None), Ok(Action::Continue));
    assert_eq!(program.data_pointer(), 1);
    assert!(program.awaits_input());
    assert_eq!(program.step(Some(Ok(b'z'))), Ok(Action::Continue));
    assert!(!program.awaits_input());
    assert_eq!(program.step(None), Ok(Action::Emit(b'z')));
    assert_eq!(program.step(None), Ok(Action::Halt));
}

#[test]
fn only_the_input_instruction_looks_at_the_input() {
    let mut program = Program::from_str("+.").unwrap();
    assert_eq!(program.step(Some(Ok(42))), Ok(Action::Continue));
    assert_eq!(program.cell(), 1);
    assert_eq!(program.step(Some(Err("unreadable".to_string()))), Ok(Action::Emit(1)));
}

#[test]
fn unreadable_input_is_a_fault() {
    let mut program = Program::from_str("+,.").unwrap();
    program.step(None).unwrap();
    let fault = program.step(Some(Err("broken pipe".to_string()))).unwrap_err();
    assert_eq!(fault, Fault::InputDecodeFailure { description: "broken pipe".to_string() });
    // Nothing moved.
    assert_eq!(program.instruction_pointer(), 1);
    assert_eq!(program.cell(), 1);
}

#[test]
fn budget_of_zero_takes_no_step() {
    let (program, report) = run("+.", &[], 0);
    assert_eq!(report, Report { consumed: 0, output: vec![], outcome: Outcome::OutOfSteps });
    assert_eq!(program.instruction_pointer(), 0);
    assert_eq!(program.cell(), 0);
}

#[test]
fn run_can_be_taken_up_again() {
    let text = ",.>,.>,.>+++[-].";
    let input = [5u8, 6, 7];
    let (whole_program, whole) = run(text, &input, 1_000);
    assert_eq!(whole.outcome, Outcome::Halted);
    assert_eq!(whole.output, vec![5, 6, 7, 0]);
    assert_eq!(whole.consumed, 3);

    for first in 0..25u64 {
        let mut program = Program::from_str(text).unwrap();
        let head = program.run(&input, first);
        let mut output = head.output.clone();
        let mut consumed = head.consumed;
        let mut outcome = head.outcome;
        if outcome == Outcome::OutOfSteps {
            let tail = program.run(&input[consumed..], 1_000 - first);
            output.extend(tail.output);
            consumed += tail.consumed;
            outcome = tail.outcome;
        }
        assert_eq!(output, whole.output);
        assert_eq!(consumed, whole.consumed);
        assert_eq!(outcome, whole.outcome);
        assert_eq!(program.data(), whole_program.data());
        assert_eq!(program.instruction_pointer(), whole_program.instruction_pointer());
    }
}

#[test]
fn endless_loop_uses_up_any_budget() {
    let (program, report) = run("+[]", &[], 12_345);
    assert_eq!(report.outcome, Outcome::OutOfSteps);
    assert_eq!(program.cell(), 1);
}

#[test]
fn prints_a_greeting() {
    let text = "++++++++[>++++[>++>+++>+++>+<<<<-]>+>+>->>+[<]<-]>>.>---.+++++++..+++.\
                >>.<-.<.+++.------.--------.>>+.>++.";
    let (_, report) = run(text, &[], 100_000);
    assert_eq!(report.outcome, Outcome::Halted);
    assert_eq!(report.output, b"Hello World!\n".to_vec());
}

#[test]
fn reverses_its_input() {
    let (_, report) = run(">,[>,]<[.<]", b"stressed", 100_000);
    assert_eq!(report.outcome, Outcome::Halted);
    assert_eq!(report.output, b"desserts".to_vec());
    assert_eq!(report.consumed, 8);
}
