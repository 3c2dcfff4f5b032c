//! What holds of every machine: the shape that steps keep, how loops are
//! entered and left, when brackets fault, and how cells wrap.

use vstd::prelude::*;
use crate::bracket::{
    backward_match,
    forward_depth,
    forward_match,
    is_forward_match,
    lemma_forward_match_goes_back,
    lemma_forward_match_unique,
    nesting,
};
use crate::fault::{Direction, Fault};
use crate::instruction::{compiled, lemma_compiled_comment_is_empty, Instruction};
use crate::machine::{
    decrement,
    increment,
    incremented,
    next_input,
    Action,
    Machine,
    Outcome,
    Trace,
};

verus! {

/// A step keeps the machine well formed, never touches the program and never
/// resizes the tape. It halts exactly on a halted machine, and a step that
/// faults leaves the machine as it was.
pub proof fn lemma_step_keeps_shape(machine: Machine, input: Option<Result<u8, String>>)
    requires
        machine.well_formed(),
    ensures
        machine.step(input).0.well_formed(),
        machine.step(input).0.instructions == machine.instructions,
        machine.step(input).0.tape.len() == machine.tape.len(),
        machine.step(input).1 is Err ==> machine.step(input).0 == machine,
        machine.step(input).1 == Ok::<Action, Fault>(Action::Halt) <==> machine.halted(),
        machine.halted() ==> machine.step(input).0 == machine,
{
}

/// A run keeps the machine well formed and the program untouched, and it
/// reports a halt exactly when it leaves the machine halted.
pub proof fn lemma_run_keeps_shape(machine: Machine, input: Seq<u8>, steps: nat)
    requires
        machine.well_formed(),
    ensures
        machine.run(input, steps).machine.well_formed(),
        machine.run(input, steps).machine.instructions == machine.instructions,
        machine.run(input, steps).outcome == Outcome::Halted <==> machine.run(
            input,
            steps,
        ).machine.halted(),
    decreases steps,
{
    if !machine.halted() && steps > 0 {
        let (next, result) = machine.step(next_input(input));
        lemma_step_keeps_shape(machine, next_input(input));
        if let Ok(action) = result {
            let read: int = if machine.awaits_input() && input.len() > 0 {
                1
            } else {
                0
            };
            lemma_run_keeps_shape(next, input.skip(read), (steps - 1) as nat);
        }
    }
}

/// A text without any of the eight symbols compiles to the empty program,
/// and that program halts at once: no step, no input read, nothing written.
pub proof fn lemma_comment_runs_to_nothing(text: Seq<char>, input: Seq<u8>, steps: nat)
    requires
        forall|i: int| 0 <= i < text.len() ==> Instruction::decode(#[trigger] text[i]) is None,
    ensures
        compiled(text).len() == 0,
        Machine::initial(compiled(text)).run(input, steps) == (Trace {
            machine: Machine::initial(compiled(text)),
            consumed: 0,
            output: Seq::empty(),
            outcome: Outcome::Halted,
        }),
{
    lemma_compiled_comment_is_empty(text);
}

/// Both brackets of a pair decide alike, whatever lies between them and
/// however deep they are nested: on a zero cell the machine goes on just
/// after the `]`, on any other into the body just after the `[`. So a loop
/// is left exactly when the cell is zero.
pub proof fn lemma_loop_decision(
    machine: Machine,
    input: Option<Result<u8, String>>,
    open: int,
    close: int,
)
    requires
        machine.well_formed(),
        machine.instructions[open] == Instruction::JmpForwardIfZero,
        is_forward_match(machine.instructions, open, close),
        machine.instruction_pointer == open || machine.instruction_pointer == close,
    ensures
        machine.step(input) == (
            machine.jump(
                if machine.cell() == 0 {
                    close + 1
                } else {
                    open + 1
                },
            ),
            Ok::<Action, Fault>(Action::Continue),
        ),
{
    lemma_forward_match_unique(machine.instructions, open, close);
    lemma_forward_match_goes_back(machine.instructions, open, close);
}

/// Where a bracket sends the machine depends on the program, the position
/// and on whether the current cell is zero, and on nothing else on the tape
/// or in the input.
pub proof fn lemma_jump_ignores_tape(
    one: Machine,
    other: Machine,
    input_one: Option<Result<u8, String>>,
    input_other: Option<Result<u8, String>>,
)
    requires
        one.instructions == other.instructions,
        one.instruction_pointer == other.instruction_pointer,
        !one.halted(),
        one.current() == Instruction::JmpForwardIfZero || one.current()
            == Instruction::JmpBackwardIfNonZero,
        (one.cell() == 0) == (other.cell() == 0),
    ensures
        one.step(input_one).0.instruction_pointer == other.step(
            input_other,
        ).0.instruction_pointer,
        one.step(input_one).1 == other.step(input_other).1,
{
}

/// A `[` that no `]` closes faults when it is executed on a zero cell, and
/// reports its own position; a `]` that no `[` opens faults when it is
/// executed on a nonzero cell, and reports its own position. No other step
/// reports an unmatched bracket.
pub proof fn lemma_unmatched_bracket_faults(machine: Machine, input: Option<Result<u8, String>>)
    requires
        machine.well_formed(),
    ensures
        !machine.halted() && machine.current() == Instruction::JmpForwardIfZero && machine.cell()
            == 0 && forward_match(machine.instructions, machine.instruction_pointer) is None
            <==> machine.step(input).1 == Err::<Action, Fault>(
            Fault::UnmatchedBracket {
                direction: Direction::Forward,
                position: machine.instruction_pointer as usize,
            },
        ),
        !machine.halted() && machine.current() == Instruction::JmpBackwardIfNonZero
            && machine.cell() != 0 && backward_match(
            machine.instructions,
            machine.instruction_pointer,
        ) is None <==> machine.step(input).1 == Err::<Action, Fault>(
            Fault::UnmatchedBracket {
                direction: Direction::Backward,
                position: machine.instruction_pointer as usize,
            },
        ),
        machine.step(input).1 matches Err(Fault::UnmatchedBracket { position, .. })
            ==> position == machine.instruction_pointer,
{
}

/// `+` and `-` undo each other.
pub proof fn lemma_increment_decrement_inverse(value: u8)
    ensures
        decrement(increment(value)) == value,
        increment(decrement(value)) == value,
{
}

/// A run can be taken up again: running out of steps and going on with
/// the rest of the input amounts to one run on the sum of the budgets. A
/// run that halted or faulted is not changed by a larger budget.
pub proof fn lemma_run_resume(machine: Machine, input: Seq<u8>, first: nat, second: nat)
    ensures
        machine.run(input, first + second) == if machine.run(input, first).outcome
            == Outcome::OutOfSteps {
            machine.run(input, first).machine.run(
                input.skip(machine.run(input, first).consumed),
                second,
            ).after(machine.run(input, first).consumed, machine.run(input, first).output)
        } else {
            machine.run(input, first)
        },
    decreases first,
{
    let head = machine.run(input, first);
    let whole = machine.run(input, first + second);
    if machine.halted() {
    } else if first == 0 {
        assert(input.skip(0) =~= input);
        let tail = machine.run(input, second);
        assert(Seq::<u8>::empty() + tail.output =~= tail.output);
    } else {
        let (next, result) = machine.step(next_input(input));
        if let Ok(action) = result {
            let read: int = if machine.awaits_input() && input.len() > 0 {
                1
            } else {
                0
            };
            let written = match action {
                Action::Emit(byte) => seq![byte],
                _ => Seq::empty(),
            };
            let rest = input.skip(read);
            lemma_run_resume(next, rest, (first - 1) as nat, second);
            let inner = next.run(rest, (first - 1) as nat);
            assert(head == inner.after(read, written));
            assert(whole == next.run(rest, (first - 1 + second) as nat).after(read, written));
            if inner.outcome == Outcome::OutOfSteps {
                let tail = inner.machine.run(rest.skip(inner.consumed), second);
                lemma_run_reads_within_input(next, rest, (first - 1) as nat);
                assert(rest.skip(inner.consumed) =~= input.skip(read + inner.consumed));
                assert(written + (inner.output + tail.output) =~= (written + inner.output)
                    + tail.output);
            }
        }
    }
}

/// A run reads no more input than there is.
pub proof fn lemma_run_reads_within_input(machine: Machine, input: Seq<u8>, steps: nat)
    ensures
        0 <= machine.run(input, steps).consumed <= input.len(),
    decreases steps,
{
    if !machine.halted() && steps > 0 {
        let (next, result) = machine.step(next_input(input));
        if let Ok(action) = result {
            let read: int = if machine.awaits_input() && input.len() > 0 {
                1
            } else {
                0
            };
            lemma_run_reads_within_input(next, input.skip(read), (steps - 1) as nat);
        }
    }
}

/// A stretch of `count` increments takes `count` steps, reads and writes
/// nothing, and adds `count` to the current cell modulo 256.
pub proof fn lemma_run_of_increments(machine: Machine, input: Seq<u8>, count: nat)
    requires
        machine.well_formed(),
        machine.instruction_pointer + count <= machine.instructions.len(),
        forall|k: int|
            machine.instruction_pointer <= k < machine.instruction_pointer + count
                ==> #[trigger] machine.instructions[k] == Instruction::Increment,
    ensures
        machine.run(input, count) == (Trace {
            machine: machine.store(incremented(machine.cell(), count)).jump(
                machine.instruction_pointer + count,
            ),
            consumed: 0,
            output: Seq::empty(),
            outcome: if machine.instruction_pointer + count >= machine.instructions.len() {
                Outcome::Halted
            } else {
                Outcome::OutOfSteps
            },
        }),
    decreases count,
{
    if count == 0 {
        assert(machine.tape.update(machine.data_pointer, machine.cell()) =~= machine.tape);
    } else {
        assert(machine.current() == Instruction::Increment);
        let next = machine.store(increment(machine.cell())).advance();
        assert(machine.step(next_input(input)) == (next, Ok::<Action, Fault>(Action::Continue)));
        lemma_run_of_increments(next, input, (count - 1) as nat);
        assert(input.skip(0) =~= input);
        let tail = next.run(input, (count - 1) as nat);
        assert(Seq::<u8>::empty() + tail.output =~= Seq::<u8>::empty());
        assert(incremented(next.cell(), (count - 1) as nat) == incremented(
            machine.cell(),
            count,
        ));
        assert(next.tape.update(next.data_pointer, incremented(machine.cell(), count))
            =~= machine.tape.update(
            machine.data_pointer,
            incremented(machine.cell(), count),
        ));
    }
}

/// 256 increments in a row bring every cell value back to itself: the tape
/// after them is the tape before them.
pub proof fn lemma_full_circle(machine: Machine, input: Seq<u8>)
    requires
        machine.well_formed(),
        machine.instruction_pointer + 256 <= machine.instructions.len(),
        forall|k: int|
            machine.instruction_pointer <= k < machine.instruction_pointer + 256
                ==> #[trigger] machine.instructions[k] == Instruction::Increment,
    ensures
        incremented(machine.cell(), 256) == machine.cell(),
        machine.run(input, 256) == (Trace {
            machine: machine.jump(machine.instruction_pointer + 256),
            consumed: 0,
            output: Seq::empty(),
            outcome: if machine.instruction_pointer + 256 >= machine.instructions.len() {
                Outcome::Halted
            } else {
                Outcome::OutOfSteps
            },
        }),
{
    lemma_run_of_increments(machine, input, 256);
    assert(machine.tape.update(machine.data_pointer, machine.cell()) =~= machine.tape);
}

/// The loop `[-]` clears the current cell, whatever it holds and wherever in
/// a program it stands: it runs once round for each unit of the cell, takes
/// twice the cell's value and one more step, reads and writes nothing, and
/// leaves the machine just after its `]`.
pub proof fn lemma_clear_loop(machine: Machine, input: Seq<u8>)
    requires
        machine.well_formed(),
        machine.instruction_pointer + 3 <= machine.instructions.len(),
        machine.instructions[machine.instruction_pointer] == Instruction::JmpForwardIfZero,
        machine.instructions[machine.instruction_pointer + 1] == Instruction::Decrement,
        machine.instructions[machine.instruction_pointer + 2]
            == Instruction::JmpBackwardIfNonZero,
    ensures
        machine.run(input, 2 * machine.cell() as nat + 1) == (Trace {
            machine: machine.store(0).jump(machine.instruction_pointer + 3),
            consumed: 0,
            output: Seq::empty(),
            outcome: if machine.instruction_pointer + 3 >= machine.instructions.len() {
                Outcome::Halted
            } else {
                Outcome::OutOfSteps
            },
        }),
{
    let open = machine.instruction_pointer;
    lemma_clear_loop_pair(machine.instructions, open);
    lemma_loop_decision(machine, next_input(input), open, open + 2);
    assert(input.skip(0) =~= input);
    if machine.cell() == 0 {
        let next = machine.jump(open + 3);
        let tail = next.run(input, 0);
        assert(Seq::<u8>::empty() + tail.output =~= Seq::<u8>::empty());
        assert(machine.tape.update(machine.data_pointer, 0u8) =~= machine.tape);
    } else {
        let next = machine.jump(open + 1);
        lemma_clear_loop_body(next, input);
        let tail = next.run(input, 2 * machine.cell() as nat);
        assert(Seq::<u8>::empty() + tail.output =~= Seq::<u8>::empty());
    }
}

/// In `[-]` the brackets are a pair.
proof fn lemma_clear_loop_pair(program: Seq<Instruction>, open: int)
    requires
        0 <= open,
        open + 3 <= program.len(),
        program[open] == Instruction::JmpForwardIfZero,
        program[open + 1] == Instruction::Decrement,
        program[open + 2] == Instruction::JmpBackwardIfNonZero,
    ensures
        is_forward_match(program, open, open + 2),
{
    reveal_with_fuel(nesting, 3);
    assert(forward_depth(program, open, open + 1) == 1);
    assert(forward_depth(program, open, open + 2) == 0);
}

/// From the `-` of `[-]` with a nonzero cell, twice the cell's value in
/// steps clear the cell and leave the loop.
proof fn lemma_clear_loop_body(machine: Machine, input: Seq<u8>)
    requires
        machine.well_formed(),
        machine.instruction_pointer >= 1,
        machine.instruction_pointer + 2 <= machine.instructions.len(),
        machine.instructions[machine.instruction_pointer - 1] == Instruction::JmpForwardIfZero,
        machine.instructions[machine.instruction_pointer] == Instruction::Decrement,
        machine.instructions[machine.instruction_pointer + 1]
            == Instruction::JmpBackwardIfNonZero,
        machine.cell() != 0,
    ensures
        machine.run(input, 2 * machine.cell() as nat) == (Trace {
            machine: machine.store(0).jump(machine.instruction_pointer + 2),
            consumed: 0,
            output: Seq::empty(),
            outcome: if machine.instruction_pointer + 2 >= machine.instructions.len() {
                Outcome::Halted
            } else {
                Outcome::OutOfSteps
            },
        }),
    decreases machine.cell(),
{
    let body = machine.instruction_pointer;
    let steps = 2 * machine.cell() as nat;
    let lowered = machine.store(decrement(machine.cell())).advance();
    assert(machine.step(next_input(input)) == (lowered, Ok::<Action, Fault>(Action::Continue)));
    assert(input.skip(0) =~= input);
    assert(machine.run(input, steps) == lowered.run(input, (steps - 1) as nat).after(
        0,
        Seq::empty(),
    ));
    lemma_clear_loop_pair(machine.instructions, body - 1);
    lemma_loop_decision(lowered, next_input(input), body - 1, body + 1);
    assert(lowered.cell() == machine.cell() - 1);
    if lowered.cell() == 0 {
        let left = lowered.jump(body + 2);
        assert(lowered.run(input, 1) == left.run(input, 0).after(0, Seq::empty()));
        assert(lowered.tape =~= machine.tape.update(machine.data_pointer, 0u8));
        assert(Seq::<u8>::empty() + Seq::<u8>::empty() =~= Seq::<u8>::empty());
    } else {
        let again = lowered.jump(body);
        lemma_clear_loop_body(again, input);
        let tail = again.run(input, (steps - 2) as nat);
        assert(lowered.run(input, (steps - 1) as nat) == tail.after(0, Seq::empty()));
        assert(again.tape.update(again.data_pointer, 0u8) =~= machine.tape.update(
            machine.data_pointer,
            0u8,
        ));
        assert(Seq::<u8>::empty() + Seq::<u8>::empty() =~= Seq::<u8>::empty());
    }
}

} // verus!
