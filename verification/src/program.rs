//! The execution engine: a compiled program with its tape and its two
//! pointers, stepped one instruction at a time.

use vstd::prelude::*;
use crate::bracket::{find_backward_match, find_forward_match};
use crate::fault::{Direction, Fault};
use crate::instruction::{compile, compiled, Instruction};
use crate::machine::{Action, Machine, Outcome, DATA_SIZE};

verus! {

/// A program ready to run, or in the middle of running.
#[derive(Debug)]
pub struct Program {
    data: [u8; 30000],
    data_pointer: usize,
    instructions: Vec<Instruction>,
    instruction_pointer: usize,
}

/// What [`Program::run`] did: how many input bytes it read, what it wrote,
/// and how it ended.
#[derive(Debug, PartialEq, Eq)]
pub struct Report {
    pub consumed: usize,
    pub output: Vec<u8>,
    pub outcome: Outcome,
}

impl View for Program {
    type V = Machine;

    closed spec fn view(&self) -> Machine {
        Machine {
            tape: self.data@,
            data_pointer: self.data_pointer as int,
            instructions: self.instructions@,
            instruction_pointer: self.instruction_pointer as int,
        }
    }
}

impl Program {
    #[verifier::type_invariant]
    spec fn valid(self) -> bool {
        self@.well_formed()
    }

    /// A machine at its start: the given instructions, a zeroed tape, both
    /// pointers at 0.
    pub fn new(instructions: Vec<Instruction>) -> (program: Program)
        ensures
            program@ == Machine::initial(instructions@),
            program@.well_formed(),
    {
        let data = [0u8; 30000];
        assert(data@ =~= Machine::initial(instructions@).tape);
        assert(instructions@.len() == instructions.len());
        Program { data, data_pointer: 0, instructions, instruction_pointer: 0 }
    }

    /// Compiles `text` and sets up a machine for it. Every text is a
    /// program, so this is always `Ok`.
    pub fn from_str(text: &str) -> (program: Result<Program, ()>)
        ensures
            program matches Ok(p) && p@ == Machine::initial(compiled(text@)) && p@.well_formed(),
    {
        Ok(Program::new(compile(text)))
    }

    /// Whether the instruction pointer is past the last instruction.
    pub fn halted(&self) -> (halted: bool)
        ensures
            halted == self@.halted(),
            self@.well_formed(),
    {
        proof {
            use_type_invariant(self);
        }
        self.instruction_pointer >= self.instructions.len()
    }

    /// The instruction that the next step executes; `None` once halted.
    pub fn current(&self) -> (current: Option<Instruction>)
        ensures
            current == if self@.halted() {
                None
            } else {
                Some(self@.current())
            },
            self@.well_formed(),
    {
        proof {
            use_type_invariant(self);
        }
        if self.instruction_pointer < self.instructions.len() {
            Some(self.instructions[self.instruction_pointer])
        } else {
            None
        }
    }

    /// Whether the next step reads from the input source, so that the host
    /// has to read a byte before it.
    pub fn awaits_input(&self) -> (awaits: bool)
        ensures
            awaits == self@.awaits_input(),
            self@.well_formed(),
    {
        match self.current() {
            Some(Instruction::Input) => true,
            _ => false,
        }
    }

    /// The value of the cell under the data pointer.
    pub fn cell(&self) -> (value: u8)
        ensures
            value == self@.cell(),
            self@.well_formed(),
    {
        proof {
            use_type_invariant(self);
        }
        self.data[self.data_pointer]
    }

    /// The tape.
    pub fn data(&self) -> (tape: &[u8])
        ensures
            tape@ == self@.tape,
            self@.well_formed(),
    {
        proof {
            use_type_invariant(self);
        }
        self.data.as_slice()
    }

    /// The index of the current cell.
    pub fn data_pointer(&self) -> (index: usize)
        ensures
            index == self@.data_pointer,
            self@.well_formed(),
    {
        proof {
            use_type_invariant(self);
        }
        self.data_pointer
    }

    /// The compiled program.
    pub fn instructions(&self) -> (instructions: &[Instruction])
        ensures
            instructions@ == self@.instructions,
            self@.well_formed(),
    {
        proof {
            use_type_invariant(self);
        }
        self.instructions.as_slice()
    }

    /// The index of the next instruction.
    pub fn instruction_pointer(&self) -> (index: usize)
        ensures
            index == self@.instruction_pointer,
            self@.well_formed(),
    {
        proof {
            use_type_invariant(self);
        }
        self.instruction_pointer
    }

    /// One fetch-decode-execute step. `input` is what the input source
    /// yields when read now: a byte, nothing when it is exhausted, or the
    /// reason why it could not be read. Only `,` looks at it.
    pub fn step(&mut self, input: Option<Result<u8, String>>) -> (result: Result<Action, Fault>)
        ensures
            final(self)@ == old(self)@.step(input).0,
            result == old(self)@.step(input).1,
            final(self)@.well_formed(),
    {
        proof {
            use_type_invariant(&*self);
        }
        let position = self.instruction_pointer;
        if position >= self.instructions.len() {
            return Ok(Action::Halt);
        }
        match self.instructions[position] {
            Instruction::IncrementDataPtr => {
                if self.data_pointer + 1 < DATA_SIZE {
                    self.data_pointer = self.data_pointer + 1;
                    self.instruction_pointer = position + 1;
                    Ok(Action::Continue)
                } else {
                    Err(Fault::DataPointerOutOfRange { position })
                }
            },
            Instruction::DecrementDataPtr => {
                if self.data_pointer > 0 {
                    self.data_pointer = self.data_pointer - 1;
                    self.instruction_pointer = position + 1;
                    Ok(Action::Continue)
                } else {
                    Err(Fault::DataPointerOutOfRange { position })
                }
            },
            Instruction::Increment => {
                self.data[self.data_pointer] = self.data[self.data_pointer].wrapping_add(1);
                self.instruction_pointer = position + 1;
                Ok(Action::Continue)
            },
            Instruction::Decrement => {
                self.data[self.data_pointer] = self.data[self.data_pointer].wrapping_sub(1);
                self.instruction_pointer = position + 1;
                Ok(Action::Continue)
            },
            Instruction::Output => {
                let content = self.data[self.data_pointer];
                self.instruction_pointer = position + 1;
                Ok(Action::Emit(content))
            },
            Instruction::Input => {
                match input {
                    None => {
                        self.instruction_pointer = position + 1;
                        Ok(Action::Continue)
                    },
                    Some(Ok(byte)) => {
                        self.data[self.data_pointer] = byte;
                        self.instruction_pointer = position + 1;
                        Ok(Action::Continue)
                    },
                    Some(Err(description)) => Err(Fault::InputDecodeFailure { description }),
                }
            },
            Instruction::JmpForwardIfZero => {
                if self.data[self.data_pointer] != 0 {
                    self.instruction_pointer = position + 1;
                    Ok(Action::Continue)
                } else {
                    match find_forward_match(self.instructions.as_slice(), position) {
                        Some(close) => {
                            self.instruction_pointer = close + 1;
                            Ok(Action::Continue)
                        },
                        None => Err(
                            Fault::UnmatchedBracket { direction: Direction::Forward, position },
                        ),
                    }
                }
            },
            Instruction::JmpBackwardIfNonZero => {
                if self.data[self.data_pointer] == 0 {
                    self.instruction_pointer = position + 1;
                    Ok(Action::Continue)
                } else {
                    match find_backward_match(self.instructions.as_slice(), position) {
                        Some(open) => {
                            self.instruction_pointer = open + 1;
                            Ok(Action::Continue)
                        },
                        None => Err(
                            Fault::UnmatchedBracket { direction: Direction::Backward, position },
                        ),
                    }
                }
            },
        }
    }

    /// Runs the program on the bytes of `input`, for at most `max_steps`
    /// steps, and collects what it writes. A program may loop for ever; the
    /// budget is what makes this return. After `Outcome::OutOfSteps` the
    /// run can be taken up again with the rest of the input.
    pub fn run(&mut self, input: &[u8], max_steps: u64) -> (report: Report)
        ensures
            final(self)@ == old(self)@.run(input@, max_steps as nat).machine,
            report.consumed == old(self)@.run(input@, max_steps as nat).consumed,
            report.output@ == old(self)@.run(input@, max_steps as nat).output,
            report.outcome == old(self)@.run(input@, max_steps as nat).outcome,
            final(self)@.well_formed(),
    {
        let ghost start = self@;
        let mut output: Vec<u8> = Vec::new();
        let mut consumed: usize = 0;
        let mut remaining: u64 = max_steps;
        proof {
            use_type_invariant(&*self);
            assert(input@.skip(0) =~= input@);
            let whole = start.run(input@, max_steps as nat);
            assert(whole.after(0, output@).output =~= whole.output);
        }
        loop
            invariant
                consumed <= input.len(),
                self@.well_formed(),
                start == old(self)@,
                start.run(input@, max_steps as nat) == self@.run(
                    input@.skip(consumed as int),
                    remaining as nat,
                ).after(consumed as int, output@),
            decreases remaining,
        {
            let ghost before = self@;
            let ghost rest = input@.skip(consumed as int);
            let ghost written = output@;
            if self.halted() {
                assert(written + Seq::<u8>::empty() =~= written);
                return Report { consumed, output, outcome: Outcome::Halted };
            }
            if remaining == 0 {
                assert(written + Seq::<u8>::empty() =~= written);
                return Report { consumed, output, outcome: Outcome::OutOfSteps };
            }
            let reads = self.awaits_input() && consumed < input.len();
            let event = if consumed < input.len() {
                Some(Ok(input[consumed]))
            } else {
                None
            };
            match self.step(event) {
                Err(fault) => {
                    assert(written + Seq::<u8>::empty() =~= written);
                    return Report { consumed, output, outcome: Outcome::Faulted(fault) };
                },
                Ok(action) => {
                    match action {
                        Action::Emit(byte) => {
                            output.push(byte);
                        },
                        _ => {},
                    }
                    if reads {
                        consumed = consumed + 1;
                    }
                    remaining = remaining - 1;
                    proof {
                        let read: int = if reads {
                            1
                        } else {
                            0
                        };
                        let emitted = match action {
                            Action::Emit(byte) => seq![byte],
                            _ => Seq::empty(),
                        };
                        let tail = self@.run(rest.skip(read), remaining as nat);
                        assert(rest.skip(read) =~= input@.skip(consumed as int));
                        assert(before.run(rest, (remaining + 1) as nat) == tail.after(
                            read,
                            emitted,
                        ));
                        assert(written + (emitted + tail.output) =~= output@ + tail.output);
                    }
                },
            }
        }
    }
}

} // verus!
