//! The machine as a mathematical object: its state, what one step does to
//! it, and what a bounded run of steps amounts to.

use vstd::prelude::*;
use crate::bracket::{backward_match, forward_match};
use crate::fault::{Direction, Fault};
use crate::instruction::Instruction;

verus! {

/// The number of cells on the tape.
pub const DATA_SIZE: usize = 30000;

/// A cell after `+`: one more, modulo 256.
pub open spec fn increment(value: u8) -> u8 {
    ((value + 1) % 256) as u8
}

/// A cell after `-`: one less, modulo 256.
pub open spec fn decrement(value: u8) -> u8 {
    ((value + 255) % 256) as u8
}

/// A cell after `times` increments.
pub open spec fn incremented(value: u8, times: nat) -> u8 {
    ((value + times) % 256) as u8
}

/// What the host has to do after a step.
#[derive(Clone, Copy, Debug, PartialEq, Eq, Structural)]
pub enum Action {
    /// Nothing; go on with the next step.
    Continue,
    /// Write this byte to the output and flush it, then go on.
    Emit(u8),
    /// Stop: the instruction pointer is past the last instruction.
    Halt,
}

/// How a bounded run ended.
#[derive(Debug, PartialEq, Eq)]
pub enum Outcome {
    /// The instruction pointer ran past the end of the program.
    Halted,
    /// The step budget was used up before the program halted.
    OutOfSteps,
    /// A fault aborted the run.
    Faulted(Fault),
}

/// The state of the machine.
pub struct Machine {
    /// The cells.
    pub tape: Seq<u8>,
    /// The index of the current cell.
    pub data_pointer: int,
    /// The program.
    pub instructions: Seq<Instruction>,
    /// The index of the next instruction.
    pub instruction_pointer: int,
}

/// What a bounded run did: the state it left, how much input it read, what
/// it wrote, and how it ended.
pub struct Trace {
    pub machine: Machine,
    pub consumed: int,
    pub output: Seq<u8>,
    pub outcome: Outcome,
}

/// What the input source yields for a read when `input` is left of it:
/// its first byte, or nothing when it is exhausted.
pub open spec fn next_input(input: Seq<u8>) -> Option<Result<u8, String>> {
    if input.len() > 0 {
        Some(Ok(input[0]))
    } else {
        None
    }
}

impl Trace {
    /// This trace, seen from a point where `consumed` bytes less had been
    /// read and `output` had not been written yet.
    pub open spec fn after(self, consumed: int, output: Seq<u8>) -> Trace {
        Trace {
            machine: self.machine,
            consumed: consumed + self.consumed,
            output: output + self.output,
            outcome: self.outcome,
        }
    }
}

impl Machine {
    /// The machine before its first step: a zeroed tape, both pointers at 0.
    pub open spec fn initial(instructions: Seq<Instruction>) -> Machine {
        Machine {
            tape: Seq::new(DATA_SIZE as nat, |i: int| 0u8),
            data_pointer: 0,
            instructions,
            instruction_pointer: 0,
        }
    }

    /// The tape has its fixed length, the data pointer is on it, and the
    /// instruction pointer is in the program or just past its end.
    pub open spec fn well_formed(self) -> bool {
        &&& self.tape.len() == DATA_SIZE
        &&& 0 <= self.data_pointer < DATA_SIZE
        &&& 0 <= self.instruction_pointer <= self.instructions.len()
        &&& self.instructions.len() <= usize::MAX
    }

    /// The instruction pointer is past the last instruction.
    pub open spec fn halted(self) -> bool {
        self.instruction_pointer >= self.instructions.len()
    }

    /// The instruction under the instruction pointer.
    pub open spec fn current(self) -> Instruction {
        self.instructions[self.instruction_pointer]
    }

    /// The value of the cell under the data pointer.
    pub open spec fn cell(self) -> u8 {
        self.tape[self.data_pointer]
    }

    /// The next step reads from the input source.
    pub open spec fn awaits_input(self) -> bool {
        !self.halted() && self.current() == Instruction::Input
    }

    /// The same machine with the instruction pointer at `target`.
    pub open spec fn jump(self, target: int) -> Machine {
        Machine { instruction_pointer: target, ..self }
    }

    /// The same machine with the instruction pointer one further.
    pub open spec fn advance(self) -> Machine {
        self.jump(self.instruction_pointer + 1)
    }

    /// The same machine with `value` in the current cell.
    pub open spec fn store(self, value: u8) -> Machine {
        Machine { tape: self.tape.update(self.data_pointer, value), ..self }
    }

    /// The same machine with the data pointer at `target`.
    pub open spec fn point(self, target: int) -> Machine {
        Machine { data_pointer: target, ..self }
    }

    /// The fault that reports a bracket scan from the current instruction
    /// that ran off the program.
    pub open spec fn unmatched(self, direction: Direction) -> Fault {
        Fault::UnmatchedBracket { direction, position: self.instruction_pointer as usize }
    }

    /// One step: the state after it, and what the host has to do or the fault
    /// that aborts the execution. `input` is what the input source yields
    /// when read now (`None`: exhausted); only `,` looks at it. A halted
    /// machine stays as it is, and so does one that faults.
    pub open spec fn step(self, input: Option<Result<u8, String>>) -> (Machine, Result<
        Action,
        Fault,
    >) {
        if self.halted() {
            (self, Ok(Action::Halt))
        } else {
            match self.current() {
                Instruction::IncrementDataPtr => {
                    if self.data_pointer + 1 < self.tape.len() {
                        (self.point(self.data_pointer + 1).advance(), Ok(Action::Continue))
                    } else {
                        (
                            self,
                            Err(
                                Fault::DataPointerOutOfRange {
                                    position: self.instruction_pointer as usize,
                                },
                            ),
                        )
                    }
                },
                Instruction::DecrementDataPtr => {
                    if self.data_pointer > 0 {
                        (self.point(self.data_pointer - 1).advance(), Ok(Action::Continue))
                    } else {
                        (
                            self,
                            Err(
                                Fault::DataPointerOutOfRange {
                                    position: self.instruction_pointer as usize,
                                },
                            ),
                        )
                    }
                },
                Instruction::Increment => {
                    (self.store(increment(self.cell())).advance(), Ok(Action::Continue))
                },
                Instruction::Decrement => {
                    (self.store(decrement(self.cell())).advance(), Ok(Action::Continue))
                },
                Instruction::Output => (self.advance(), Ok(Action::Emit(self.cell()))),
                Instruction::Input => {
                    match input {
                        None => (self.advance(), Ok(Action::Continue)),
                        Some(Ok(byte)) => (self.store(byte).advance(), Ok(Action::Continue)),
                        Some(Err(description)) => (
                            self,
                            Err(Fault::InputDecodeFailure { description }),
                        ),
                    }
                },
                Instruction::JmpForwardIfZero => {
                    if self.cell() != 0 {
                        (self.advance(), Ok(Action::Continue))
                    } else {
                        match forward_match(self.instructions, self.instruction_pointer) {
                            Some(close) => (self.jump(close + 1), Ok(Action::Continue)),
                            None => (self, Err(self.unmatched(Direction::Forward))),
                        }
                    }
                },
                Instruction::JmpBackwardIfNonZero => {
                    if self.cell() == 0 {
                        (self.advance(), Ok(Action::Continue))
                    } else {
                        match backward_match(self.instructions, self.instruction_pointer) {
                            Some(open) => (self.jump(open + 1), Ok(Action::Continue)),
                            None => (self, Err(self.unmatched(Direction::Backward))),
                        }
                    }
                },
            }
        }
    }

    /// A run of at most `steps` steps on the bytes of `input`. It ends when
    /// the machine halts, when a step faults, or when the budget is used up.
    pub open spec fn run(self, input: Seq<u8>, steps: nat) -> Trace
        decreases steps,
    {
        if self.halted() {
            Trace { machine: self, consumed: 0, output: Seq::empty(), outcome: Outcome::Halted }
        } else if steps == 0 {
            Trace {
                machine: self,
                consumed: 0,
                output: Seq::empty(),
                outcome: Outcome::OutOfSteps,
            }
        } else {
            let (next, result) = self.step(next_input(input));
            match result {
                Err(fault) => Trace {
                    machine: self,
                    consumed: 0,
                    output: Seq::empty(),
                    outcome: Outcome::Faulted(fault),
                },
                Ok(action) => {
                    let read: int = if self.awaits_input() && input.len() > 0 {
                        1
                    } else {
                        0
                    };
                    let written = match action {
                        Action::Emit(byte) => seq![byte],
                        _ => Seq::empty(),
                    };
                    next.run(input.skip(read), (steps - 1) as nat).after(read, written)
                },
            }
        }
    }
}

} // verus!
