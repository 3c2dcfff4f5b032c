//! A small virtual machine for an eight-instruction tape language.
//!
//! Program text is compiled into a sequence of [`Instruction`]s; everything
//! in the text that is not one of the eight symbols is a comment. A
//! [`Program`] holds the compiled instructions together with a tape of
//! 30,000 byte cells and executes them one [`Program::step`] at a time. The
//! host does the reading and writing: it hands each step what the input
//! source yields and performs the [`Action`] that the step returns.
//! [`Program::run`] does the same on bytes in memory, for a bounded number of
//! steps.
//!
//! What a step and a run do is defined on [`Machine`], the mathematical
//! model of the engine, and the executable code is proved to follow it.

pub mod bracket;
pub mod fault;
pub mod instruction;
pub mod machine;
pub mod program;
pub mod theorems;

pub use fault::{Direction, Fault};
pub use instruction::{compile, Instruction};
pub use machine::{Action, Machine, Outcome, DATA_SIZE};
pub use program::{Program, Report};
