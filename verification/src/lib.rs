//! An interpreter for a minimal eight-command esoteric language.
//!
//! The engine executes a fixed program of [`Command`]s against a sparse,
//! unbounded tape of unsigned cells addressed by a signed data pointer.
//! Looping is implemented by scanning for the matching bracket with
//! nesting-depth bookkeeping; no jump table is precomputed.

pub mod command;
pub mod semantics;
pub mod turing_machine;

pub use command::{parse_program, to_command, render, Command};
pub use turing_machine::{EndOfInputPolicy, Fault, RunStatus, StepResult, TuringMachine};
