//! A small bracket-structured virtual machine and the command interpreter
//! that lets an operator inspect and change it while it runs.

pub mod interactive;
pub mod number;
pub mod runtime;
