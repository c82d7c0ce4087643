//! The user-facing side of the program that is not drawing: reading the command line.
pub mod cli;
