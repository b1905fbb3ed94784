//! Windy: a two-dimensional esoteric language whose instruction pointers
//! drift across an unbounded grid in eight wind directions.
//!
//! The library parses source text into a sparse grid, runs it on a VM with
//! any number of concurrent instruction pointers, and offers a stepper and a
//! debugger over the same VM. Program input and output are byte and text
//! buffers; reading files and terminals is left to the caller.

pub mod debugger;
pub mod easter;
pub mod grid;
pub mod input;
pub mod laws;
pub mod machine;
pub mod opcodes;
pub mod parser;
pub mod render;
pub mod session;
pub mod text;
pub mod value;
pub mod vm;

pub use debugger::debug_source_inner;
pub use easter::{banner, detect, SIGNATURE, VERSION};
pub use grid::{Grid, Ip, SPACE};
pub use machine::IpContext;
pub use opcodes::{char_to_op, decode_cell, Op};
pub use parser::{normalize, parse};
pub use session::{run, version, RunResult, Session};
pub use value::Int;
pub use vm::{run_source, ExitCode, RunOptions, Vm};
