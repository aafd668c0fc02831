//! Running a checked program.
pub mod interpreter;
pub mod io;
pub mod laws;
pub mod semantics;

pub use self::interpreter::Interpreter;
pub use self::io::{Io, MemoryIo, Traced, TracedIo};
