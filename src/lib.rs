pub mod operation;
pub mod operations;
pub mod program;
pub mod lemmas;

pub use operation::Operation;
pub use operations::{Operations, ParseError};
pub use program::{compile_program, Program};
