//! Puzzles and solutions as JSON documents.
pub mod codec;
pub mod document;
pub mod reader;
pub mod theory;
pub mod writer;

pub use reader::read_problem;
pub use writer::write_solution;
