//! Lowering of OpenQASM 2.0 programs to an in-memory circuit.
//!
//! The pipeline has three stages: source text is preprocessed (line comments
//! removed, file inclusions spliced in), parsed into a syntax tree, and the tree
//! is lowered into a [`circuit::Circuit`] whose registers, gate templates and
//! instructions are fully resolved.
pub mod ast;
pub mod circuit;
pub mod comments;
pub mod directive;
pub mod error;
pub mod gates;
pub mod lower;
pub mod pipeline;
pub mod preprocess;
pub mod resolve;
pub mod symbols;
pub mod syntax;
pub mod text;

pub use crate::lower::lower;
pub use crate::pipeline::qasm_ast_to_circuit;
pub use crate::preprocess::process;
pub use crate::symbols::generate_qubit_list;
pub use crate::syntax::parse_program;
