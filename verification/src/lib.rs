//! Loop vectorization: which loops of a function are legal and profitable to
//! vectorize, what their vector form is, and that the rewritten loop does what
//! the scalar loop does; with the decisions of the driver and of its terminal
//! interface.

pub mod analysis;
pub mod body;
pub mod command_laws;
pub mod command_line;
pub mod config;
pub mod cost;
pub mod dependence;
pub mod driver;
pub mod equivalence;
pub mod execution;
pub mod field;
pub mod host;
pub mod ir;
pub mod lowering;
pub mod memory;
pub mod operations;
pub mod recipe;
pub mod recognize;
pub mod refusals;
pub mod rejection;
pub mod report;
pub mod screen;
pub mod semantics;
pub mod session;
pub mod session_laws;
pub mod shape;
pub mod supported;
pub mod text;
pub mod vector_form;
pub mod widening;
