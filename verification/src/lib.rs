//! The core of a calculator: an expression that is built token by token and
//! stays well formed, its expansion into plain arithmetic, and the plan by
//! which its value is computed.

pub mod balance;
pub mod canonical;
pub mod display;
pub mod equation;
pub mod item;
pub mod laws;
pub mod machine;
pub mod model;
pub mod plans;
pub mod render;
pub mod solver;
pub mod stops;
pub mod text;

pub use equation::Equation;
pub use item::Item;
pub use machine::Operation;
pub use solver::{solve, Step};
