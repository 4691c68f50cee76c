//! An incremental assembler for a generated TypeScript client-binding module.
//!
//! The library splices text fragments into a caller-owned ordered buffer,
//! once per exposed contract function, while keeping a fixed skeleton:
//! three import lines, one wrapper preamble per contract, one body fragment
//! per function in generation order, and a single terminal export fragment
//! that grows in place as functions are added.

pub mod descriptor;
pub mod generator;
pub mod laws;
pub mod text;
