//! A context-free L-system engine: a grammar of symbols, its validation,
//! the rewriting of a symbol sequence generation by generation, and the
//! resolution of a sequence into drawing instructions.

pub mod symbols;
pub mod table;
pub mod instruction;
pub mod system;
pub mod validation;
pub mod laws;
pub mod document;
pub mod json;
pub mod loader;
