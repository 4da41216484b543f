//! Name resolution and constraint generation for a circuit-description language.
//!
//! `symbol_table` holds the scoped symbol tables and the two passes over a
//! program's names and types, `constraints` the constraint generator, `types`
//! the program tree both walk, and `assoc` the string-keyed tables they share.
pub mod assoc;
pub mod types;
pub mod symbol_table;
pub mod constraints;
