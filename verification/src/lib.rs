//! Compiles a sparse, pattern-keyed table description into a dense lookup
//! table, rejecting descriptions in which two clauses claim the same index.
//!
//! A description is a list of clauses. Each pairs a key pattern (an integer
//! literal, a disjunction, a bounded range of integer literals, or a constant
//! expression) with a value. Compilation resolves every pattern to the indices
//! it claims, gathers the claims in an index table, and builds a table with
//! one position for each index from 0 to the largest one claimed.
//!
//! An integer literal is handed in as its decimal digits, whatever base and
//! suffix it was written with; any other text is no number.
//!
//! The value of a constant expression is not known here. Two constants are
//! the same index exactly if their texts are the same; a constant is never
//! compared with a number, and no check is left for run time. Their values
//! leave the compilation as stores beside the table's positions.

pub mod claims;
pub mod clause;
pub mod compile;
pub mod error;
pub mod laws;
pub mod pattern;
pub mod table;

pub use clause::{resolve_clauses, Clause, ResolvedClause};
pub use compile::{amap, amap_d, compile};
pub use error::{CompileError, CompileErrorModel};
pub use pattern::{
    expand_range, indices, Bound, Index, IndexModel, KeyPattern, Malformed, Reading,
};
pub use table::{aggregate, build_table, DenseTable, Entry, IndexTable, Rendered, Slot, Store};
