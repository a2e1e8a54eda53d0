//! An in-memory code-relationship graph with query operations.
//!
//! The library stores code symbols (functions, classes, ...) and directed,
//! typed relations between them, resolves free-form textual references to
//! ranked symbol matches, answers navigate / find / impact queries by
//! depth-bounded, cycle-safe traversal, and decides when a persisted index
//! has gone stale relative to the files it was built from.

pub mod cli;
pub mod codec;
pub mod freshness;
pub mod graph;
pub mod mcp;
pub mod operations;
pub mod parser;
pub mod paths;
pub mod resolver;
pub mod text;
pub mod users;
