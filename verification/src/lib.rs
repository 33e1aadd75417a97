//! Seam records: discovery, policy checks, validation bookkeeping and the
//! component/seam dependency graph.
pub mod cli;
pub mod discovery;
pub mod error;
pub mod graph;
pub mod json;
pub mod jsonout;
pub mod model;
pub mod policy;
pub mod refs;
pub mod text;
pub mod validate;
