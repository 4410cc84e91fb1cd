//! Arbor: a live graph of a repository's symbols and the relationships
//! between them, with the queries that code-intelligence clients ask of it.
//!
//! Every function in this crate carries a contract that Verus proves. The
//! graph's topology is stored in a `petgraph` stable graph, syntax trees come
//! from `tree-sitter`, and a few operations on text from the standard
//! library: the calls into these are the only statements taken on trust, and
//! each says so.

pub mod bridge;
pub mod builder;
pub mod captures;
pub mod config;
pub mod cpp;
pub mod dart;
pub mod debounce;
pub mod edge;
pub mod extract;
pub mod fanout;
pub mod go;
pub mod graph;
pub mod handlers;
pub mod impact;
pub mod indexer;
pub mod java;
pub mod languages;
pub mod node;
pub mod order;
pub mod parser;
pub mod postings;
pub mod query;
pub mod search_index;
pub mod slice;
pub mod snapshot;
pub mod symbol_table;
pub mod syntax;
pub mod text;
pub mod topology;
pub mod traverse;
pub mod tree;
