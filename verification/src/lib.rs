//! An embedded full-text index adaptation layer: document mutation pipeline,
//! settings management, filter-expression compilation, query construction and
//! storage-size negotiation, each specified against a mathematical model of
//! the committed index state.

pub mod dump;
pub mod env;
pub mod error;
pub mod index;
pub mod filter;
pub mod search;
pub mod settings;
pub mod value;
