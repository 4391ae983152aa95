//! A declarative HTTP test-runner core: an untyped value model, a pluggable
//! matcher system for response expectations, a variable store with lazy
//! substitution, and the suite execution pipeline that sequences requests,
//! runs comparisons and aggregates pass/fail/error counts.
//!
//! The HTTP transport, YAML loading and console output are collaborators that
//! live outside this crate; everything here is pure logic over the value
//! model, verified against the specifications stated on each item.

pub mod errors;
pub mod m_value;
pub mod matcher;
pub mod compare;
pub mod variables;
pub mod query_params;
pub mod response_headers;
pub mod suite;
pub mod runner;
