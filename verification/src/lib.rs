//! Aggregated package search across independent package-distribution
//! backends.
//!
//! Each backend is an external command-line search tool that prints
//! loosely structured tabular text.  The library parses that text line by
//! line against a fixed per-backend grammar, scores every hit by edit
//! distance between the query and the package name, and merges all
//! backends' hits into one deterministically ordered list.  Individual
//! malformed lines and failed backend invocations are reported as
//! structured diagnostics and never abort the rest of the search.
//!
//! Process invocation and presentation live outside the library; it works
//! on plain text in and plain values out.

pub mod aggregate;
pub mod grammar;
pub mod parser;
pub mod requirements;
pub mod ranking;
pub mod results;
pub mod sorting;
pub mod text;

pub use aggregate::search;
pub use grammar::Backend;
pub use grammar::LineGrammar;
pub use results::Diagnostic;
pub use results::ParseFailure;
pub use results::SearchOutcome;
pub use results::SearchResult;
