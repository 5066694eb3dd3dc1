//! The normalized data model: one search hit, the failure records, and
//! their mathematical views.

use vstd::prelude::*;

use crate::grammar::Backend;

verus! {

/// One normalized search hit.
///
/// `name` is never empty: a line with no extractable name is a parse
/// failure, not a record.  `rank` is the edit distance between the query
/// and `name`, so it depends on those two strings alone.  `source` is the
/// backend this record was declared for, never parsed out of text.
#[derive(Clone, Debug)]
pub struct SearchResult {
    pub name: String,
    pub version: String,
    pub publisher: String,
    pub source: Backend,
    pub description: String,
    /// Edit distance from the query string to `name`; lower is closer.
    pub rank: usize,
}

/// Mathematical view of a [`SearchResult`].
pub struct ResultModel {
    pub name: Seq<char>,
    pub version: Seq<char>,
    pub publisher: Seq<char>,
    pub source: Backend,
    pub description: Seq<char>,
    pub rank: nat,
}

impl View for SearchResult {
    type V = ResultModel;

    open spec fn view(&self) -> ResultModel {
        ResultModel {
            name: self.name@,
            version: self.version@,
            publisher: self.publisher@,
            source: self.source,
            description: self.description@,
            rank: self.rank as nat,
        }
    }
}

/// The views of a sequence of search hits.
pub open spec fn result_models(results: Seq<SearchResult>) -> Seq<ResultModel> {
    results.map_values(|r: SearchResult| r@)
}

/// One line of backend output that did not fit the backend's grammar.
/// Recovered locally; the surrounding lines are unaffected.
#[derive(Clone, Debug)]
pub struct ParseFailure {
    pub backend: Backend,
    pub line: String,
}

impl ParseFailure {
    /// Human-readable diagnostic text for this failure.
    pub fn message(&self) -> (m: String)
        ensures
            m@ == "Couldn't parse: "@ + self.line@,
    {
        String::from_str("Couldn't parse: ").concat(self.line.as_str())
    }
}

/// The offending lines of a sequence of parse failures.
pub open spec fn failure_lines(failures: Seq<ParseFailure>) -> Seq<Seq<char>> {
    failures.map_values(|f: ParseFailure| f.line@)
}

/// A non-fatal failure surfaced alongside the results instead of
/// aborting the search.
#[derive(Clone, Debug)]
pub enum Diagnostic {
    /// A single line did not fit its backend's grammar.
    LineParseFailure(ParseFailure),
    /// A backend's search executable could not be run or communicated
    /// with; that backend contributed nothing.
    BackendExecutionFailure { backend: Backend, message: String },
}

/// Mathematical view of a [`Diagnostic`].
pub enum DiagnosticModel {
    LineParse { backend: Backend, line: Seq<char> },
    BackendExecution { backend: Backend, message: Seq<char> },
}

impl View for Diagnostic {
    type V = DiagnosticModel;

    open spec fn view(&self) -> DiagnosticModel {
        match self {
            Diagnostic::LineParseFailure(f) => DiagnosticModel::LineParse {
                backend: f.backend,
                line: f.line@,
            },
            Diagnostic::BackendExecutionFailure { backend, message } =>
                DiagnosticModel::BackendExecution { backend: *backend, message: message@ },
        }
    }
}

/// The views of a sequence of diagnostics.
pub open spec fn diagnostic_models(diags: Seq<Diagnostic>) -> Seq<DiagnosticModel> {
    diags.map_values(|d: Diagnostic| d@)
}

/// Everything one search invocation returns: the ranked hits and the
/// non-fatal failures met while producing them.
#[derive(Debug)]
pub struct SearchOutcome {
    pub results: Vec<SearchResult>,
    pub diagnostics: Vec<Diagnostic>,
}

} // verus!
