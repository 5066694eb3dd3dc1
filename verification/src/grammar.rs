//! The configured backends and the fixed line grammar of each one.
//!
//! A backend's search output is line oriented: a fixed number of
//! whitespace-delimited leading columns followed by one final free-text
//! column that consumes the rest of the line.  Which leading column holds
//! which field is declared here once per backend and never inferred from
//! the text itself.

use vstd::prelude::*;

verus! {

/// The closed set of package-distribution backends.  Adding a backend
/// means adding a variant here together with its grammar and command
/// configuration; the origin of a search hit is never parsed out of text.
#[derive(Clone, Copy, Debug, PartialEq, Eq, Structural)]
pub enum Backend {
    Snap,
    Flatpak,
}

/// Positional field pattern for one backend's output lines.
///
/// A line matches the grammar when it starts with `leading_columns`
/// non-empty whitespace-delimited columns, each followed by at least one
/// space or tab, and ends with a non-empty free-text remainder (the
/// description, which may itself contain spaces).
#[derive(Clone, Copy, Debug)]
pub struct LineGrammar {
    /// Number of whitespace-delimited columns before the free-text column.
    pub leading_columns: usize,
    /// Index of the column holding the package name.
    pub name_column: usize,
    /// Index of the column holding the version string.
    pub version_column: usize,
    /// Index of the column holding the publisher, or `None` for backends
    /// whose format has no publisher column (the record then carries the
    /// placeholder publisher).
    pub publisher_column: Option<usize>,
}

impl LineGrammar {
    /// Every field-bearing column lies among the leading columns.
    pub open spec fn wf(self) -> bool {
        &&& self.name_column < self.leading_columns
        &&& self.version_column < self.leading_columns
        &&& match self.publisher_column {
            Some(c) => c < self.leading_columns,
            None => true,
        }
    }
}

/// The statically declared grammar of each backend.
///
/// Both formats carry four leading columns and a trailing description:
/// the snap-style format is `name version publisher tag description`, the
/// flatpak-style format is `name version branch origin description` with
/// no publisher column.
pub open spec fn spec_grammar_for(backend: Backend) -> LineGrammar {
    match backend {
        Backend::Snap => LineGrammar {
            leading_columns: 4,
            name_column: 0,
            version_column: 1,
            publisher_column: Some(2),
        },
        Backend::Flatpak => LineGrammar {
            leading_columns: 4,
            name_column: 0,
            version_column: 1,
            publisher_column: None,
        },
    }
}

pub proof fn lemma_grammar_wf(backend: Backend)
    ensures
        spec_grammar_for(backend).wf(),
        spec_grammar_for(backend).leading_columns >= 1,
{
}

/// The grammar used to parse `backend`'s output lines.
pub fn grammar_for(backend: Backend) -> (g: LineGrammar)
    ensures
        g == spec_grammar_for(backend),
        g.wf(),
{
    match backend {
        Backend::Snap => LineGrammar {
            leading_columns: 4,
            name_column: 0,
            version_column: 1,
            publisher_column: Some(2),
        },
        Backend::Flatpak => LineGrammar {
            leading_columns: 4,
            name_column: 0,
            version_column: 1,
            publisher_column: None,
        },
    }
}

/// The backends a search consults, in declaration order.  This order is
/// the tie-break for equally ranked hits, so it is part of the
/// configuration, not an accident of scheduling.
pub fn configured_backends() -> (backends: Vec<Backend>)
    ensures
        backends@ == seq![Backend::Snap, Backend::Flatpak],
{
    let mut backends: Vec<Backend> = Vec::new();
    backends.push(Backend::Snap);
    backends.push(Backend::Flatpak);
    proof {
        assert(backends@ =~= seq![Backend::Snap, Backend::Flatpak]);
    }
    backends
}

/// The external executable each backend is searched through.
pub fn backend_command(backend: Backend) -> (c: &'static str)
    ensures
        match backend {
            Backend::Snap => c@ == "snap"@,
            Backend::Flatpak => c@ == "flatpak"@,
        },
{
    match backend {
        Backend::Snap => "snap",
        Backend::Flatpak => "flatpak",
    }
}

/// The fixed subcommand placed before the query when invoking a
/// backend's executable.
pub fn search_argument() -> (a: &'static str)
    ensures
        a@ == "search"@,
{
    "search"
}

/// The display label of each backend, the exhaustive mapping from the
/// closed set of sources to their user-visible names.
pub fn source_label(backend: Backend) -> (l: &'static str)
    ensures
        match backend {
            Backend::Snap => l@ == "SNAP"@,
            Backend::Flatpak => l@ == "FLATPAK"@,
        },
{
    match backend {
        Backend::Snap => "SNAP",
        Backend::Flatpak => "FLATPAK",
    }
}

} // verus!
