//! Merging every backend's contribution into one ranked list.
//!
//! The caller hands in, per configured backend in declaration order,
//! either the raw text that backend printed or the reason it could not
//! be run.  A failed backend contributes nothing but one diagnostic and
//! never disturbs its siblings; the surviving records are concatenated
//! in declaration order and stable-sorted ascending by rank.

use vstd::prelude::*;

use crate::grammar::Backend;
use crate::parser::{parse_all, parse_seq};
use crate::results::{
    diagnostic_models, failure_lines, result_models, Diagnostic, DiagnosticModel, ParseFailure,
    ResultModel, SearchOutcome, SearchResult,
};
use crate::sorting::{lemma_sort_by_rank_sorted, sort_by_rank, sort_results, sorted_by_rank};
use crate::text::split_lines;

verus! {

/// What one backend report contributes to the merged result list: the
/// parsed records of its raw output, or nothing when the backend could
/// not be run.
pub open spec fn report_results(query: Seq<char>, report: (Backend, Result<String, String>)) -> Seq<
    ResultModel,
> {
    match report.1 {
        Ok(raw) => parse_seq(report.0, query, split_lines(raw@).skip(1)).0,
        Err(_) => Seq::<ResultModel>::empty(),
    }
}

/// The diagnostic views of a sequence of parse failures.
pub open spec fn parse_diag_models(failures: Seq<ParseFailure>) -> Seq<DiagnosticModel> {
    failures.map_values(
        |f: ParseFailure| DiagnosticModel::LineParse { backend: f.backend, line: f.line@ },
    )
}

/// What one backend report contributes to the diagnostics: one line
/// diagnostic per malformed line, or a single execution diagnostic when
/// the backend could not be run.
pub open spec fn report_diagnostics(
    query: Seq<char>,
    report: (Backend, Result<String, String>),
) -> Seq<DiagnosticModel> {
    match report.1 {
        Ok(raw) => parse_seq(report.0, query, split_lines(raw@).skip(1)).1.map_values(
            |l: Seq<char>| DiagnosticModel::LineParse { backend: report.0, line: l },
        ),
        Err(m) => seq![
            DiagnosticModel::BackendExecution { backend: report.0, message: m@ },
        ],
    }
}

/// All backends' records, concatenated in declaration order.
pub open spec fn gathered_results(
    query: Seq<char>,
    reports: Seq<(Backend, Result<String, String>)>,
) -> Seq<ResultModel>
    decreases reports.len(),
{
    if reports.len() == 0 {
        Seq::<ResultModel>::empty()
    } else {
        gathered_results(query, reports.drop_last()) + report_results(query, reports.last())
    }
}

/// All backends' diagnostics, concatenated in declaration order.
pub open spec fn gathered_diagnostics(
    query: Seq<char>,
    reports: Seq<(Backend, Result<String, String>)>,
) -> Seq<DiagnosticModel>
    decreases reports.len(),
{
    if reports.len() == 0 {
        Seq::<DiagnosticModel>::empty()
    } else {
        gathered_diagnostics(query, reports.drop_last()) + report_diagnostics(
            query,
            reports.last(),
        )
    }
}

/// Run the whole aggregation pipeline over the backends' reports, given
/// in backend declaration order: parse every raw output, isolate
/// per-backend failures as diagnostics, concatenate the records in
/// declaration order and stable-sort them ascending by rank.  An empty
/// result list is a valid, non-error outcome.
pub fn search(query: &str, reports: Vec<(Backend, Result<String, String>)>) -> (out: SearchOutcome)
    ensures
        result_models(out.results@) == sort_by_rank(gathered_results(query@, reports@)),
        diagnostic_models(out.diagnostics@) == gathered_diagnostics(query@, reports@),
        sorted_by_rank(result_models(out.results@)),
{
    let mut combined: Vec<SearchResult> = Vec::new();
    let mut diags: Vec<Diagnostic> = Vec::new();
    proof {
        assert(reports@.subrange(0, 0) =~= Seq::<(Backend, Result<String, String>)>::empty());
        assert(result_models(combined@) =~= Seq::<ResultModel>::empty());
        assert(diagnostic_models(diags@) =~= Seq::<DiagnosticModel>::empty());
    }
    let mut i: usize = 0;
    while i < reports.len()
        invariant
            i <= reports@.len(),
            result_models(combined@) == gathered_results(query@, reports@.subrange(0, i as int)),
            diagnostic_models(diags@) == gathered_diagnostics(
                query@,
                reports@.subrange(0, i as int),
            ),
        decreases reports@.len() - i,
    {
        let backend = reports[i].0;
        proof {
            assert(reports@.subrange(0, i + 1).drop_last() =~= reports@.subrange(0, i as int));
            assert(reports@.subrange(0, i + 1).last() == reports@[i as int]);
        }
        match &reports[i].1 {
            Ok(raw) => {
                let (mut records, mut failures) = parse_all(raw.as_str(), backend, query);
                proof {
                    assert(result_models(combined@ + records@) =~= result_models(combined@)
                        + result_models(records@));
                    assert(parse_diag_models(failures@) =~= report_diagnostics(
                        query@,
                        reports@[i as int],
                    ));
                }
                combined.append(&mut records);
                let ghost base = diagnostic_models(diags@);
                let ghost forig = failures@;
                proof {
                    assert(forig.subrange(0, 0) =~= Seq::<ParseFailure>::empty());
                    assert(parse_diag_models(forig.subrange(0, 0)) =~= Seq::<
                        DiagnosticModel,
                    >::empty());
                    assert(base + parse_diag_models(forig.subrange(0, 0)) =~= base);
                    assert(forig.skip(0) =~= forig);
                }
                while failures.len() > 0
                    invariant
                        failures@.len() <= forig.len(),
                        forig.skip(forig.len() - failures@.len()) == failures@,
                        diagnostic_models(diags@) == base + parse_diag_models(
                            forig.subrange(0, forig.len() - failures@.len()),
                        ),
                    decreases failures@.len(),
                {
                    let ghost j = forig.len() - failures@.len();
                    let f = failures.remove(0);
                    proof {
                        assert(f == forig.skip(j as int)[0]);
                        assert(f == forig[j as int]);
                        assert(failures@ =~= forig.skip(j + 1));
                        assert(diagnostic_models(diags@.push(Diagnostic::LineParseFailure(f)))
                            =~= diagnostic_models(diags@).push(
                            Diagnostic::LineParseFailure(f)@,
                        ));
                        assert(parse_diag_models(forig.subrange(0, j + 1)) =~= parse_diag_models(
                            forig.subrange(0, j as int),
                        ).push(
                            DiagnosticModel::LineParse { backend: f.backend, line: f.line@ },
                        ));
                        assert(base + parse_diag_models(forig.subrange(0, j + 1)) =~= (base
                            + parse_diag_models(forig.subrange(0, j as int))).push(
                            DiagnosticModel::LineParse { backend: f.backend, line: f.line@ },
                        ));
                    }
                    diags.push(Diagnostic::LineParseFailure(f));
                }
                proof {
                    assert(forig.subrange(0, forig.len() as int) =~= forig);
                    assert(diagnostic_models(diags@) =~= gathered_diagnostics(
                        query@,
                        reports@.subrange(0, i as int),
                    ) + report_diagnostics(query@, reports@[i as int]));
                }
            },
            Err(msg) => {
                let message = msg.clone();
                let d = Diagnostic::BackendExecutionFailure { backend, message };
                proof {
                    assert(result_models(combined@) + report_results(query@, reports@[i as int])
                        =~= result_models(combined@));
                    assert(diagnostic_models(diags@.push(d)) =~= diagnostic_models(diags@).push(
                        d@,
                    ));
                    assert(report_diagnostics(query@, reports@[i as int]) =~= seq![d@]);
                    assert(diagnostic_models(diags@).push(d@) =~= diagnostic_models(diags@)
                        + seq![d@]);
                }
                diags.push(d);
            },
        }
        i = i + 1;
    }
    proof {
        assert(reports@.subrange(0, reports@.len() as int) =~= reports@);
        lemma_sort_by_rank_sorted(gathered_results(query@, reports@));
    }
    let results = sort_results(combined);
    SearchOutcome { results, diagnostics: diags }
}

} // verus!
