//! Parsing one backend's raw output into normalized records.
//!
//! Each line is matched against the backend's positional grammar.  A
//! line that does not fit yields a structured failure carrying the line
//! and the backend, and never disturbs the surrounding lines: parsing
//! the whole output collects every success and every failure, both in
//! their original order.

use vstd::prelude::*;

use crate::grammar::{grammar_for, lemma_grammar_wf, spec_grammar_for, Backend};
use crate::ranking::{edit_distance, rank};
use crate::results::{failure_lines, result_models, ParseFailure, ResultModel, SearchResult};
use crate::text::{
    is_space, lemma_space_run_boundary, lemma_split_lines_nonempty, lemma_token_run_boundary,
    space_end, space_run, split_lines, split_text_lines, string_views, token_end, token_run,
};

verus! {

/// Split a line into `k` non-empty whitespace-delimited columns, each
/// followed by at least one separator, and the non-empty remainder of
/// the line.  `None` when the line does not have that shape.
pub open spec fn split_fields(s: Seq<char>, k: nat) -> Option<(Seq<Seq<char>>, Seq<char>)>
    decreases k,
{
    if k == 0 {
        if s.len() > 0 {
            Some((Seq::<Seq<char>>::empty(), s))
        } else {
            None
        }
    } else {
        let t = token_run(s) as int;
        if t == 0 || t > s.len() {
            None
        } else {
            let gap = space_run(s.skip(t)) as int;
            if gap == 0 || gap > s.len() - t {
                None
            } else {
                match split_fields(s.skip(t + gap), (k - 1) as nat) {
                    None => None,
                    Some(p) => Some((seq![s.subrange(0, t)] + p.0, p.1)),
                }
            }
        }
    }
}

/// A successful split yields exactly `k` columns, every column
/// non-empty, and a non-empty remainder.
pub proof fn lemma_split_fields_shape(s: Seq<char>, k: nat)
    ensures
        match split_fields(s, k) {
            Some(p) => {
                &&& p.0.len() == k
                &&& forall|i: int| 0 <= i < k ==> (#[trigger] p.0[i]).len() > 0
                &&& p.1.len() > 0
            },
            None => true,
        },
    decreases k,
{
    if k == 0 {
    } else {
        let t = token_run(s) as int;
        if 0 < t <= s.len() {
            let gap = space_run(s.skip(t)) as int;
            if 0 < gap <= s.len() - t {
                lemma_split_fields_shape(s.skip(t + gap), (k - 1) as nat);
                if split_fields(s.skip(t + gap), (k - 1) as nat) is Some {
                    let p = split_fields(s.skip(t + gap), (k - 1) as nat)->0;
                    let whole = seq![s.subrange(0, t)] + p.0;
                    assert(whole[0].len() == t);
                    assert(forall|i: int| 1 <= i < whole.len() ==> whole[i] == p.0[i - 1]);
                }
            }
        }
    }
}

pub open spec fn is_space_head(s: Seq<char>) -> bool {
    s.len() > 0 && is_space(s[0])
}

/// Number of whitespace-delimited fields on the line.
pub open spec fn field_count(s: Seq<char>) -> nat
    decreases s.len(),
{
    if s.len() == 0 {
        0
    } else if is_space_head(s) {
        let gap = space_run(s) as int;
        if 1 <= gap <= s.len() {
            field_count(s.skip(gap))
        } else {
            0
        }
    } else {
        let t = token_run(s) as int;
        if 1 <= t <= s.len() {
            1 + field_count(s.skip(t))
        } else {
            1
        }
    }
}

/// A line that splits into `k` columns plus a remainder carries at
/// least `k + 1` fields; contrapositively, a line missing a required
/// column never splits.
pub proof fn lemma_split_fields_needs_fields(s: Seq<char>, k: nat)
    requires
        k >= 1,
    ensures
        split_fields(s, k) is Some ==> field_count(s) >= k + 1,
    decreases k,
{
    if split_fields(s, k) is Some {
        let t = token_run(s) as int;
        assert(0 < t <= s.len());
        let s2 = s.skip(t);
        let gap = space_run(s2) as int;
        assert(0 < gap <= s.len() - t);
        let s3 = s.skip(t + gap);
        assert(s2.skip(gap) =~= s3);
        assert(split_fields(s3, (k - 1) as nat) is Some);
        lemma_token_run_boundary(s);
        lemma_space_run_boundary(s2);
        assert(!is_space(s[0]));
        assert(field_count(s) == 1 + field_count(s2));
        assert(is_space_head(s2));
        assert(field_count(s2) == field_count(s3));
        if k == 1 {
            assert(s3.len() > 0);
            assert(gap < s2.len());
            assert(!is_space(s2[gap]));
            assert(s3[0] == s2[gap]);
            assert(field_count(s3) >= 1);
        } else {
            lemma_split_fields_needs_fields(s3, (k - 1) as nat);
        }
    }
}

/// What one line of `backend`'s output parses to, if anything: the
/// grammar's columns become the record's fields, the publisher falls
/// back to the placeholder when the grammar has no publisher column,
/// the source is the backend itself, and the rank is the edit distance
/// between the query and the name.
pub open spec fn parse_line_spec(backend: Backend, query: Seq<char>, line: Seq<char>) -> Option<
    ResultModel,
> {
    let g = spec_grammar_for(backend);
    match split_fields(line, g.leading_columns as nat) {
        None => None,
        Some(p) => Some(
            ResultModel {
                name: p.0[g.name_column as int],
                version: p.0[g.version_column as int],
                publisher: match g.publisher_column {
                    Some(c) => p.0[c as int],
                    None => "UNKNOWN"@,
                },
                source: backend,
                description: p.1,
                rank: edit_distance(query, p.0[g.name_column as int]),
            },
        ),
    }
}

/// Every parsed record is well formed: its name and description are
/// non-empty, its source is the backend it was parsed for, and its rank
/// is the edit distance from the query to its name.
pub proof fn lemma_parse_line_spec_wf(backend: Backend, query: Seq<char>, line: Seq<char>)
    ensures
        match parse_line_spec(backend, query, line) {
            Some(m) => {
                &&& m.name.len() > 0
                &&& m.description.len() > 0
                &&& m.source == backend
                &&& m.rank == edit_distance(query, m.name)
            },
            None => true,
        },
{
    lemma_grammar_wf(backend);
    lemma_split_fields_shape(line, spec_grammar_for(backend).leading_columns as nat);
}

/// A line missing a required column never parses: with at most as many
/// fields as the grammar has leading columns, there is nothing left for
/// the description, and the line is rejected whole.
pub proof fn lemma_missing_column_fails(backend: Backend, query: Seq<char>, line: Seq<char>)
    requires
        field_count(line) <= spec_grammar_for(backend).leading_columns,
    ensures
        parse_line_spec(backend, query, line) is None,
{
    lemma_grammar_wf(backend);
    lemma_split_fields_needs_fields(line, spec_grammar_for(backend).leading_columns as nat);
}

/// Split `line` into `k` owned columns and the owned remainder,
/// mirroring [`split_fields`] exactly.
fn split_columns(line: &str, k: usize) -> (r: Option<(Vec<String>, String)>)
    ensures
        match r {
            Some(p) => split_fields(line@, k as nat) == Some((string_views(p.0@), p.1@)),
            None => split_fields(line@, k as nat) is None,
        },
{
    let len = line.unicode_len();
    let mut toks: Vec<String> = Vec::new();
    let mut at: usize = 0;
    let mut c: usize = 0;
    proof {
        assert(line@.skip(0) =~= line@);
        assert(string_views(toks@) =~= Seq::<Seq<char>>::empty());
        assert(match split_fields(line@.skip(0), k as nat) {
            None => true,
            Some(p) => string_views(toks@) + p.0 =~= p.0,
        });
    }
    while c < k
        invariant
            c <= k,
            at <= len,
            len as nat == line@.len(),
            toks@.len() == c as int,
            split_fields(line@, k as nat) == (match split_fields(
                line@.skip(at as int),
                (k - c) as nat,
            ) {
                None => None::<(Seq<Seq<char>>, Seq<char>)>,
                Some(p) => Some((string_views(toks@) + p.0, p.1)),
            }),
        decreases k - c,
    {
        let te = token_end(line, len, at);
        let ghost suffix = line@.skip(at as int);
        if te == at {
            proof {
                assert(token_run(suffix) == 0);
                assert(split_fields(suffix, (k - c) as nat) is None);
            }
            return None;
        }
        let ge = space_end(line, len, te);
        proof {
            assert(line@.skip(te as int) =~= suffix.skip(te - at));
            assert(space_run(suffix.skip(te - at)) == ge - te);
        }
        if ge == te {
            proof {
                assert(split_fields(suffix, (k - c) as nat) is None);
            }
            return None;
        }
        let tok = String::from_str(line.substring_char(at, te));
        proof {
            let t = te - at;
            let gap = ge - te;
            assert(tok@ =~= suffix.subrange(0, t));
            assert(suffix.skip(t + gap) =~= line@.skip(ge as int));
            assert(split_fields(suffix, (k - c) as nat) == (match split_fields(
                line@.skip(ge as int),
                (k - c - 1) as nat,
            ) {
                None => None::<(Seq<Seq<char>>, Seq<char>)>,
                Some(p) => Some((seq![suffix.subrange(0, t)] + p.0, p.1)),
            }));
            assert(string_views(toks@.push(tok)) =~= string_views(toks@) + seq![tok@]);
            assert(match split_fields(line@.skip(ge as int), (k - c - 1) as nat) {
                None => true,
                Some(p) => string_views(toks@.push(tok)) + p.0 =~= string_views(toks@) + (seq![
                    suffix.subrange(0, t),
                ] + p.0),
            });
        }
        toks.push(tok);
        at = ge;
        c = c + 1;
    }
    let ghost suffix = line@.skip(at as int);
    if at == len {
        proof {
            assert(suffix.len() == 0);
            assert(split_fields(suffix, 0) is None);
        }
        return None;
    }
    let rest = String::from_str(line.substring_char(at, len));
    proof {
        assert(rest@ =~= suffix);
        assert(split_fields(suffix, 0) == Some((Seq::<Seq<char>>::empty(), suffix)));
        assert(string_views(toks@) + Seq::<Seq<char>>::empty() =~= string_views(toks@));
    }
    Some((toks, rest))
}

/// Parse one line of `backend`'s output.  On success the returned
/// record is exactly what the grammar extracts; on failure the
/// offending line and the backend are reported and nothing else
/// changes.
pub fn parse_line(line: &str, backend: Backend, query: &str) -> (r: Result<
    SearchResult,
    ParseFailure,
>)
    ensures
        match r {
            Ok(res) => parse_line_spec(backend, query@, line@) == Some(res@),
            Err(f) => {
                &&& parse_line_spec(backend, query@, line@) is None
                &&& f.backend == backend
                &&& f.line@ == line@
            },
        },
{
    let g = grammar_for(backend);
    match split_columns(line, g.leading_columns) {
        None => Err(ParseFailure { backend, line: String::from_str(line) }),
        Some((toks, rest)) => {
            proof {
                lemma_split_fields_shape(line@, g.leading_columns as nat);
                assert(string_views(toks@).len() == toks@.len());
            }
            let name = toks[g.name_column].clone();
            let version = toks[g.version_column].clone();
            let publisher = match g.publisher_column {
                Some(col) => toks[col].clone(),
                None => String::from_str("UNKNOWN"),
            };
            let rank_value = rank(query, name.as_str());
            Ok(
                SearchResult {
                    name,
                    version,
                    publisher,
                    source: backend,
                    description: rest,
                    rank: rank_value,
                },
            )
        },
    }
}

/// What parsing a whole sequence of lines yields: the records of the
/// well-formed lines and the malformed lines themselves, each in their
/// original order.
pub open spec fn parse_seq(backend: Backend, query: Seq<char>, lines: Seq<Seq<char>>) -> (Seq<
    ResultModel
>, Seq<Seq<char>>)
    decreases lines.len(),
{
    if lines.len() == 0 {
        (Seq::<ResultModel>::empty(), Seq::<Seq<char>>::empty())
    } else {
        let prefix = parse_seq(backend, query, lines.drop_last());
        match parse_line_spec(backend, query, lines.last()) {
            Some(m) => (prefix.0.push(m), prefix.1),
            None => (prefix.0, prefix.1.push(lines.last())),
        }
    }
}

/// `parse_seq` partitions its input: the records are exactly the
/// well-formed lines' records and the reported failures are exactly the
/// malformed lines, both in original order, and together they account
/// for every line.
pub proof fn lemma_parse_seq_partition(backend: Backend, query: Seq<char>, lines: Seq<Seq<char>>)
    ensures
        parse_seq(backend, query, lines).0 == lines.filter(
            |l: Seq<char>| parse_line_spec(backend, query, l) is Some,
        ).map_values(|l: Seq<char>| parse_line_spec(backend, query, l).unwrap()),
        parse_seq(backend, query, lines).1 == lines.filter(
            |l: Seq<char>| parse_line_spec(backend, query, l) is None,
        ),
        parse_seq(backend, query, lines).0.len() + parse_seq(backend, query, lines).1.len()
            == lines.len(),
    decreases lines.len(),
{
    reveal(Seq::filter);
    let keep = |l: Seq<char>| parse_line_spec(backend, query, l) is Some;
    let fail = |l: Seq<char>| parse_line_spec(backend, query, l) is None;
    let record = |l: Seq<char>| parse_line_spec(backend, query, l).unwrap();
    if lines.len() == 0 {
        assert(lines.filter(keep).map_values(record) =~= Seq::<ResultModel>::empty());
    } else {
        lemma_parse_seq_partition(backend, query, lines.drop_last());
        let butlast = lines.drop_last();
        assert(lines.filter(keep) == if keep(lines.last()) {
            butlast.filter(keep).push(lines.last())
        } else {
            butlast.filter(keep)
        });
        if keep(lines.last()) {
            assert(butlast.filter(keep).push(lines.last()).map_values(record) =~= butlast.filter(
                keep,
            ).map_values(record).push(record(lines.last())));
        }
    }
}

/// Parse everything a backend printed.  The first line is the format's
/// header and is always discarded; every following line contributes
/// either a record or a failure, in order, and a bad line never affects
/// its neighbours.
pub fn parse_all(raw: &str, backend: Backend, query: &str) -> (out: (
    Vec<SearchResult>,
    Vec<ParseFailure>,
))
    ensures
        result_models(out.0@) == parse_seq(backend, query@, split_lines(raw@).skip(1)).0,
        failure_lines(out.1@) == parse_seq(backend, query@, split_lines(raw@).skip(1)).1,
        forall|i: int| 0 <= i < out.1@.len() ==> (#[trigger] out.1@[i]).backend == backend,
{
    let lines = split_text_lines(raw);
    let mut results: Vec<SearchResult> = Vec::new();
    let mut failures: Vec<ParseFailure> = Vec::new();
    let ghost all = split_lines(raw@);
    proof {
        lemma_split_lines_nonempty(raw@);
        assert(string_views(lines@).len() == lines@.len());
        assert(all.subrange(1, 1) =~= Seq::<Seq<char>>::empty());
        assert(result_models(results@) =~= Seq::<ResultModel>::empty());
        assert(failure_lines(failures@) =~= Seq::<Seq<char>>::empty());
    }
    let mut idx: usize = 1;
    while idx < lines.len()
        invariant
            1 <= idx <= lines@.len(),
            string_views(lines@) == all,
            result_models(results@) == parse_seq(backend, query@, all.subrange(1, idx as int)).0,
            failure_lines(failures@) == parse_seq(backend, query@, all.subrange(1, idx as int)).1,
            forall|i: int| 0 <= i < failures@.len() ==> (#[trigger] failures@[i]).backend
                == backend,
        decreases lines@.len() - idx,
    {
        proof {
            assert(string_views(lines@)[idx as int] == lines@[idx as int]@);
            assert(all.subrange(1, idx + 1).drop_last() =~= all.subrange(1, idx as int));
            assert(all.subrange(1, idx + 1).last() == all[idx as int]);
        }
        match parse_line(lines[idx].as_str(), backend, query) {
            Ok(res) => {
                proof {
                    assert(result_models(results@.push(res)) =~= result_models(results@).push(
                        res@,
                    ));
                }
                results.push(res);
            },
            Err(f) => {
                proof {
                    assert(failure_lines(failures@.push(f)) =~= failure_lines(failures@).push(
                        f.line@,
                    ));
                }
                failures.push(f);
            },
        }
        idx = idx + 1;
    }
    proof {
        assert(all.subrange(1, lines@.len() as int) =~= all.skip(1));
    }
    (results, failures)
}

/// The successes of a sequence of per-line outcomes, in order.
pub open spec fn ok_results(entries: Seq<Result<SearchResult, String>>) -> Seq<SearchResult>
    decreases entries.len(),
{
    if entries.len() == 0 {
        Seq::<SearchResult>::empty()
    } else {
        let prefix = ok_results(entries.drop_last());
        match entries.last() {
            Ok(r) => prefix.push(r),
            Err(_) => prefix,
        }
    }
}

/// Keep the successfully parsed records, in their original order,
/// dropping the lines that failed to parse.
pub fn filter_search_results(results: Vec<Result<SearchResult, String>>) -> (ok: Vec<SearchResult>)
    ensures
        ok@ == ok_results(results@),
{
    let ghost orig = results@;
    let mut rest = results;
    let mut ok: Vec<SearchResult> = Vec::new();
    proof {
        assert(orig.subrange(0, 0) =~= Seq::<Result<SearchResult, String>>::empty());
        assert(orig.skip(0) =~= orig);
    }
    while rest.len() > 0
        invariant
            rest@.len() <= orig.len(),
            orig.skip(orig.len() - rest@.len()) == rest@,
            ok@ == ok_results(orig.subrange(0, orig.len() - rest@.len())),
        decreases rest@.len(),
    {
        let ghost j = orig.len() - rest@.len();
        let entry = rest.remove(0);
        proof {
            assert(entry == orig.skip(j as int)[0]);
            assert(rest@ =~= orig.skip(j + 1));
            assert(orig.subrange(0, j + 1).drop_last() =~= orig.subrange(0, j as int));
            assert(orig.subrange(0, j + 1).last() == orig[j as int]);
            assert(orig[j as int] == orig.skip(j as int)[0]);
        }
        match entry {
            Ok(r) => ok.push(r),
            Err(_) => (),
        }
    }
    proof {
        assert(orig.subrange(0, orig.len() as int) =~= orig);
    }
    ok
}

/// Parse one line of snap-style output, reporting an unparsable line as
/// its diagnostic message.
pub fn snap_line_to_result(snap_line: &str, query_name: &str) -> (r: Result<SearchResult, String>)
    ensures
        match r {
            Ok(res) => parse_line_spec(Backend::Snap, query_name@, snap_line@) == Some(res@),
            Err(m) => {
                &&& parse_line_spec(Backend::Snap, query_name@, snap_line@) is None
                &&& m@ == "Couldn't parse: "@ + snap_line@
            },
        },
{
    match parse_line(snap_line, Backend::Snap, query_name) {
        Ok(res) => Ok(res),
        Err(f) => Err(f.message()),
    }
}

/// Parse one line of flatpak-style output, reporting an unparsable line
/// as its diagnostic message.
pub fn flatpak_line_to_result(flatpak_line: &str, query_name: &str) -> (r: Result<
    SearchResult,
    String,
>)
    ensures
        match r {
            Ok(res) => parse_line_spec(Backend::Flatpak, query_name@, flatpak_line@) == Some(res@),
            Err(m) => {
                &&& parse_line_spec(Backend::Flatpak, query_name@, flatpak_line@) is None
                &&& m@ == "Couldn't parse: "@ + flatpak_line@
            },
        },
{
    match parse_line(flatpak_line, Backend::Flatpak, query_name) {
        Ok(res) => Ok(res),
        Err(f) => Err(f.message()),
    }
}

} // verus!

