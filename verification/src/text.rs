//! Character-level scanning over backend output text: maximal runs of
//! token, separator and line characters, and splitting raw output into
//! lines.

use vstd::prelude::*;

verus! {

/// Column separator characters inside one output line.
pub open spec fn is_space(c: char) -> bool {
    c == ' ' || c == '\t'
}

/// Length of the maximal leading run of non-separator characters.
pub open spec fn token_run(s: Seq<char>) -> nat
    decreases s.len(),
{
    if s.len() == 0 || is_space(s[0]) {
        0
    } else {
        1 + token_run(s.skip(1))
    }
}

/// Length of the maximal leading run of separator characters.
pub open spec fn space_run(s: Seq<char>) -> nat
    decreases s.len(),
{
    if s.len() == 0 || !is_space(s[0]) {
        0
    } else {
        1 + space_run(s.skip(1))
    }
}

/// Length of the maximal leading run without a line terminator.
pub open spec fn line_run(s: Seq<char>) -> nat
    decreases s.len(),
{
    if s.len() == 0 || s[0] == '\n' {
        0
    } else {
        1 + line_run(s.skip(1))
    }
}

/// A leading run reaches at most the end of the sequence; the character
/// just past a run that stops early is of the other kind.
pub proof fn lemma_token_run_boundary(s: Seq<char>)
    ensures
        token_run(s) <= s.len(),
        token_run(s) < s.len() ==> is_space(s[token_run(s) as int]),
        forall|k: int| 0 <= k < token_run(s) ==> !is_space(s[k]),
    decreases s.len(),
{
    if s.len() == 0 || is_space(s[0]) {
    } else {
        lemma_token_run_boundary(s.skip(1));
        assert forall|k: int| 0 <= k < token_run(s) implies !is_space(s[k]) by {
            if k >= 1 {
                assert(!is_space(s.skip(1)[k - 1]));
            }
        }
        if token_run(s) < s.len() {
            assert(s[token_run(s) as int] == s.skip(1)[token_run(s.skip(1)) as int]);
        }
    }
}

/// The separator analogue of [`lemma_token_run_boundary`].
pub proof fn lemma_space_run_boundary(s: Seq<char>)
    ensures
        space_run(s) <= s.len(),
        space_run(s) < s.len() ==> !is_space(s[space_run(s) as int]),
        forall|k: int| 0 <= k < space_run(s) ==> is_space(s[k]),
    decreases s.len(),
{
    if s.len() == 0 || !is_space(s[0]) {
    } else {
        lemma_space_run_boundary(s.skip(1));
        assert forall|k: int| 0 <= k < space_run(s) implies is_space(s[k]) by {
            if k >= 1 {
                assert(is_space(s.skip(1)[k - 1]));
            }
        }
        if space_run(s) < s.len() {
            assert(s[space_run(s) as int] == s.skip(1)[space_run(s.skip(1)) as int]);
        }
    }
}

proof fn lemma_token_run_is(s: Seq<char>, n: int)
    requires
        0 <= n <= s.len(),
        forall|k: int| 0 <= k < n ==> !is_space(s[k]),
        n == s.len() || is_space(s[n]),
    ensures
        token_run(s) == n,
    decreases n,
{
    if n == 0 {
    } else {
        assert(!is_space(s[0]));
        assert(forall|k: int| 0 <= k < n - 1 ==> s.skip(1)[k] == s[k + 1]);
        lemma_token_run_is(s.skip(1), n - 1);
    }
}

proof fn lemma_space_run_is(s: Seq<char>, n: int)
    requires
        0 <= n <= s.len(),
        forall|k: int| 0 <= k < n ==> is_space(s[k]),
        n == s.len() || !is_space(s[n]),
    ensures
        space_run(s) == n,
    decreases n,
{
    if n == 0 {
    } else {
        assert(is_space(s[0]));
        assert(forall|k: int| 0 <= k < n - 1 ==> s.skip(1)[k] == s[k + 1]);
        lemma_space_run_is(s.skip(1), n - 1);
    }
}

proof fn lemma_line_run_is(s: Seq<char>, n: int)
    requires
        0 <= n <= s.len(),
        forall|k: int| 0 <= k < n ==> s[k] != '\n',
        n == s.len() || s[n] == '\n',
    ensures
        line_run(s) == n,
    decreases n,
{
    if n == 0 {
    } else {
        assert(s[0] != '\n');
        assert(forall|k: int| 0 <= k < n - 1 ==> s.skip(1)[k] == s[k + 1]);
        lemma_line_run_is(s.skip(1), n - 1);
    }
}

/// The pieces of `s` between line terminators, in order.  As with
/// `str::split`, there is always at least one piece: empty input yields
/// one empty piece, and a trailing terminator yields a trailing empty
/// piece.
pub open spec fn split_lines(s: Seq<char>) -> Seq<Seq<char>>
    decreases s.len(),
{
    let n = line_run(s) as int;
    if n >= s.len() {
        seq![s]
    } else {
        seq![s.subrange(0, n)] + split_lines(s.skip(n + 1))
    }
}

pub proof fn lemma_split_lines_nonempty(s: Seq<char>)
    ensures
        split_lines(s).len() >= 1,
{
}

fn is_space_char(c: char) -> (b: bool)
    ensures
        b == is_space(c),
{
    c == ' ' || c == '\t'
}

/// Index just past the maximal run of non-separator characters starting
/// at `from`.
pub(crate) fn token_end(line: &str, len: usize, from: usize) -> (end: usize)
    requires
        len as nat == line@.len(),
        from <= len,
    ensures
        from <= end <= len,
        end - from == token_run(line@.skip(from as int)),
{
    let mut end = from;
    while end < len && !is_space_char(line.get_char(end))
        invariant
            from <= end <= len,
            len as nat == line@.len(),
            forall|k: int| from <= k < end ==> !is_space(line@[k]),
        decreases len - end,
    {
        end = end + 1;
    }
    proof {
        let suffix = line@.skip(from as int);
        assert(forall|k: int| 0 <= k < suffix.len() ==> suffix[k] == line@[k + from]);
        lemma_token_run_is(suffix, end - from);
    }
    end
}

/// Index just past the maximal run of separator characters starting at
/// `from`.
pub(crate) fn space_end(line: &str, len: usize, from: usize) -> (end: usize)
    requires
        len as nat == line@.len(),
        from <= len,
    ensures
        from <= end <= len,
        end - from == space_run(line@.skip(from as int)),
{
    let mut end = from;
    while end < len && is_space_char(line.get_char(end))
        invariant
            from <= end <= len,
            len as nat == line@.len(),
            forall|k: int| from <= k < end ==> is_space(line@[k]),
        decreases len - end,
    {
        end = end + 1;
    }
    proof {
        let suffix = line@.skip(from as int);
        assert(forall|k: int| 0 <= k < suffix.len() ==> suffix[k] == line@[k + from]);
        lemma_space_run_is(suffix, end - from);
    }
    end
}

fn line_end(raw: &str, len: usize, from: usize) -> (end: usize)
    requires
        len as nat == raw@.len(),
        from <= len,
    ensures
        from <= end <= len,
        end - from == line_run(raw@.skip(from as int)),
{
    let mut end = from;
    while end < len && raw.get_char(end) != '\n'
        invariant
            from <= end <= len,
            len as nat == raw@.len(),
            forall|k: int| from <= k < end ==> raw@[k] != '\n',
        decreases len - end,
    {
        end = end + 1;
    }
    proof {
        let suffix = raw@.skip(from as int);
        assert(forall|k: int| 0 <= k < suffix.len() ==> suffix[k] == raw@[k + from]);
        lemma_line_run_is(suffix, end - from);
    }
    end
}

/// The views of a sequence of owned strings.
pub open spec fn string_views(lines: Seq<String>) -> Seq<Seq<char>> {
    lines.map_values(|l: String| l@)
}

/// Split raw backend output into its lines.
pub(crate) fn split_text_lines(raw: &str) -> (lines: Vec<String>)
    ensures
        string_views(lines@) == split_lines(raw@),
{
    let len = raw.unicode_len();
    let mut lines: Vec<String> = Vec::new();
    let mut at: usize = 0;
    let mut done = false;
    proof {
        assert(raw@.skip(0) =~= raw@);
        assert(string_views(lines@) =~= Seq::<Seq<char>>::empty());
        assert(string_views(lines@) + split_lines(raw@.skip(0)) =~= split_lines(raw@));
    }
    while !done
        invariant
            at <= len,
            len as nat == raw@.len(),
            !done ==> split_lines(raw@) == string_views(lines@) + split_lines(raw@.skip(at as int)),
            done ==> string_views(lines@) == split_lines(raw@),
        decreases len - at + (if done {
            0int
        } else {
            1int
        }),
    {
        let end = line_end(raw, len, at);
        let piece = String::from_str(raw.substring_char(at, end));
        proof {
            let suffix = raw@.skip(at as int);
            assert(piece@ =~= suffix.subrange(0, end - at));
            if end == len {
                assert(line_run(suffix) == suffix.len());
                assert(suffix.subrange(0, end - at) =~= suffix);
                assert(split_lines(suffix) =~= seq![piece@]);
                assert(string_views(lines@.push(piece)) =~= string_views(lines@) + seq![piece@]);
            } else {
                assert(split_lines(suffix) == seq![suffix.subrange(0, (end - at) as int)]
                    + split_lines(suffix.skip(end - at + 1)));
                assert(suffix.skip(end - at + 1) =~= raw@.skip(end + 1));
                assert(string_views(lines@.push(piece)) =~= string_views(lines@) + seq![piece@]);
                assert(string_views(lines@.push(piece)) + split_lines(raw@.skip(end + 1))
                    =~= string_views(lines@) + split_lines(raw@.skip(at as int)));
            }
        }
        lines.push(piece);
        if end == len {
            done = true;
        } else {
            at = end + 1;
        }
    }
    lines
}

} // verus!
