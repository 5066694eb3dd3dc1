//! Similarity ranking between the query and a candidate package name.
//!
//! The rank of a hit is the Levenshtein edit distance between the query
//! string and the package name: the minimal number of single-character
//! insertions, deletions and substitutions that turn one into the other.
//! Lower is a closer match.  The rank depends on the two strings alone.

use vstd::prelude::*;

verus! {

pub open spec fn min_nat(a: nat, b: nat) -> nat {
    if a <= b {
        a
    } else {
        b
    }
}

pub open spec fn max_nat(a: nat, b: nat) -> nat {
    if a >= b {
        a
    } else {
        b
    }
}

/// Levenshtein edit distance between two character sequences.
pub open spec fn edit_distance(a: Seq<char>, b: Seq<char>) -> nat
    decreases a.len() + b.len(),
{
    if a.len() == 0 {
        b.len()
    } else if b.len() == 0 {
        a.len()
    } else {
        let swap_cost: nat = if a.last() == b.last() {
            0
        } else {
            1
        };
        min_nat(
            min_nat(edit_distance(a.drop_last(), b) + 1, edit_distance(a, b.drop_last()) + 1),
            edit_distance(a.drop_last(), b.drop_last()) + swap_cost,
        )
    }
}

/// The distance never exceeds the longer string's length: substituting
/// along the shorter string and inserting the overhang always suffices.
pub proof fn lemma_edit_distance_le_max(a: Seq<char>, b: Seq<char>)
    ensures
        edit_distance(a, b) <= max_nat(a.len(), b.len()),
    decreases a.len() + b.len(),
{
    if a.len() == 0 {
    } else if b.len() == 0 {
    } else {
        lemma_edit_distance_le_max(a.drop_last(), b.drop_last());
    }
}

/// Two equal strings are at distance zero.
pub proof fn lemma_edit_distance_self(s: Seq<char>)
    ensures
        edit_distance(s, s) == 0,
    decreases s.len(),
{
    if s.len() != 0 {
        lemma_edit_distance_self(s.drop_last());
    }
}

/// The distance between a string and the empty string, in either order,
/// is the string's length.
pub proof fn lemma_edit_distance_empty(s: Seq<char>)
    ensures
        edit_distance(s, Seq::<char>::empty()) == s.len(),
        edit_distance(Seq::<char>::empty(), s) == s.len(),
{
}

/// Saturating increment, used so that the ranking computation is total:
/// a clamped candidate can never be the minimum the dynamic program
/// selects, because the true distance always fits a `usize`.
fn saturating_inc(x: usize) -> (r: usize)
    ensures
        x < usize::MAX ==> r == x + 1,
        x == usize::MAX ==> r == usize::MAX,
{
    if x < usize::MAX {
        x + 1
    } else {
        x
    }
}

/// One cell of the dynamic program: the distance between the prefixes of
/// length `i + 1` and `j + 1` in terms of the three neighbouring cells.
proof fn lemma_distance_cell(a: Seq<char>, b: Seq<char>, i: int, j: int, t1: nat, t2: nat, t3: nat)
    requires
        0 <= i < a.len(),
        0 <= j < b.len(),
        t1 == edit_distance(a.subrange(0, i), b.subrange(0, j + 1)),
        t2 == edit_distance(a.subrange(0, i + 1), b.subrange(0, j)),
        t3 == edit_distance(a.subrange(0, i), b.subrange(0, j)),
    ensures
        edit_distance(a.subrange(0, i + 1), b.subrange(0, j + 1)) == min_nat(
            min_nat(t1 + 1, t2 + 1),
            t3 + (if a[i] == b[j] {
                0nat
            } else {
                1nat
            }),
        ),
        t1 <= max_nat(i as nat, (j + 1) as nat),
        t2 <= max_nat((i + 1) as nat, j as nat),
        t3 <= max_nat(i as nat, j as nat),
{
    let pa = a.subrange(0, i + 1);
    let pb = b.subrange(0, j + 1);
    assert(pa.drop_last() =~= a.subrange(0, i));
    assert(pb.drop_last() =~= b.subrange(0, j));
    assert(pa.last() == a[i]);
    assert(pb.last() == b[j]);
    lemma_edit_distance_le_max(a.subrange(0, i), b.subrange(0, j + 1));
    lemma_edit_distance_le_max(a.subrange(0, i + 1), b.subrange(0, j));
    lemma_edit_distance_le_max(a.subrange(0, i), b.subrange(0, j));
}

/// Rank a candidate name against the query: the Levenshtein edit
/// distance between the two strings.  Total, with no side conditions.
pub fn rank(query: &str, candidate_name: &str) -> (r: usize)
    ensures
        r as nat == edit_distance(query@, candidate_name@),
{
    let m = query.unicode_len();
    let n = candidate_name.unicode_len();
    // prev[t] holds the distance between query[..i] and candidate_name[..t + 1].
    let mut prev: Vec<usize> = Vec::new();
    let mut j: usize = 0;
    while j < n
        invariant
            j <= n,
            n as nat == candidate_name@.len(),
            m as nat == query@.len(),
            prev@.len() == j as int,
            forall|t: int|
                0 <= t < j ==> prev@[t] as nat == edit_distance(
                    query@.subrange(0, 0),
                    candidate_name@.subrange(0, t + 1),
                ),
        decreases n - j,
    {
        proof {
            assert(query@.subrange(0, 0).len() == 0);
            assert(candidate_name@.subrange(0, j + 1).len() == j + 1);
        }
        prev.push(j + 1);
        j = j + 1;
    }
    let mut i: usize = 0;
    while i < m
        invariant
            i <= m,
            m as nat == query@.len(),
            n as nat == candidate_name@.len(),
            prev@.len() == n as int,
            forall|t: int|
                0 <= t < n ==> prev@[t] as nat == edit_distance(
                    query@.subrange(0, i as int),
                    candidate_name@.subrange(0, t + 1),
                ),
        decreases m - i,
    {
        let ci = query.get_char(i);
        let mut cur: Vec<usize> = Vec::new();
        let mut k: usize = 0;
        while k < n
            invariant
                k <= n,
                i < m,
                m as nat == query@.len(),
                n as nat == candidate_name@.len(),
                ci == query@[i as int],
                prev@.len() == n as int,
                forall|t: int|
                    0 <= t < n ==> prev@[t] as nat == edit_distance(
                        query@.subrange(0, i as int),
                        candidate_name@.subrange(0, t + 1),
                    ),
                cur@.len() == k as int,
                forall|t: int|
                    0 <= t < k ==> cur@[t] as nat == edit_distance(
                        query@.subrange(0, i + 1),
                        candidate_name@.subrange(0, t + 1),
                    ),
            decreases n - k,
        {
            let cj = candidate_name.get_char(k);
            let up = prev[k];
            let left = if k == 0 {
                i + 1
            } else {
                cur[k - 1]
            };
            let diag = if k == 0 {
                i
            } else {
                prev[k - 1]
            };
            proof {
                if k == 0 {
                    assert(candidate_name@.subrange(0, 0).len() == 0);
                    lemma_edit_distance_empty(query@.subrange(0, i + 1));
                    lemma_edit_distance_empty(query@.subrange(0, i as int));
                    assert(candidate_name@.subrange(0, 0) =~= Seq::<char>::empty());
                    assert(query@.subrange(0, i + 1).len() == i + 1);
                    assert(query@.subrange(0, i as int).len() == i as int);
                }
                lemma_distance_cell(
                    query@,
                    candidate_name@,
                    i as int,
                    k as int,
                    up as nat,
                    left as nat,
                    diag as nat,
                );
            }
            let c1 = saturating_inc(up);
            let c2 = saturating_inc(left);
            let c3 = if ci == cj {
                diag
            } else {
                saturating_inc(diag)
            };
            let mut best = c1;
            if c2 < best {
                best = c2;
            }
            if c3 < best {
                best = c3;
            }
            proof {
                assert(best as nat == edit_distance(
                    query@.subrange(0, i + 1),
                    candidate_name@.subrange(0, k + 1),
                ));
            }
            cur.push(best);
            k = k + 1;
        }
        prev = cur;
        i = i + 1;
    }
    proof {
        assert(query@.subrange(0, m as int) =~= query@);
    }
    if n == 0 {
        proof {
            assert(candidate_name@.len() == 0);
            lemma_edit_distance_empty(query@);
            assert(candidate_name@ =~= Seq::<char>::empty());
        }
        m
    } else {
        proof {
            assert(candidate_name@.subrange(0, n as int) =~= candidate_name@);
        }
        prev[n - 1]
    }
}

} // verus!
