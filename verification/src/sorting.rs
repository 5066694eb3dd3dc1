//! Stable ordering of the merged results by rank.
//!
//! The sort is an insertion sort: an element is placed after every
//! element already ranked at most as high, so entries with equal rank
//! keep their pre-sort relative order.  That order — backend declaration
//! order, then arrival order within a backend — is the required
//! tie-break, not an accident.

use vstd::prelude::*;

use crate::results::{result_models, ResultModel, SearchResult};

verus! {

/// Place `x` after every element whose rank is at most `x`'s.
pub open spec fn insert_by_rank(s: Seq<ResultModel>, x: ResultModel) -> Seq<ResultModel>
    decreases s.len(),
{
    if s.len() == 0 {
        seq![x]
    } else if s.last().rank <= x.rank {
        s.push(x)
    } else {
        insert_by_rank(s.drop_last(), x).push(s.last())
    }
}

/// Stable sort ascending by rank.
pub open spec fn sort_by_rank(s: Seq<ResultModel>) -> Seq<ResultModel>
    decreases s.len(),
{
    if s.len() == 0 {
        Seq::<ResultModel>::empty()
    } else {
        insert_by_rank(sort_by_rank(s.drop_last()), s.last())
    }
}

/// Ascending by rank.
pub open spec fn sorted_by_rank(s: Seq<ResultModel>) -> bool {
    forall|i: int, j: int| 0 <= i <= j < s.len() ==> s[i].rank <= s[j].rank
}

/// Every rank in `s` is at most `b`.
spec fn all_rank_le(s: Seq<ResultModel>, b: nat) -> bool {
    forall|i: int| 0 <= i < s.len() ==> (#[trigger] s[i]).rank <= b
}

proof fn lemma_insert_by_rank_le(s: Seq<ResultModel>, x: ResultModel, b: nat)
    requires
        all_rank_le(s, b),
        x.rank <= b,
    ensures
        all_rank_le(insert_by_rank(s, x), b),
    decreases s.len(),
{
    if s.len() == 0 {
    } else if s.last().rank <= x.rank {
    } else {
        assert(all_rank_le(s.drop_last(), b));
        lemma_insert_by_rank_le(s.drop_last(), x, b);
    }
}

proof fn lemma_insert_by_rank_sorted(s: Seq<ResultModel>, x: ResultModel)
    requires
        sorted_by_rank(s),
    ensures
        sorted_by_rank(insert_by_rank(s, x)),
    decreases s.len(),
{
    if s.len() == 0 {
    } else if s.last().rank <= x.rank {
        assert forall|i: int, j: int| 0 <= i <= j < s.push(x).len() implies s.push(x)[i].rank
            <= s.push(x)[j].rank by {
            if j < s.len() {
            } else {
                if i < s.len() {
                    assert(s[i].rank <= s.last().rank);
                }
            }
        }
    } else {
        let dl = s.drop_last();
        assert(sorted_by_rank(dl));
        lemma_insert_by_rank_sorted(dl, x);
        assert(all_rank_le(dl, s.last().rank));
        lemma_insert_by_rank_le(dl, x, s.last().rank);
        let t = insert_by_rank(dl, x);
        assert forall|i: int, j: int| 0 <= i <= j < t.push(s.last()).len() implies t.push(
            s.last(),
        )[i].rank <= t.push(s.last())[j].rank by {
            if j < t.len() {
            } else {
                if i < t.len() {
                    assert(t[i].rank <= s.last().rank);
                }
            }
        }
    }
}

pub proof fn lemma_sort_by_rank_sorted(s: Seq<ResultModel>)
    ensures
        sorted_by_rank(sort_by_rank(s)),
    decreases s.len(),
{
    if s.len() != 0 {
        lemma_sort_by_rank_sorted(s.drop_last());
        lemma_insert_by_rank_sorted(sort_by_rank(s.drop_last()), s.last());
    }
}

proof fn lemma_insert_by_rank_multiset(s: Seq<ResultModel>, x: ResultModel)
    ensures
        insert_by_rank(s, x).to_multiset() == s.to_multiset().insert(x),
    decreases s.len(),
{
    broadcast use vstd::seq_lib::group_to_multiset_ensures;

    if s.len() == 0 {
        assert(seq![x] =~= Seq::<ResultModel>::empty().push(x));
        assert(Seq::<ResultModel>::empty().push(x).to_multiset() =~= Seq::<
            ResultModel,
        >::empty().to_multiset().insert(x));
    } else if s.last().rank <= x.rank {
    } else {
        let dl = s.drop_last();
        lemma_insert_by_rank_multiset(dl, x);
        assert(s =~= dl.push(s.last()));
        assert(insert_by_rank(dl, x).push(s.last()).to_multiset() == insert_by_rank(
            dl,
            x,
        ).to_multiset().insert(s.last()));
        assert(dl.to_multiset().insert(x).insert(s.last()) =~= dl.to_multiset().insert(
            s.last(),
        ).insert(x));
        assert(dl.push(s.last()).to_multiset() == dl.to_multiset().insert(s.last()));
    }
}

/// Sorting permutes: nothing is lost, duplicated or invented.
pub proof fn lemma_sort_by_rank_multiset(s: Seq<ResultModel>)
    ensures
        sort_by_rank(s).to_multiset() == s.to_multiset(),
    decreases s.len(),
{
    broadcast use vstd::seq_lib::group_to_multiset_ensures;

    if s.len() != 0 {
        let dl = s.drop_last();
        lemma_sort_by_rank_multiset(dl);
        lemma_insert_by_rank_multiset(sort_by_rank(dl), s.last());
        assert(s =~= dl.push(s.last()));
        assert(dl.push(s.last()).to_multiset() == dl.to_multiset().insert(s.last()));
    }
}

/// The subsequence of entries ranked exactly `r`, in order.
pub open spec fn with_rank(s: Seq<ResultModel>, r: nat) -> Seq<ResultModel> {
    s.filter(|m: ResultModel| m.rank == r)
}

proof fn lemma_insert_by_rank_with_rank(s: Seq<ResultModel>, x: ResultModel, r: nat)
    ensures
        with_rank(insert_by_rank(s, x), r) == if x.rank == r {
            with_rank(s, r).push(x)
        } else {
            with_rank(s, r)
        },
    decreases s.len(),
{
    reveal(Seq::filter);
    if s.len() == 0 {
        assert(s =~= Seq::<ResultModel>::empty());
        assert(seq![x].drop_last() =~= s);
        assert(seq![x].last() == x);
        assert(with_rank(s, r) == s);
        assert(with_rank(seq![x], r) == if x.rank == r {
            with_rank(s, r).push(x)
        } else {
            with_rank(s, r)
        });
    } else if s.last().rank <= x.rank {
        assert(s.push(x).drop_last() =~= s);
        assert(s.push(x).last() == x);
        assert(with_rank(s.push(x), r) == if x.rank == r {
            with_rank(s, r).push(x)
        } else {
            with_rank(s, r)
        });
    } else {
        let dl = s.drop_last();
        lemma_insert_by_rank_with_rank(dl, x, r);
        let t = insert_by_rank(dl, x);
        assert(t.push(s.last()).drop_last() =~= t);
        assert(t.push(s.last()).last() == s.last());
        assert(with_rank(t.push(s.last()), r) == if s.last().rank == r {
            with_rank(t, r).push(s.last())
        } else {
            with_rank(t, r)
        });
        assert(with_rank(s, r) == if s.last().rank == r {
            with_rank(dl, r).push(s.last())
        } else {
            with_rank(dl, r)
        });
        if x.rank == r {
            assert(s.last().rank != r);
        }
    }
}

/// Stability: sorting keeps the entries of any one rank in their
/// original relative order.
pub proof fn lemma_sort_by_rank_stable(s: Seq<ResultModel>, r: nat)
    ensures
        with_rank(sort_by_rank(s), r) == with_rank(s, r),
    decreases s.len(),
{
    reveal(Seq::filter);
    if s.len() != 0 {
        let dl = s.drop_last();
        lemma_sort_by_rank_stable(dl, r);
        lemma_insert_by_rank_with_rank(sort_by_rank(dl), s.last(), r);
    }
}

/// Between two backends' contributions of one equal rank, the first
/// backend's entries all come first in the sorted whole, each backend's
/// in their own arrival order.
pub proof fn lemma_sort_keeps_backend_order(s1: Seq<ResultModel>, s2: Seq<ResultModel>, r: nat)
    ensures
        with_rank(sort_by_rank(s1 + s2), r) == with_rank(s1, r) + with_rank(s2, r),
{
    lemma_sort_by_rank_stable(s1 + s2, r);
    Seq::<ResultModel>::filter_distributes_over_add(s1, s2, |m: ResultModel| m.rank == r);
}

/// Where `x` lands: after every leading element ranked at most `x.rank`
/// and before the rest.
proof fn lemma_insert_by_rank_splice(s: Seq<ResultModel>, x: ResultModel, j: int)
    requires
        0 <= j <= s.len(),
        forall|k: int| j <= k < s.len() ==> (#[trigger] s[k]).rank > x.rank,
        j > 0 ==> s[j - 1].rank <= x.rank,
    ensures
        insert_by_rank(s, x) == s.subrange(0, j).push(x) + s.subrange(j, s.len() as int),
    decreases s.len(),
{
    if s.len() == 0 {
        assert(seq![x] =~= s.subrange(0, 0).push(x) + s.subrange(0, 0));
    } else if s.last().rank <= x.rank {
        assert(j == s.len());
        assert(s.push(x) =~= s.subrange(0, j).push(x) + s.subrange(j, s.len() as int));
    } else {
        let dl = s.drop_last();
        assert(forall|k: int| j <= k < dl.len() ==> (#[trigger] dl[k]).rank > x.rank);
        lemma_insert_by_rank_splice(dl, x, j);
        assert(insert_by_rank(dl, x).push(s.last()) =~= s.subrange(0, j).push(x) + s.subrange(
            j,
            s.len() as int,
        ));
    }
}

/// Insert one record into an already sorted vector, directly after the
/// last record ranked at most as high.
fn insert_sorted(v: &mut Vec<SearchResult>, x: SearchResult)
    ensures
        result_models(final(v)@) == insert_by_rank(result_models(old(v)@), x@),
{
    let mut j = v.len();
    while j > 0 && v[j - 1].rank > x.rank
        invariant
            j <= v@.len(),
            forall|k: int| j <= k < v@.len() ==> (#[trigger] v@[k]).rank > x.rank,
        decreases j,
    {
        j = j - 1;
    }
    proof {
        let models = result_models(v@);
        assert(models.len() == v@.len());
        assert(forall|k: int| 0 <= k < v@.len() ==> (#[trigger] models[k]) == v@[k]@);
        assert(forall|k: int| j <= k < models.len() ==> (#[trigger] models[k]).rank > x@.rank);
        if j > 0 {
            assert(models[j - 1].rank <= x@.rank);
        }
        lemma_insert_by_rank_splice(models, x@, j as int);
    }
    let ghost before = v@;
    v.insert(j, x);
    proof {
        assert(result_models(v@) =~= result_models(before).subrange(0, j as int).push(x@)
            + result_models(before).subrange(j as int, before.len() as int));
    }
}

/// Stable-sort the merged results ascending by rank.
pub fn sort_results(results: Vec<SearchResult>) -> (sorted: Vec<SearchResult>)
    ensures
        result_models(sorted@) == sort_by_rank(result_models(results@)),
{
    let ghost orig = results@;
    let mut rest = results;
    let mut sorted: Vec<SearchResult> = Vec::new();
    proof {
        assert(orig.skip(0) =~= orig);
        assert(result_models(orig.subrange(0, 0)) =~= Seq::<ResultModel>::empty());
        assert(result_models(sorted@) =~= Seq::<ResultModel>::empty());
    }
    while rest.len() > 0
        invariant
            rest@.len() <= orig.len(),
            orig.skip(orig.len() - rest@.len()) == rest@,
            result_models(sorted@) == sort_by_rank(
                result_models(orig.subrange(0, orig.len() - rest@.len())),
            ),
        decreases rest@.len(),
    {
        let ghost j = orig.len() - rest@.len();
        let x = rest.remove(0);
        proof {
            assert(x == orig.skip(j as int)[0]);
            assert(x == orig[j as int]);
            assert(rest@ =~= orig.skip(j + 1));
            let cur = result_models(orig.subrange(0, j + 1));
            assert(cur.drop_last() =~= result_models(orig.subrange(0, j as int)));
            assert(cur.last() == x@);
        }
        insert_sorted(&mut sorted, x);
    }
    proof {
        assert(orig.subrange(0, orig.len() as int) =~= orig);
    }
    sorted
}

} // verus!
