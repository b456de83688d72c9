//! Ranking: results ordered by score, highest first, with results of equal
//! score kept in the order in which they came.

use crate::knowledge::{result_views, RankedResult, RankedResultView};
use crate::score::{lemma_at_least_total, lemma_at_least_transitive, ScoreModel};
use vstd::prelude::*;

verus! {

/// Where `x` goes in an ordered list: behind the last result whose score is
/// at least that of `x`.
pub open spec fn place_index(sorted: Seq<RankedResultView>, x: RankedResultView) -> int
    decreases sorted.len(),
{
    if sorted.len() == 0 || sorted.last().score.at_least(x.score) {
        sorted.len() as int
    } else {
        place_index(sorted.drop_last(), x)
    }
}

/// The ordered list with `x` put in its place.
pub open spec fn place(sorted: Seq<RankedResultView>, x: RankedResultView) -> Seq<
    RankedResultView,
> {
    sorted.insert(place_index(sorted, x), x)
}

/// The results ordered by score, highest first: each result in turn is put
/// behind the last one that scores at least as high, so results of equal
/// score stay in the order of `results`.
pub open spec fn ranked(results: Seq<RankedResultView>) -> Seq<RankedResultView>
    decreases results.len(),
{
    if results.len() == 0 {
        results
    } else {
        place(ranked(results.drop_last()), results.last())
    }
}

/// No result of the list scores higher than one before it.
pub open spec fn descending(results: Seq<RankedResultView>) -> bool {
    forall|i: int, j: int|
        0 <= i < j < results.len() ==> (#[trigger] results[i]).score.at_least(
            (#[trigger] results[j]).score,
        )
}

/// Every score of the list is well formed.
pub open spec fn scores_wf(results: Seq<RankedResultView>) -> bool {
    forall|i: int| 0 <= i < results.len() ==> (#[trigger] results[i]).score.wf()
}

/// What fixes the place of `x`: everything from the place on scores lower
/// than `x`, and the result just before it does not.
pub proof fn lemma_place_index(sorted: Seq<RankedResultView>, x: RankedResultView)
    ensures
        0 <= place_index(sorted, x) <= sorted.len(),
        forall|j: int|
            place_index(sorted, x) <= j < sorted.len() ==> !(#[trigger] sorted[j]).score.at_least(
                x.score,
            ),
        place_index(sorted, x) > 0 ==> sorted[place_index(sorted, x) - 1].score.at_least(x.score),
    decreases sorted.len(),
{
    if !(sorted.len() == 0 || sorted.last().score.at_least(x.score)) {
        let rest = sorted.drop_last();
        lemma_place_index(rest, x);
        assert forall|j: int| place_index(sorted, x) <= j < sorted.len() implies !(
        #[trigger] sorted[j]).score.at_least(x.score) by {
            if j < rest.len() {
                assert(sorted[j] == rest[j]);
            }
        }
    }
}

/// The place of `x` is the only index with the two properties of
/// [`lemma_place_index`].
pub proof fn lemma_place_index_unique(sorted: Seq<RankedResultView>, x: RankedResultView, k: int)
    requires
        0 <= k <= sorted.len(),
        forall|j: int| k <= j < sorted.len() ==> !(#[trigger] sorted[j]).score.at_least(x.score),
        k > 0 ==> sorted[k - 1].score.at_least(x.score),
    ensures
        place_index(sorted, x) == k,
    decreases sorted.len(),
{
    if sorted.len() == 0 || sorted.last().score.at_least(x.score) {
        if k < sorted.len() {
            assert(!sorted[sorted.len() - 1].score.at_least(x.score));
        }
    } else {
        let rest = sorted.drop_last();
        assert forall|j: int| k <= j < rest.len() implies !(#[trigger] rest[j]).score.at_least(
            x.score,
        ) by {
            assert(rest[j] == sorted[j]);
        }
        lemma_place_index_unique(rest, x, k);
    }
}

/// Putting a result in its place keeps a list ordered.
pub proof fn lemma_place_descending(sorted: Seq<RankedResultView>, x: RankedResultView)
    requires
        descending(sorted),
        scores_wf(sorted),
        x.score.wf(),
    ensures
        descending(place(sorted, x)),
        scores_wf(place(sorted, x)),
{
    let k = place_index(sorted, x);
    let placed = place(sorted, x);
    lemma_place_index(sorted, x);
    assert forall|i: int, j: int| 0 <= i < j < placed.len() implies (#[trigger] placed[i]).score.at_least(
        (#[trigger] placed[j]).score,
    ) by {
        if j < k {
            assert(placed[i] == sorted[i] && placed[j] == sorted[j]);
        } else if j == k {
            assert(placed[i] == sorted[i]);
            if i < k - 1 {
                assert(sorted[i].score.at_least(sorted[k - 1].score));
                lemma_at_least_transitive(sorted[i].score, sorted[k - 1].score, x.score);
            }
        } else if i == k {
            assert(placed[j] == sorted[j - 1]);
            lemma_at_least_total(x.score, sorted[j - 1].score);
        } else if i < k {
            assert(placed[i] == sorted[i] && placed[j] == sorted[j - 1]);
        } else {
            assert(placed[i] == sorted[i - 1] && placed[j] == sorted[j - 1]);
        }
    }
    assert forall|i: int| 0 <= i < placed.len() implies (#[trigger] placed[i]).score.wf() by {
        if i < k {
            assert(placed[i] == sorted[i]);
        } else if i > k {
            assert(placed[i] == sorted[i - 1]);
        }
    }
}

/// Ranked results hold what was given, each result as often as it was given.
pub proof fn lemma_ranked_permutes(results: Seq<RankedResultView>)
    ensures
        ranked(results).to_multiset() == results.to_multiset(),
        ranked(results).len() == results.len(),
    decreases results.len(),
{
    broadcast use vstd::seq_lib::group_to_multiset_ensures;

    if results.len() > 0 {
        let rest = results.drop_last();
        lemma_ranked_permutes(rest);
        lemma_place_index(ranked(rest), results.last());
        assert(results =~= rest.push(results.last()));
    }
}

/// Ranked results are ordered by score, highest first.
pub proof fn lemma_ranked_descending(results: Seq<RankedResultView>)
    requires
        scores_wf(results),
    ensures
        descending(ranked(results)),
        scores_wf(ranked(results)),
    decreases results.len(),
{
    if results.len() > 0 {
        let rest = results.drop_last();
        assert forall|i: int| 0 <= i < rest.len() implies (#[trigger] rest[i]).score.wf() by {
            assert(rest[i] == results[i]);
        }
        lemma_ranked_descending(rest);
        lemma_place_descending(ranked(rest), results.last());
    }
}

/// The results of the list that score the same as `level`, in order.
pub open spec fn tied_with(results: Seq<RankedResultView>, level: ScoreModel) -> Seq<
    RankedResultView,
> {
    results.filter(|r: RankedResultView| r.score.ties(level))
}

/// Ranking is stable: the results that share a score come out in the order
/// in which they went in.
pub proof fn lemma_ranked_stable(results: Seq<RankedResultView>, level: ScoreModel)
    requires
        scores_wf(results),
        level.wf(),
    ensures
        tied_with(ranked(results), level) == tied_with(results, level),
    decreases results.len(),
{
    let same = |r: RankedResultView| r.score.ties(level);
    if results.len() == 0 {
    } else {
        let rest = results.drop_last();
        let x = results.last();
        let sorted = ranked(rest);
        let k = place_index(sorted, x);
        assert forall|i: int| 0 <= i < rest.len() implies (#[trigger] rest[i]).score.wf() by {
            assert(rest[i] == results[i]);
        }
        lemma_ranked_stable(rest, level);
        lemma_ranked_descending(rest);
        lemma_place_index(sorted, x);
        let front = sorted.take(k);
        let back = sorted.skip(k);
        assert(sorted =~= front + back);
        assert(place(sorted, x) =~= (front + seq![x]) + back);
        assert(results =~= rest + seq![x]);
        Seq::filter_distributes_over_add(front, back, same);
        Seq::filter_distributes_over_add(front + seq![x], back, same);
        Seq::filter_distributes_over_add(front, seq![x], same);
        Seq::filter_distributes_over_add(rest, seq![x], same);
        if same(x) {
            // Whatever stands behind the place of `x` scores lower than `x`,
            // so none of it ties with `level`.
            assert forall|j: int| 0 <= j < back.len() implies !same(#[trigger] back[j]) by {
                assert(back[j] == sorted[k + j]);
                assert(!sorted[k + j].score.at_least(x.score));
                if same(back[j]) {
                    lemma_tie_at_least(back[j].score, level, x.score);
                }
            }
            back.lemma_all_neg_filter_empty(same);
            assert(back.filter(same) =~= Seq::<RankedResultView>::empty());
        } else {
            seq![x].lemma_all_neg_filter_empty(same);
            assert(seq![x].filter(same) =~= Seq::<RankedResultView>::empty());
        }
    }
}

/// Two scores that tie with a third are at least as high as each other.
proof fn lemma_tie_at_least(a: ScoreModel, level: ScoreModel, b: ScoreModel)
    requires
        a.wf(),
        b.wf(),
        level.wf(),
        a.ties(level),
        b.ties(level),
    ensures
        a.at_least(b),
{
    lemma_at_least_total(a, level);
    lemma_at_least_total(level, b);
    lemma_at_least_total(b, level);
    lemma_at_least_transitive(a, level, b);
}

/// Orders `results` by score, highest first. Results of equal score keep the
/// order in which they were given, and nothing is added or dropped.
pub fn rank(results: Vec<RankedResult>) -> (ordered: Vec<RankedResult>)
    ensures
        result_views(ordered@) == ranked(result_views(results@)),
        descending(result_views(ordered@)),
        ordered@.len() == results@.len(),
{
    let ghost all = results@;
    let mut ordered: Vec<RankedResult> = Vec::new();
    assert(result_views(ordered@) =~= ranked(result_views(all.take(0))));
    for result in it: results
        invariant
            it.seq() == all,
            result_views(ordered@) == ranked(result_views(all.take(it.index()))),
            scores_wf(result_views(all.take(it.index()))),
            ordered@.len() == it.index(),
    {
        let ghost sorted = result_views(ordered@);
        let mut k: usize = ordered.len();
        while k > 0 && !ordered[k - 1].score.at_least(&result.score)
            invariant
                k <= ordered.len(),
                sorted == result_views(ordered@),
                forall|j: int|
                    k <= j < sorted.len() ==> !(#[trigger] sorted[j]).score.at_least(
                        result@.score,
                    ),
            decreases k,
        {
            k -= 1;
        }
        proof {
            lemma_place_index_unique(sorted, result@, k as int);
            use_type_invariant(&result.score);
            let next = result_views(all.take(it.index() + 1));
            assert(next.drop_last() =~= result_views(all.take(it.index())));
            assert(next.last() == result@);
            assert forall|i: int| 0 <= i < next.len() implies (#[trigger] next[i]).score.wf() by {
                if i < next.len() - 1 {
                    assert(next[i] == next.drop_last()[i]);
                }
            }
            assert(result_views(ordered@.insert(k as int, result)) =~= sorted.insert(
                k as int,
                result@,
            ));
        }
        ordered.insert(k, result);
    }
    proof {
        assert(all.take(all.len() as int) =~= all);
        lemma_ranked_descending(result_views(all));
    }
    ordered
}

} // verus!
