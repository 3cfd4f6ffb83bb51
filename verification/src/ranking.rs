//! The order of the scores of a row, and what is chosen or cut by it: the best
//! token, the best `k` tokens, the nucleus.
//!
//! Scores are ordered by their rank, higher first. Of two places with scores
//! of one rank the lower place comes first, so that the order of a row is
//! unique.

use crate::error::GenerationError;
use crate::number::{less, lt, rank, rank_of, Number, NEG_INFINITY, ONE};
use vstd::prelude::*;

verus! {

/// Place `i` comes before place `j`: its score ranks higher, or ranks equal
/// and `i` is the lower place.
pub open spec fn precedes(scores: Seq<Number>, i: int, j: int) -> bool {
    rank(scores[i]) > rank(scores[j]) || (rank(scores[i]) == rank(scores[j]) && i < j)
}

/// The places of a vector of places, as integers.
pub open spec fn places(order: Seq<usize>) -> Seq<int> {
    Seq::new(order.len(), |p: int| order[p] as int)
}

/// `order` holds as many places of `scores` as there are, each before those
/// that follow it.
pub open spec fn is_descending_order(scores: Seq<Number>, order: Seq<int>) -> bool {
    &&& order.len() == scores.len()
    &&& forall|p: int| 0 <= p < order.len() ==> 0 <= #[trigger] order[p] < scores.len()
    &&& forall|p: int, q: int|
        0 <= p < q < order.len() ==> precedes(scores, #[trigger] order[p], #[trigger] order[q])
}

/// The places of `scores`, best first.
pub open spec fn descending_order(scores: Seq<Number>) -> Seq<int> {
    choose|order: Seq<int>| is_descending_order(scores, order)
}

/// `i` is the place of the best score: none ranks higher, and every score
/// before it ranks strictly lower.
pub open spec fn is_first_maximum(scores: Seq<Number>, i: int) -> bool {
    &&& 0 <= i < scores.len()
    &&& forall|j: int| 0 <= j < scores.len() ==> rank(#[trigger] scores[j]) <= rank(scores[i])
    &&& forall|j: int| 0 <= j < i ==> rank(#[trigger] scores[j]) < rank(scores[i])
}

/// The place of the best score of a row that is not empty: the first among
/// those of greatest rank.
pub open spec fn first_maximum(scores: Seq<Number>) -> int {
    choose|i: int| is_first_maximum(scores, i)
}

/// The number of tokens that top-k filtering keeps in a row of `vocab_size`
/// scores: `top_k`, but no fewer than `min_tokens_to_keep` and no more than
/// there are.
pub open spec fn kept_by_top_k(top_k: nat, min_tokens_to_keep: nat, vocab_size: nat) -> nat {
    let wanted = if top_k > min_tokens_to_keep {
        top_k
    } else {
        min_tokens_to_keep
    };
    if wanted < vocab_size {
        wanted
    } else {
        vocab_size
    }
}

/// The row with all scores masked out but the `keep` best.
pub open spec fn is_top_k_filtered(scores: Seq<Number>, keep: nat, filtered: Seq<Number>) -> bool {
    &&& filtered.len() == scores.len()
    &&& forall|p: int|
        0 <= p < scores.len() ==> #[trigger] filtered[descending_order(scores)[p]] == if p < keep {
            scores[descending_order(scores)[p]]
        } else {
            NEG_INFINITY
        }
}

/// Whether nucleus filtering cuts the token at place `p` of the descending
/// order: the cumulative probability of the tokens before it exceeds `top_p`,
/// and the token before it is none of those that are kept in any case: with
/// `min_tokens_to_keep` above one, the first `min_tokens_to_keep + 1`.
pub open spec fn cut_by_top_p(
    cumulative: Seq<Number>,
    top_p: Number,
    min_tokens_to_keep: nat,
    p: int,
) -> bool {
    p >= 1 && less(top_p, cumulative[p - 1]) && !(min_tokens_to_keep > 1 && p - 1
        <= min_tokens_to_keep)
}

/// The row after nucleus filtering, given for each place of the descending
/// order the cumulative probability up to and with it. With `top_p` not
/// under one the row is as it was.
pub open spec fn is_top_p_filtered(
    scores: Seq<Number>,
    cumulative: Seq<Number>,
    top_p: Number,
    min_tokens_to_keep: nat,
    filtered: Seq<Number>,
) -> bool {
    if less(top_p, ONE) {
        &&& filtered.len() == scores.len()
        &&& forall|p: int|
            0 <= p < scores.len() ==> #[trigger] filtered[descending_order(scores)[p]]
                == if cut_by_top_p(cumulative, top_p, min_tokens_to_keep, p) {
                NEG_INFINITY
            } else {
                scores[descending_order(scores)[p]]
            }
    } else {
        filtered == scores
    }
}

/// A row has one place of the best score only.
pub proof fn lemma_first_maximum_unique(scores: Seq<Number>, i: int)
    requires
        is_first_maximum(scores, i),
    ensures
        first_maximum(scores) == i,
{
    let j = first_maximum(scores);
    if i < j {
        assert(rank(scores[i]) < rank(scores[j]));
        assert(rank(scores[j]) <= rank(scores[i]));
    } else if j < i {
        assert(rank(scores[j]) < rank(scores[i]));
        assert(rank(scores[i]) <= rank(scores[j]));
    }
}

/// A row that is not empty has a place of the best score.
pub proof fn lemma_first_maximum_exists(scores: Seq<Number>)
    requires
        scores.len() > 0,
    ensures
        is_first_maximum(scores, first_maximum(scores)),
{
    lemma_descending_order_exists(scores);
    lemma_first_of_order_is_maximum(scores, descending_order(scores));
}

/// Of two different places one comes before the other, never both.
pub proof fn lemma_precedes_total(scores: Seq<Number>, i: int, j: int)
    requires
        i != j,
    ensures
        precedes(scores, i, j) != precedes(scores, j, i),
{
}

/// What comes before a place comes before all that the place comes before.
pub proof fn lemma_precedes_transitive(scores: Seq<Number>, i: int, j: int, k: int)
    requires
        precedes(scores, i, j),
        precedes(scores, j, k),
    ensures
        precedes(scores, i, k),
{
}

/// A descending order holds every place of the row.
pub proof fn lemma_order_holds_every_place(scores: Seq<Number>, order: Seq<int>, place: int)
    requires
        is_descending_order(scores, order),
        0 <= place < scores.len(),
    ensures
        exists|p: int| 0 <= p < order.len() && #[trigger] order[p] == place,
{
    assert(order.no_duplicates()) by {
        assert forall|i: int, j: int|
            0 <= i < order.len() && 0 <= j < order.len() && i != j implies order[i]
            != order[j] by {
            if i < j {
                assert(precedes(scores, order[i], order[j]));
            } else {
                assert(precedes(scores, order[j], order[i]));
            }
        }
    }
    order.unique_seq_to_set();
    vstd::seq_lib::seq_to_set_is_finite(order);
    let all = vstd::set_lib::set_int_range(0, scores.len() as int);
    vstd::set_lib::lemma_int_range(0, scores.len() as int);
    assert(order.to_set().subset_of(all)) by {
        assert forall|v: int| order.to_set().contains(v) implies all.contains(v) by {
            let p = choose|p: int| 0 <= p < order.len() && order[p] == v;
            assert(0 <= order[p] < scores.len());
        }
    }
    vstd::set_lib::lemma_subset_equality(order.to_set(), all);
    assert(all.contains(place));
    assert(order.to_set().contains(place));
    assert(order.contains(place));
}

/// A row has one descending order only.
pub proof fn lemma_descending_order_unique(scores: Seq<Number>, first: Seq<int>, second: Seq<int>)
    requires
        is_descending_order(scores, first),
        is_descending_order(scores, second),
    ensures
        first == second,
{
    assert forall|p: int| 0 <= p < first.len() implies first[p] == second[p] by {
        lemma_orders_agree_up_to(scores, first, second, p);
    }
    assert(first =~= second);
}

/// Two descending orders of a row agree at place `p` and before.
proof fn lemma_orders_agree_up_to(scores: Seq<Number>, first: Seq<int>, second: Seq<int>, p: int)
    requires
        is_descending_order(scores, first),
        is_descending_order(scores, second),
        0 <= p < first.len(),
    ensures
        forall|k: int| 0 <= k <= p ==> first[k] == second[k],
    decreases p,
{
    if p > 0 {
        lemma_orders_agree_up_to(scores, first, second, p - 1);
    }
    let a = first[p];
    let b = second[p];
    if a != b {
        lemma_precedes_total(scores, a, b);
        lemma_order_holds_every_place(scores, second, a);
        lemma_order_holds_every_place(scores, first, b);
        let qa = choose|q: int| 0 <= q < second.len() && #[trigger] second[q] == a;
        let qb = choose|q: int| 0 <= q < first.len() && #[trigger] first[q] == b;
        if qa < p {
            assert(first[qa] == second[qa]);
            assert(precedes(scores, first[qa], first[p]));
        } else if qb < p {
            assert(first[qb] == second[qb]);
            assert(precedes(scores, second[qb], second[p]));
        } else {
            assert(precedes(scores, second[p], second[qa]));
            assert(precedes(scores, first[p], first[qb]));
        }
    }
}

/// Where a place that `order` does not hold comes in: `p` of the first `upto`
/// places of `order` come before it, and it comes before the others.
proof fn lemma_split_point(scores: Seq<Number>, order: Seq<int>, place: int, upto: int) -> (p: int)
    requires
        0 <= upto <= order.len(),
        forall|q: int| 0 <= q < order.len() ==> #[trigger] order[q] != place,
        forall|a: int, b: int|
            0 <= a < b < order.len() ==> precedes(scores, #[trigger] order[a], #[trigger] order[b]),
    ensures
        0 <= p <= upto,
        forall|q: int| 0 <= q < p ==> precedes(scores, #[trigger] order[q], place),
        forall|q: int| p <= q < upto ==> precedes(scores, place, #[trigger] order[q]),
    decreases upto,
{
    if upto == 0 {
        0
    } else {
        let last = upto - 1;
        if precedes(scores, order[last], place) {
            assert forall|q: int| 0 <= q < upto implies precedes(
                scores,
                #[trigger] order[q],
                place,
            ) by {
                if q < last {
                    lemma_precedes_transitive(scores, order[q], order[last], place);
                }
            }
            upto
        } else {
            lemma_precedes_total(scores, order[last], place);
            lemma_split_point(scores, order, place, last)
        }
    }
}

/// Every row has a descending order.
pub proof fn lemma_descending_order_exists(scores: Seq<Number>)
    ensures
        is_descending_order(scores, descending_order(scores)),
    decreases scores.len(),
{
    if scores.len() == 0 {
        assert(is_descending_order(scores, Seq::<int>::empty()));
    } else {
        let front = scores.drop_last();
        lemma_descending_order_exists(front);
        let order = descending_order(front);
        let place = scores.len() - 1;
        assert forall|a: int, b: int| 0 <= a < b < order.len() implies precedes(
            scores,
            #[trigger] order[a],
            #[trigger] order[b],
        ) by {
            assert(precedes(front, order[a], order[b]));
            assert(front[order[a]] == scores[order[a]]);
            assert(front[order[b]] == scores[order[b]]);
        }
        let p = lemma_split_point(scores, order, place, order.len() as int);
        let extended = order.take(p).push(place) + order.skip(p);
        assert forall|a: int, b: int| 0 <= a < b < extended.len() implies precedes(
            scores,
            #[trigger] extended[a],
            #[trigger] extended[b],
        ) by {
            if b < p {
                assert(extended[a] == order[a] && extended[b] == order[b]);
            } else if b == p {
                assert(extended[a] == order[a]);
            } else if a < p {
                assert(extended[a] == order[a] && extended[b] == order[b - 1]);
            } else if a == p {
                assert(extended[b] == order[b - 1]);
            } else {
                assert(extended[a] == order[a - 1] && extended[b] == order[b - 1]);
            }
        }
        assert forall|q: int| 0 <= q < extended.len() implies 0 <= #[trigger] extended[q]
            < scores.len() by {
            if q < p {
                assert(extended[q] == order[q]);
            } else if q > p {
                assert(extended[q] == order[q - 1]);
            }
        }
        assert(is_descending_order(scores, extended));
    }
}

/// Whatever order is found to be descending is the descending order.
pub proof fn lemma_is_the_descending_order(scores: Seq<Number>, order: Seq<int>)
    requires
        is_descending_order(scores, order),
    ensures
        descending_order(scores) == order,
        is_descending_order(scores, descending_order(scores)),
{
    lemma_descending_order_unique(scores, order, descending_order(scores));
}

/// The first place of the descending order is the place of the best score.
pub proof fn lemma_first_of_order_is_maximum(scores: Seq<Number>, order: Seq<int>)
    requires
        is_descending_order(scores, order),
        scores.len() > 0,
    ensures
        is_first_maximum(scores, order[0]),
{
    assert forall|j: int| 0 <= j < scores.len() implies rank(#[trigger] scores[j]) <= rank(
        scores[order[0]],
    ) && (j < order[0] ==> rank(scores[j]) < rank(scores[order[0]])) by {
        lemma_order_holds_every_place(scores, order, j);
        let q = choose|q: int| 0 <= q < order.len() && #[trigger] order[q] == j;
        if q > 0 {
            assert(precedes(scores, order[0], order[q]));
        }
    }
}

/// Top-k filtering that keeps as many tokens as the row has changes nothing.
pub proof fn lemma_top_k_of_all_is_idle(scores: Seq<Number>, keep: nat, filtered: Seq<Number>)
    requires
        is_top_k_filtered(scores, keep, filtered),
        keep >= scores.len(),
    ensures
        filtered == scores,
{
    lemma_descending_order_exists(scores);
    let order = descending_order(scores);
    assert forall|i: int| 0 <= i < scores.len() implies filtered[i] == scores[i] by {
        lemma_order_holds_every_place(scores, order, i);
        let p = choose|p: int| 0 <= p < order.len() && #[trigger] order[p] == i;
        assert(filtered[order[p]] == scores[order[p]]);
    }
    assert(filtered =~= scores);
}

/// Nucleus filtering with a `top_p` of one changes nothing.
pub proof fn lemma_top_p_of_one_is_idle(
    scores: Seq<Number>,
    cumulative: Seq<Number>,
    min_tokens_to_keep: nat,
    filtered: Seq<Number>,
)
    requires
        is_top_p_filtered(scores, cumulative, ONE, min_tokens_to_keep, filtered),
    ensures
        filtered == scores,
{
}

/// Whether place `i` comes before place `j`.
fn comes_before(scores: &Vec<Number>, i: usize, j: usize) -> (r: bool)
    requires
        i < scores.len(),
        j < scores.len(),
    ensures
        r == precedes(scores@, i as int, j as int),
{
    let a: i64 = rank_of(scores[i]);
    let b: i64 = rank_of(scores[j]);
    a > b || (a == b && i < j)
}

/// Merges two runs of places, each in descending order, the first of places
/// under `mid` and the second of places from `mid` on.
fn merge_runs(scores: &Vec<Number>, left: &Vec<usize>, right: &Vec<usize>, Ghost(lo): Ghost<int>, Ghost(mid): Ghost<int>, Ghost(hi): Ghost<int>) -> (r: Vec<usize>)
    requires
        0 <= lo <= mid <= hi <= scores.len(),
        forall|p: int| 0 <= p < left.len() ==> lo <= #[trigger] left[p] < mid,
        forall|p: int| 0 <= p < right.len() ==> mid <= #[trigger] right[p] < hi,
        forall|p: int, q: int|
            0 <= p < q < left.len() ==> precedes(
                scores@,
                #[trigger] left[p] as int,
                #[trigger] left[q] as int,
            ),
        forall|p: int, q: int|
            0 <= p < q < right.len() ==> precedes(
                scores@,
                #[trigger] right[p] as int,
                #[trigger] right[q] as int,
            ),
    ensures
        r.len() == left.len() + right.len(),
        forall|p: int| 0 <= p < r.len() ==> lo <= #[trigger] r[p] < hi,
        forall|p: int, q: int|
            0 <= p < q < r.len() ==> precedes(scores@, #[trigger] r[p] as int, #[trigger] r[q] as int),
{
    let mut out: Vec<usize> = Vec::new();
    let mut i: usize = 0;
    let mut j: usize = 0;
    while i < left.len() || j < right.len()
        invariant
            i <= left.len(),
            j <= right.len(),
            out.len() == i + j,
            0 <= lo <= mid <= hi <= scores.len(),
            forall|p: int| 0 <= p < left.len() ==> lo <= #[trigger] left[p] < mid,
            forall|p: int| 0 <= p < right.len() ==> mid <= #[trigger] right[p] < hi,
            forall|p: int, q: int|
                0 <= p < q < left.len() ==> precedes(
                    scores@,
                    #[trigger] left[p] as int,
                    #[trigger] left[q] as int,
                ),
            forall|p: int, q: int|
                0 <= p < q < right.len() ==> precedes(
                    scores@,
                    #[trigger] right[p] as int,
                    #[trigger] right[q] as int,
                ),
            forall|p: int| 0 <= p < out.len() ==> lo <= #[trigger] out[p] < hi,
            forall|p: int, q: int|
                0 <= p < q < out.len() ==> precedes(
                    scores@,
                    #[trigger] out[p] as int,
                    #[trigger] out[q] as int,
                ),
            forall|p: int, q: int|
                0 <= p < out.len() && i <= q < left.len() ==> precedes(
                    scores@,
                    #[trigger] out[p] as int,
                    #[trigger] left[q] as int,
                ),
            forall|p: int, q: int|
                0 <= p < out.len() && j <= q < right.len() ==> precedes(
                    scores@,
                    #[trigger] out[p] as int,
                    #[trigger] right[q] as int,
                ),
        decreases left.len() - i + right.len() - j,
    {
        let take_left: bool = if i >= left.len() {
            false
        } else if j >= right.len() {
            true
        } else {
            comes_before(scores, left[i], right[j])
        };
        let ghost before = out@;
        if take_left {
            let chosen: usize = left[i];
            out.push(chosen);
            proof {
                assert forall|p: int, q: int| 0 <= p < out.len() && j <= q < right.len() implies precedes(
                    scores@,
                    #[trigger] out[p] as int,
                    #[trigger] right[q] as int,
                ) by {
                    if p == out.len() - 1 {
                        if q > j {
                            assert(precedes(scores@, right[j as int] as int, right[q] as int));
                        }
                    } else {
                        assert(out[p] == before[p]);
                    }
                }
                assert forall|p: int, q: int| 0 <= p < q < out.len() implies precedes(
                    scores@,
                    #[trigger] out[p] as int,
                    #[trigger] out[q] as int,
                ) by {
                    if q == out.len() - 1 {
                        assert(out[p] == before[p]);
                        assert(precedes(scores@, before[p] as int, left[i as int] as int));
                    } else {
                        assert(out[p] == before[p]);
                        assert(out[q] == before[q]);
                    }
                }
                assert forall|p: int, q: int|
                    0 <= p < out.len() && i + 1 <= q < left.len() implies precedes(
                    scores@,
                    #[trigger] out[p] as int,
                    #[trigger] left[q] as int,
                ) by {
                    if p == out.len() - 1 {
                        assert(precedes(scores@, left[i as int] as int, left[q] as int));
                    } else {
                        assert(out[p] == before[p]);
                    }
                }
            }
            i += 1;
        } else {
            let chosen: usize = right[j];
            out.push(chosen);
            proof {
                assert forall|p: int, q: int| 0 <= p < out.len() && i <= q < left.len() implies precedes(
                    scores@,
                    #[trigger] out[p] as int,
                    #[trigger] left[q] as int,
                ) by {
                    if p == out.len() - 1 {
                        lemma_precedes_total(scores@, left[i as int] as int, right[j as int] as int);
                        if q > i {
                            assert(precedes(scores@, left[i as int] as int, left[q] as int));
                        }
                    } else {
                        assert(out[p] == before[p]);
                    }
                }
                assert forall|p: int, q: int| 0 <= p < q < out.len() implies precedes(
                    scores@,
                    #[trigger] out[p] as int,
                    #[trigger] out[q] as int,
                ) by {
                    if q == out.len() - 1 {
                        assert(out[p] == before[p]);
                        assert(precedes(scores@, before[p] as int, right[j as int] as int));
                    } else {
                        assert(out[p] == before[p]);
                        assert(out[q] == before[q]);
                    }
                }
                assert forall|p: int, q: int|
                    0 <= p < out.len() && j + 1 <= q < right.len() implies precedes(
                    scores@,
                    #[trigger] out[p] as int,
                    #[trigger] right[q] as int,
                ) by {
                    if p == out.len() - 1 {
                        assert(precedes(scores@, right[j as int] as int, right[q] as int));
                    } else {
                        assert(out[p] == before[p]);
                    }
                }
            }
            j += 1;
        }
    }
    out
}

/// The places from `lo` up to `hi`, in descending order of their scores.
fn sort_places(scores: &Vec<Number>, lo: usize, hi: usize) -> (r: Vec<usize>)
    requires
        lo <= hi <= scores.len(),
    ensures
        r.len() == hi - lo,
        forall|p: int| 0 <= p < r.len() ==> lo <= #[trigger] r[p] < hi,
        forall|p: int, q: int|
            0 <= p < q < r.len() ==> precedes(scores@, #[trigger] r[p] as int, #[trigger] r[q] as int),
    decreases hi - lo,
{
    if hi - lo == 0 {
        Vec::new()
    } else if hi - lo == 1 {
        let mut out: Vec<usize> = Vec::new();
        out.push(lo);
        out
    } else {
        let mid: usize = lo + (hi - lo) / 2;
        let left = sort_places(scores, lo, mid);
        let right = sort_places(scores, mid, hi);
        merge_runs(scores, &left, &right, Ghost(lo as int), Ghost(mid as int), Ghost(hi as int))
    }
}

/// The places of a row, best first.
pub fn argsort_descending(scores: &Vec<Number>) -> (r: Vec<usize>)
    ensures
        places(r@) == descending_order(scores@),
        is_descending_order(scores@, places(r@)),
        r.len() == scores.len(),
        forall|p: int| 0 <= p < r.len() ==> #[trigger] r[p] < scores.len(),
        forall|p: int, q: int| 0 <= p < q < r.len() ==> #[trigger] r[p] != #[trigger] r[q],
{
    let order = sort_places(scores, 0, scores.len());
    proof {
        assert(is_descending_order(scores@, places(order@)));
        lemma_is_the_descending_order(scores@, places(order@));
        assert forall|p: int, q: int| 0 <= p < q < order.len() implies #[trigger] order[p]
            != #[trigger] order[q] by {
            assert(precedes(scores@, order[p] as int, order[q] as int));
        }
    }
    order
}

/// The place of the best score of a row; `None` where the row is empty.
pub fn argmax(scores: &Vec<Number>) -> (r: Option<usize>)
    ensures
        match r {
            Some(i) => is_first_maximum(scores@, i as int),
            None => scores.len() == 0,
        },
{
    if scores.len() == 0 {
        return None;
    }
    let mut best: usize = 0;
    let mut i: usize = 1;
    while i < scores.len()
        invariant
            1 <= i <= scores.len(),
            best < i,
            forall|j: int| 0 <= j < i ==> rank(#[trigger] scores[j]) <= rank(scores[best as int]),
            forall|j: int| 0 <= j < best ==> rank(#[trigger] scores[j]) < rank(scores[best as int]),
        decreases scores.len() - i,
    {
        if rank_of(scores[i]) > rank_of(scores[best]) {
            best = i;
        }
        i += 1;
    }
    Some(best)
}

/// For each row the place of its best score, as a token; `None` where a row
/// is empty.
pub fn greedy_tokens(scores: &Vec<Vec<Number>>) -> (r: Option<Vec<i64>>)
    ensures
        match r {
            Some(tokens) => tokens.len() == scores.len() && forall|i: int|
                0 <= i < scores.len() ==> is_first_maximum(scores[i]@, #[trigger] tokens[i] as int)
                    && tokens[i] == first_maximum(scores[i]@) && scores[i].len() <= i64::MAX,
            None => exists|i: int|
                0 <= i < scores.len() && ((#[trigger] scores[i]).len() == 0 || scores[i].len()
                    > i64::MAX),
        },
{
    let mut tokens: Vec<i64> = Vec::new();
    let mut i: usize = 0;
    while i < scores.len()
        invariant
            i <= scores.len(),
            tokens.len() == i,
            forall|k: int|
                0 <= k < i ==> is_first_maximum(scores[k]@, #[trigger] tokens[k] as int)
                    && tokens[k] == first_maximum(scores[k]@) && scores[k].len() <= i64::MAX,
        decreases scores.len() - i,
    {
        if scores[i].len() as u64 > i64::MAX as u64 {
            return None;
        }
        match argmax(&scores[i]) {
            Some(best) => {
                proof {
                    lemma_first_maximum_unique(scores[i as int]@, best as int);
                }
                tokens.push(best as i64);
            },
            None => {
                return None;
            },
        }
        i += 1;
    }
    Some(tokens)
}

/// Masks out of a row all scores but the `keep` best.
pub fn keep_best(scores: &Vec<Number>, keep: usize) -> (r: Vec<Number>)
    ensures
        is_top_k_filtered(scores@, keep as nat, r@),
        keep >= scores.len() ==> r@ == scores@,
{
    let mut out: Vec<Number> = Vec::new();
    let mut i: usize = 0;
    while i < scores.len()
        invariant
            i <= scores.len(),
            out@ == scores@.take(i as int),
        decreases scores.len() - i,
    {
        out.push(scores[i]);
        assert(scores@.take(i + 1) =~= scores@.take(i as int).push(scores@[i as int]));
        i += 1;
    }
    assert(scores@.take(i as int) =~= scores@);
    if keep >= scores.len() {
        return out;
    }
    let order = argsort_descending(scores);
    let mut p: usize = keep;
    while p < order.len()
        invariant
            keep <= p <= order.len(),
            order.len() == scores.len(),
            out.len() == scores.len(),
            places(order@) == descending_order(scores@),
            forall|q: int| 0 <= q < order.len() ==> #[trigger] order[q] < scores.len(),
            forall|a: int, b: int|
                0 <= a < b < order.len() ==> #[trigger] order[a] != #[trigger] order[b],
            forall|q: int|
                0 <= q < keep ==> #[trigger] out[order[q] as int] == scores[order[q] as int],
            forall|q: int| keep <= q < p ==> #[trigger] out[order[q] as int] == NEG_INFINITY,
            forall|q: int|
                p <= q < order.len() ==> #[trigger] out[order[q] as int] == scores[order[q] as int],
        decreases order.len() - p,
    {
        let place: usize = order[p];
        let ghost before = out@;
        out[place] = NEG_INFINITY;
        proof {
            assert forall|q: int| 0 <= q < order.len() && q != p implies #[trigger] out[order[q] as int]
                == before[order[q] as int] by {
                if q < p {
                    assert(order[q] != order[p as int]);
                } else {
                    assert(order[p as int] != order[q]);
                }
            }
        }
        p += 1;
    }
    proof {
        let chosen = descending_order(scores@);
        assert forall|q: int| 0 <= q < scores.len() implies #[trigger] out@[chosen[q]] == if q
            < keep {
            scores@[chosen[q]]
        } else {
            NEG_INFINITY
        } by {
            assert(chosen[q] == order[q] as int);
        }
    }
    out
}

/// Top-k filtering: in every row all scores are masked out but the `top_k`
/// best, or the `min_tokens_to_keep` best if that is more. With `top_k` zero
/// the scores stay as they are.
pub fn top_k_filtering(logits: &Vec<Vec<Number>>, top_k: u64, min_tokens_to_keep: u64) -> (r: Vec<
    Vec<Number>,
>)
    ensures
        r.len() == logits.len(),
        forall|i: int|
            0 <= i < r.len() ==> if top_k > 0 {
                is_top_k_filtered(
                    logits[i]@,
                    kept_by_top_k(top_k as nat, min_tokens_to_keep as nat, logits[i].len() as nat),
                    #[trigger] r[i]@,
                )
            } else {
                r[i]@ == logits[i]@
            },
        forall|i: int|
            0 <= i < r.len() && top_k >= logits[i].len() ==> (#[trigger] r[i])@ == logits[i]@,
{
    let mut out: Vec<Vec<Number>> = Vec::new();
    let mut i: usize = 0;
    while i < logits.len()
        invariant
            i <= logits.len(),
            out.len() == i,
            forall|k: int|
                0 <= k < i ==> if top_k > 0 {
                    is_top_k_filtered(
                        logits[k]@,
                        kept_by_top_k(
                            top_k as nat,
                            min_tokens_to_keep as nat,
                            logits[k].len() as nat,
                        ),
                        #[trigger] out[k]@,
                    )
                } else {
                    out[k]@ == logits[k]@
                },
            forall|k: int|
                0 <= k < i && top_k >= logits[k].len() ==> (#[trigger] out[k])@ == logits[k]@,
        decreases logits.len() - i,
    {
        let row = &logits[i];
        let wanted: u64 = if top_k > min_tokens_to_keep {
            top_k
        } else {
            min_tokens_to_keep
        };
        let keep: usize = if top_k == 0 {
            row.len()
        } else if wanted < row.len() as u64 {
            wanted as usize
        } else {
            row.len()
        };
        let filtered = keep_best(row, keep);
        out.push(filtered);
        i += 1;
    }
    out
}

/// Nucleus filtering of one row. `cumulative[p]` is the probability of the
/// tokens at the places `0..=p` of the row's descending order.
pub fn cut_nucleus(
    scores: &Vec<Number>,
    cumulative: &Vec<Number>,
    top_p: Number,
    min_tokens_to_keep: u64,
) -> (r: Option<Vec<Number>>)
    ensures
        match r {
            Some(filtered) => cumulative.len() == scores.len() && is_top_p_filtered(
                scores@,
                cumulative@,
                top_p,
                min_tokens_to_keep as nat,
                filtered@,
            ),
            None => cumulative.len() != scores.len(),
        },
{
    if cumulative.len() != scores.len() {
        return None;
    }
    let mut out: Vec<Number> = Vec::new();
    let mut i: usize = 0;
    while i < scores.len()
        invariant
            i <= scores.len(),
            out@ == scores@.take(i as int),
        decreases scores.len() - i,
    {
        out.push(scores[i]);
        assert(scores@.take(i + 1) =~= scores@.take(i as int).push(scores@[i as int]));
        i += 1;
    }
    assert(scores@.take(i as int) =~= scores@);
    if !lt(top_p, ONE) {
        return Some(out);
    }
    let order = argsort_descending(scores);
    let mut p: usize = 1;
    if order.len() == 0 {
        return Some(out);
    }
    while p < order.len()
        invariant
            1 <= p <= order.len(),
            order.len() == scores.len(),
            cumulative.len() == scores.len(),
            out.len() == scores.len(),
            forall|q: int| 0 <= q < order.len() ==> #[trigger] order[q] < scores.len(),
            forall|a: int, b: int|
                0 <= a < b < order.len() ==> #[trigger] order[a] != #[trigger] order[b],
            forall|q: int|
                0 <= q < p ==> #[trigger] out[order[q] as int] == if cut_by_top_p(
                    cumulative@,
                    top_p,
                    min_tokens_to_keep as nat,
                    q,
                ) {
                    NEG_INFINITY
                } else {
                    scores[order[q] as int]
                },
            forall|q: int|
                p <= q < order.len() ==> #[trigger] out[order[q] as int] == scores[order[q] as int],
        decreases order.len() - p,
    {
        let place: usize = order[p];
        let cut: bool = lt(top_p, cumulative[p - 1]) && !(min_tokens_to_keep > 1 && (p - 1) as u64
            <= min_tokens_to_keep);
        let ghost before = out@;
        if cut {
            out[place] = NEG_INFINITY;
        }
        proof {
            assert forall|q: int| 0 <= q < order.len() && q != p implies #[trigger] out[order[q] as int]
                == before[order[q] as int] by {
                if q < p {
                    assert(order[q] != order[p as int]);
                } else {
                    assert(order[p as int] != order[q]);
                }
            }
        }
        p += 1;
    }
    proof {
        let chosen = descending_order(scores@);
        assert forall|q: int| 0 <= q < scores.len() implies #[trigger] out@[chosen[q]]
            == if cut_by_top_p(cumulative@, top_p, min_tokens_to_keep as nat, q) {
            NEG_INFINITY
        } else {
            scores@[chosen[q]]
        } by {
            assert(chosen[q] == order[q] as int);
        }
    }
    Some(out)
}

/// Nucleus filtering of every row. An argument of another shape than the
/// scores is refused.
pub fn top_p_filtering(
    logits: &Vec<Vec<Number>>,
    cumulative_probabilities: &Vec<Vec<Number>>,
    top_p: Number,
    min_tokens_to_keep: u64,
) -> (r: Result<Vec<Vec<Number>>, GenerationError>)
    ensures
        match r {
            Ok(filtered) => filtered.len() == logits.len() && cumulative_probabilities.len()
                == logits.len() && (forall|i: int|
                0 <= i < logits.len() ==> (#[trigger] cumulative_probabilities[i]).len()
                    == logits[i].len()) && forall|i: int|
                0 <= i < logits.len() ==> is_top_p_filtered(
                    logits[i]@,
                    cumulative_probabilities[i]@,
                    top_p,
                    min_tokens_to_keep as nat,
                    #[trigger] filtered[i]@,
                ),
            Err(e) => e == GenerationError::ShapeMismatch && (cumulative_probabilities.len()
                != logits.len() || exists|i: int|
                0 <= i < logits.len() && (#[trigger] cumulative_probabilities[i]).len()
                    != logits[i].len()),
        },
{
    if cumulative_probabilities.len() != logits.len() {
        return Err(GenerationError::ShapeMismatch);
    }
    let mut out: Vec<Vec<Number>> = Vec::new();
    let mut i: usize = 0;
    while i < logits.len()
        invariant
            i <= logits.len(),
            cumulative_probabilities.len() == logits.len(),
            out.len() == i,
            forall|k: int|
                0 <= k < i ==> (#[trigger] cumulative_probabilities[k]).len() == logits[k].len(),
            forall|k: int|
                0 <= k < i ==> is_top_p_filtered(
                    logits[k]@,
                    cumulative_probabilities[k]@,
                    top_p,
                    min_tokens_to_keep as nat,
                    #[trigger] out[k]@,
                ),
        decreases logits.len() - i,
    {
        match cut_nucleus(&logits[i], &cumulative_probabilities[i], top_p, min_tokens_to_keep) {
            Some(filtered) => {
                out.push(filtered);
            },
            None => {
                return Err(GenerationError::ShapeMismatch);
            },
        }
        i += 1;
    }
    Ok(out)
}

} // verus!
