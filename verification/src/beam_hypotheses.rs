//! The finished hypotheses of one input item during beam search: a bounded
//! set that keeps the best `num_beams` sequences seen so far.

use crate::number::{at_most, le, less, lt, rank, rank_of, Number, INFINITY};
use vstd::prelude::*;

verus! {

/// A finished sequence and the score it is ranked by: its cumulative
/// log-probability divided by its length raised to the length penalty.
pub struct Hypothesis {
    pub score: Number,
    pub tokens: Vec<i64>,
}

/// What a hypothesis is in contracts: its score and its tokens.
pub type ScoredTokens = (Number, Seq<i64>);

impl View for Hypothesis {
    type V = ScoredTokens;

    open spec fn view(&self) -> ScoredTokens {
        (self.score, self.tokens@)
    }
}

/// The hypotheses of a vector, each by its view.
pub open spec fn hypothesis_views(beams: Seq<Hypothesis>) -> Seq<ScoredTokens> {
    Seq::new(beams.len(), |i: int| beams[i]@)
}

/// `i` is the place of the worst entry: no entry ranks lower, and every entry
/// before it ranks strictly higher.
pub open spec fn is_worst(beams: Seq<ScoredTokens>, i: int) -> bool {
    &&& 0 <= i < beams.len()
    &&& forall|j: int| 0 <= j < beams.len() ==> rank(beams[i].0) <= rank(#[trigger] beams[j].0)
    &&& forall|j: int| 0 <= j < i ==> rank(beams[i].0) < rank(#[trigger] beams[j].0)
}

/// The place of the worst entry: the first among those of least rank.
pub open spec fn worst_index(beams: Seq<ScoredTokens>) -> int
    decreases beams.len(),
{
    if beams.len() <= 1 {
        0
    } else {
        let before = worst_index(beams.drop_last());
        if rank(beams.last().0) < rank(beams[before].0) {
            beams.len() - 1
        } else {
            before
        }
    }
}

/// `i` is the place of the best entry: no entry ranks higher, and every entry
/// after it ranks strictly lower.
pub open spec fn is_best(beams: Seq<ScoredTokens>, i: int) -> bool {
    &&& 0 <= i < beams.len()
    &&& forall|j: int| 0 <= j < beams.len() ==> rank(#[trigger] beams[j].0) <= rank(beams[i].0)
    &&& forall|j: int| i < j < beams.len() ==> rank(#[trigger] beams[j].0) < rank(beams[i].0)
}

/// The place of the best entry: the last among those of greatest rank.
pub open spec fn best_index(beams: Seq<ScoredTokens>) -> int
    decreases beams.len(),
{
    if beams.len() <= 1 {
        0
    } else {
        let before = best_index(beams.drop_last());
        if rank(beams.last().0) >= rank(beams[before].0) {
            beams.len() - 1
        } else {
            before
        }
    }
}

/// The `count` best token sequences, best first. Among entries of equal rank
/// the one stored last comes first. Fewer where the set holds fewer.
pub open spec fn best_tokens(beams: Seq<ScoredTokens>, count: nat) -> Seq<Seq<i64>>
    decreases count,
{
    if count == 0 || beams.len() == 0 {
        Seq::empty()
    } else {
        let i = best_index(beams);
        seq![beams[i].1] + best_tokens(beams.remove(i), (count - 1) as nat)
    }
}

/// `worst_index` names the worst entry of a set that is not empty.
pub proof fn lemma_worst_index(beams: Seq<ScoredTokens>)
    requires
        beams.len() > 0,
    ensures
        is_worst(beams, worst_index(beams)),
    decreases beams.len(),
{
    if beams.len() > 1 {
        let front = beams.drop_last();
        lemma_worst_index(front);
        let before = worst_index(front);
        let i = worst_index(beams);
        assert forall|j: int| 0 <= j < beams.len() implies rank(beams[i].0) <= rank(
            #[trigger] beams[j].0,
        ) by {
            if j < front.len() {
                assert(front[j] == beams[j]);
            }
        }
        assert forall|j: int| 0 <= j < i implies rank(beams[i].0) < rank(#[trigger] beams[j].0) by {
            assert(front[j] == beams[j]);
        }
    }
}

/// `best_index` names the best entry of a set that is not empty.
pub proof fn lemma_best_index(beams: Seq<ScoredTokens>)
    requires
        beams.len() > 0,
    ensures
        is_best(beams, best_index(beams)),
    decreases beams.len(),
{
    if beams.len() > 1 {
        let front = beams.drop_last();
        lemma_best_index(front);
        let before = best_index(front);
        let i = best_index(beams);
        assert forall|j: int| 0 <= j < beams.len() implies rank(#[trigger] beams[j].0) <= rank(
            beams[i].0,
        ) by {
            if j < front.len() {
                assert(front[j] == beams[j]);
            }
        }
        assert forall|j: int| i < j < beams.len() implies rank(#[trigger] beams[j].0) < rank(
            beams[i].0,
        ) by {
            if j < front.len() {
                assert(front[j] == beams[j]);
            }
        }
    }
}

/// At most one place is the worst.
pub proof fn lemma_worst_unique(beams: Seq<ScoredTokens>, i: int, j: int)
    requires
        is_worst(beams, i),
        is_worst(beams, j),
    ensures
        i == j,
{
    if i < j {
        assert(rank(beams[j].0) < rank(beams[i].0));
        assert(rank(beams[i].0) <= rank(beams[j].0));
    } else if j < i {
        assert(rank(beams[i].0) < rank(beams[j].0));
        assert(rank(beams[j].0) <= rank(beams[i].0));
    }
}

/// The bounded set of finished hypotheses of one input item.
pub struct BeamHypotheses {
    max_length: u64,
    length_penalty: Number,
    early_stopping: bool,
    num_beams: usize,
    beams: Vec<Hypothesis>,
    worst_score: Number,
}

/// What a `BeamHypotheses` is in contracts.
pub struct BeamHypothesesView {
    /// The last position a hypothesis may hold.
    pub max_length: nat,
    /// The exponent on the length by which scores were normalised.
    pub length_penalty: Number,
    /// Whether the item is done as soon as the set is full.
    pub early_stopping: bool,
    /// The capacity.
    pub num_beams: nat,
    /// The retained hypotheses, in the order they were stored.
    pub beams: Seq<ScoredTokens>,
    /// The least score retained; positive infinity while there is none.
    pub worst_score: Number,
}

impl BeamHypothesesView {
    /// The set holds no more than its capacity, and `worst_score` is the score
    /// of its worst entry.
    pub open spec fn wf(self) -> bool {
        &&& self.beams.len() <= self.num_beams
        &&& self.beams.len() == 0 ==> self.worst_score == INFINITY
        &&& self.beams.len() > 0 ==> self.worst_score == self.beams[worst_index(self.beams)].0
    }

    /// Whether a hypothesis of this score is taken in: there is room, or it
    /// beats the worst one retained.
    pub open spec fn admits(self, score: Number) -> bool {
        self.beams.len() < self.num_beams || less(self.worst_score, score)
    }

    /// The set after `tokens` was offered with `score`. An admitted hypothesis
    /// is stored last; where that exceeds the capacity, the worst entry leaves.
    pub open spec fn add(self, tokens: Seq<i64>, score: Number) -> Self {
        if self.admits(score) {
            let pushed = self.beams.push((score, tokens));
            let kept = if pushed.len() > self.num_beams {
                pushed.remove(worst_index(pushed))
            } else {
                pushed
            };
            BeamHypothesesView { beams: kept, worst_score: kept[worst_index(kept)].0, ..self }
        } else {
            self
        }
    }

    /// Whether the item needs no further step: the set is full, and either it
    /// stops early or the best score still running, normalised, cannot beat
    /// the worst one retained.
    pub open spec fn is_done(self, best_running_score: Number) -> bool {
        self.beams.len() >= self.num_beams && (self.early_stopping || at_most(
            best_running_score,
            self.worst_score,
        ))
    }
}

impl View for BeamHypotheses {
    type V = BeamHypothesesView;

    closed spec fn view(&self) -> BeamHypothesesView {
        BeamHypothesesView {
            max_length: self.max_length as nat,
            length_penalty: self.length_penalty,
            early_stopping: self.early_stopping,
            num_beams: self.num_beams as nat,
            beams: hypothesis_views(self.beams@),
            worst_score: self.worst_score,
        }
    }
}

impl Clone for BeamHypotheses {
    /// A set with the same limits and copies of the same hypotheses.
    fn clone(&self) -> (r: Self)
        ensures
            r@ == self@,
    {
        let mut beams: Vec<Hypothesis> = Vec::new();
        let mut i: usize = 0;
        while i < self.beams.len()
            invariant
                i <= self.beams.len(),
                beams.len() == i,
                forall|k: int| 0 <= k < i ==> (#[trigger] beams[k])@ == self.beams[k]@,
            decreases self.beams.len() - i,
        {
            beams.push(
                Hypothesis { score: self.beams[i].score, tokens: self.beams[i].tokens.clone() },
            );
            i += 1;
        }
        assert(hypothesis_views(beams@) =~= hypothesis_views(self.beams@));
        BeamHypotheses {
            max_length: self.max_length,
            length_penalty: self.length_penalty,
            early_stopping: self.early_stopping,
            num_beams: self.num_beams,
            beams,
            worst_score: self.worst_score,
        }
    }
}

/// The place of the worst hypothesis of a vector that is not empty.
fn worst_position(beams: &Vec<Hypothesis>) -> (r: usize)
    requires
        beams.len() > 0,
    ensures
        r == worst_index(hypothesis_views(beams@)),
        r < beams.len(),
{
    let ghost views = hypothesis_views(beams@);
    let mut position: usize = 0;
    let mut i: usize = 1;
    assert(views.take(1).len() == 1);
    while i < beams.len()
        invariant
            1 <= i <= beams.len(),
            views == hypothesis_views(beams@),
            position == worst_index(views.take(i as int)),
            position < i,
        decreases beams.len() - i,
    {
        proof {
            let next = views.take(i + 1);
            assert(next.drop_last() =~= views.take(i as int));
            assert(next.last() == views[i as int]);
            assert(next[position as int] == views[position as int]);
        }
        if rank_of(beams[i].score) < rank_of(beams[position].score) {
            position = i;
        }
        i += 1;
    }
    assert(views.take(i as int) =~= views);
    position
}

/// The place of the best hypothesis of a vector that is not empty.
fn best_position(beams: &Vec<Hypothesis>) -> (r: usize)
    requires
        beams.len() > 0,
    ensures
        r == best_index(hypothesis_views(beams@)),
        r < beams.len(),
{
    let ghost views = hypothesis_views(beams@);
    let mut position: usize = 0;
    let mut i: usize = 1;
    assert(views.take(1).len() == 1);
    while i < beams.len()
        invariant
            1 <= i <= beams.len(),
            views == hypothesis_views(beams@),
            position == best_index(views.take(i as int)),
            position < i,
        decreases beams.len() - i,
    {
        proof {
            let next = views.take(i + 1);
            assert(next.drop_last() =~= views.take(i as int));
            assert(next.last() == views[i as int]);
            assert(next[position as int] == views[position as int]);
        }
        if rank_of(beams[i].score) >= rank_of(beams[position].score) {
            position = i;
        }
        i += 1;
    }
    assert(views.take(i as int) =~= views);
    position
}

impl BeamHypotheses {
    /// An empty set of capacity `num_beams`. The last position a hypothesis
    /// may hold is one before `max_length`.
    pub fn new(num_beams: usize, max_length: u64, length_penalty: Number, early_stopping: bool) -> (r:
        Self)
        ensures
            r@ == (BeamHypothesesView {
                max_length: if max_length > 0 {
                    (max_length - 1) as nat
                } else {
                    0
                },
                length_penalty,
                early_stopping,
                num_beams: num_beams as nat,
                beams: Seq::empty(),
                worst_score: INFINITY,
            }),
            r@.wf(),
    {
        let r = BeamHypotheses {
            max_length: if max_length > 0 {
                max_length - 1
            } else {
                0
            },
            length_penalty,
            early_stopping,
            num_beams,
            beams: Vec::new(),
            worst_score: INFINITY,
        };
        assert(r@.beams =~= Seq::empty());
        r
    }

    /// The number of hypotheses retained.
    pub fn len(&self) -> (r: usize)
        ensures
            r == self@.beams.len(),
    {
        self.beams.len()
    }

    /// The exponent on the length by which the scores offered to this set are
    /// normalised.
    pub fn length_penalty(&self) -> (r: Number)
        ensures
            r == self@.length_penalty,
    {
        self.length_penalty
    }

    /// The least score retained; positive infinity while there is none.
    pub fn worst_score(&self) -> (r: Number)
        ensures
            r == self@.worst_score,
    {
        self.worst_score
    }

    /// Offers a finished sequence with its normalised score.
    pub fn add(&mut self, hypothesis: Vec<i64>, score: Number)
        requires
            old(self)@.wf(),
        ensures
            final(self)@ == old(self)@.add(hypothesis@, score),
            final(self)@.wf(),
    {
        if self.beams.len() < self.num_beams || lt(self.worst_score, score) {
            let ghost before = hypothesis_views(self.beams@);
            self.beams.push(Hypothesis { score, tokens: hypothesis });
            let ghost pushed = hypothesis_views(self.beams@);
            assert(pushed =~= before.push((score, hypothesis@)));
            if self.beams.len() > self.num_beams {
                let position = worst_position(&self.beams);
                let _ = self.beams.remove(position);
                assert(hypothesis_views(self.beams@) =~= pushed.remove(position as int));
            }
            let position = worst_position(&self.beams);
            self.worst_score = self.beams[position].score;
        }
    }

    /// Whether the item needs no further step, given the best score still
    /// running, normalised as the stored ones are.
    pub fn is_done(&self, best_running_score: Number) -> (r: bool)
        ensures
            r == self@.is_done(best_running_score),
    {
        if self.beams.len() < self.num_beams {
            false
        } else if self.early_stopping {
            true
        } else {
            le(best_running_score, self.worst_score)
        }
    }

    /// The `count` best token sequences, best first.
    pub fn best(&self, count: usize) -> (r: Vec<Vec<i64>>)
        ensures
            r.len() == if count <= self@.beams.len() {
                count as nat
            } else {
                self@.beams.len()
            },
            forall|k: int|
                0 <= k < r.len() ==> (#[trigger] r[k])@ == best_tokens(self@.beams, count as nat)[k],
            best_tokens(self@.beams, count as nat).len() == r.len(),
    {
        let copy = self.clone();
        let mut left: Vec<Hypothesis> = copy.beams;
        assert(hypothesis_views(left@) =~= self@.beams);
        let mut out: Vec<Vec<i64>> = Vec::new();
        let mut taken: usize = 0;
        while taken < count && left.len() > 0
            invariant
                taken <= count,
                out.len() == taken,
                taken + left.len() == self@.beams.len(),
                forall|k: int|
                    0 <= k < taken ==> (#[trigger] out[k])@ == best_tokens(
                        self@.beams,
                        count as nat,
                    )[k],
                best_tokens(self@.beams, count as nat) =~= Seq::new(
                    taken as nat,
                    |k: int| best_tokens(self@.beams, count as nat)[k],
                ) + best_tokens(hypothesis_views(left@), (count - taken) as nat),
            decreases left.len(),
        {
            let ghost before = hypothesis_views(left@);
            let position = best_position(&left);
            let chosen = left.remove(position);
            assert(hypothesis_views(left@) =~= before.remove(position as int));
            out.push(chosen.tokens);
            taken += 1;
        }
        out
    }
}

/// The set never holds more than its capacity, and its worst score is that of
/// its worst entry: both survive every `add`.
pub proof fn lemma_add_preserves_wf(set: BeamHypothesesView, tokens: Seq<i64>, score: Number)
    requires
        set.wf(),
    ensures
        set.add(tokens, score).wf(),
        set.add(tokens, score).beams.len() <= set.num_beams,
        set.add(tokens, score).num_beams == set.num_beams,
        set.beams.len() < set.num_beams ==> set.add(tokens, score).beams.len() == set.beams.len() + 1,
        set.beams.len() == set.num_beams ==> set.add(tokens, score).beams.len() == set.num_beams,
        set.add(tokens, score).beams.len() > 0 ==> is_worst(
            set.add(tokens, score).beams,
            worst_index(set.add(tokens, score).beams),
        ) && set.add(tokens, score).worst_score == set.add(tokens, score).beams[worst_index(
            set.add(tokens, score).beams,
        )].0,
{
    let after = set.add(tokens, score);
    if set.admits(score) {
        let pushed = set.beams.push((score, tokens));
        lemma_worst_index(pushed);
    }
    if after.beams.len() > 0 {
        lemma_worst_index(after.beams);
    }
}

/// Offering a hypothesis brings no sequence into the set but the one offered.
pub proof fn lemma_add_keeps_lengths(
    set: BeamHypothesesView,
    tokens: Seq<i64>,
    score: Number,
    bound: nat,
)
    requires
        set.wf(),
        tokens.len() <= bound,
        forall|k: int| 0 <= k < set.beams.len() ==> (#[trigger] set.beams[k]).1.len() <= bound,
    ensures
        forall|k: int|
            0 <= k < set.add(tokens, score).beams.len() ==> (#[trigger] set.add(
                tokens,
                score,
            ).beams[k]).1.len() <= bound,
{
    if set.admits(score) {
        let pushed = set.beams.push((score, tokens));
        lemma_worst_index(pushed);
        assert forall|k: int| 0 <= k < pushed.len() implies (#[trigger] pushed[k]).1.len()
            <= bound by {
            if k < set.beams.len() {
                assert(pushed[k] == set.beams[k]);
            }
        }
    }
}

/// What holds of every sequence of the set and of the one offered holds of
/// every sequence of the set after the offer.
pub proof fn lemma_add_keeps(
    set: BeamHypothesesView,
    tokens: Seq<i64>,
    score: Number,
    holds: spec_fn(Seq<i64>) -> bool,
)
    requires
        set.wf(),
        holds(tokens),
        forall|k: int| 0 <= k < set.beams.len() ==> holds((#[trigger] set.beams[k]).1),
    ensures
        forall|k: int|
            0 <= k < set.add(tokens, score).beams.len() ==> holds(
                (#[trigger] set.add(tokens, score).beams[k]).1,
            ),
{
    if set.admits(score) {
        let pushed = set.beams.push((score, tokens));
        lemma_worst_index(pushed);
        assert forall|k: int| 0 <= k < pushed.len() implies holds((#[trigger] pushed[k]).1) by {
            if k < set.beams.len() {
                assert(pushed[k] == set.beams[k]);
            }
        }
    }
}

/// The best sequences are as many as were asked for, or as the set holds if
/// that is less, and each of them is a sequence of the set.
pub proof fn lemma_best_tokens(beams: Seq<ScoredTokens>, count: nat)
    ensures
        best_tokens(beams, count).len() == if count <= beams.len() {
            count
        } else {
            beams.len()
        },
        forall|k: int|
            0 <= k < best_tokens(beams, count).len() ==> exists|j: int|
                0 <= j < beams.len() && (#[trigger] beams[j]).1 == #[trigger] best_tokens(
                    beams,
                    count,
                )[k],
    decreases count,
{
    if count > 0 && beams.len() > 0 {
        lemma_best_index(beams);
        let i = best_index(beams);
        let rest = beams.remove(i);
        lemma_best_tokens(rest, (count - 1) as nat);
        let all = best_tokens(beams, count);
        assert forall|k: int| 0 <= k < all.len() implies exists|j: int|
            0 <= j < beams.len() && (#[trigger] beams[j]).1 == #[trigger] all[k] by {
            if k == 0 {
                assert(beams[i].1 == all[0]);
            } else {
                let tail = best_tokens(rest, (count - 1) as nat);
                assert(all[k] == tail[k - 1]);
                let j = choose|j: int| 0 <= j < rest.len() && (#[trigger] rest[j]).1 == tail[k - 1];
                if j < i {
                    assert(beams[j] == rest[j]);
                } else {
                    assert(beams[j + 1] == rest[j]);
                }
            }
        }
    }
}

} // verus!
