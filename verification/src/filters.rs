//! The filters that both decoders apply to the scores of one step: tokens
//! that would repeat an n-gram are banned, and banned tokens are masked out.
//! A filter keeps nothing between calls: what it returns depends on its
//! arguments alone, and what it does to a row depends on that row alone.

use crate::matrix::token_list;
use crate::number::{Number, NEG_INFINITY};
use vstd::prelude::*;

verus! {

/// The `n - 1` tokens that start at place `j` of the history are its last
/// `n - 1` tokens.
pub open spec fn window_matches(history: Seq<i64>, n: int, j: int) -> bool {
    history.subrange(j, j + n - 1) == history.subrange(history.len() - n + 1, history.len() as int)
}

/// The tokens that followed the last `n - 1` tokens of the history where they
/// occurred at a place before `upto`, in the order of those places.
pub open spec fn banned_before(history: Seq<i64>, n: int, upto: int) -> Seq<i64>
    decreases upto,
{
    if upto <= 0 {
        Seq::empty()
    } else {
        let j = upto - 1;
        let before = banned_before(history, n, j);
        if window_matches(history, n, j) {
            before.push(history[j + n - 1])
        } else {
            before
        }
    }
}

/// The tokens that may not follow the history, lest an n-gram of `n` tokens
/// occur twice: every token that followed an earlier occurrence of the last
/// `n - 1` tokens. None where `n` is zero, and none where the history with
/// one more token is shorter than `n`.
pub open spec fn banned_tokens(history: Seq<i64>, n: nat) -> Seq<i64> {
    if n == 0 || history.len() + 1 < n {
        Seq::empty()
    } else {
        banned_before(history, n as int, history.len() - n + 1)
    }
}

/// Whether `t` is one of `tokens`.
pub open spec fn names(tokens: Seq<i64>, t: int) -> bool {
    exists|k: int| 0 <= k < tokens.len() && #[trigger] tokens[k] == t
}

/// The row with every token of `tokens` masked out: its score is negative
/// infinity. A token that the row has no place for is passed over.
pub open spec fn masked(row: Seq<Number>, tokens: Seq<i64>) -> Seq<Number> {
    Seq::new(
        row.len(),
        |t: int|
            if names(tokens, t) {
                NEG_INFINITY
            } else {
                row[t]
            },
    )
}

/// The scores of one row as a decoder lets them through: masked out are the
/// tokens that would repeat an n-gram of `n` tokens in the row's history and,
/// while sequences may not end, the end-of-sequence tokens.
pub open spec fn filtered_row(
    scores: Seq<Number>,
    history: Seq<i64>,
    n: nat,
    eos_token_ids: Option<Seq<i64>>,
    may_not_end: bool,
) -> Seq<Number> {
    let allowed = masked(scores, banned_tokens(history, n));
    match eos_token_ids {
        Some(ids) => if may_not_end {
            masked(allowed, ids)
        } else {
            allowed
        },
        None => allowed,
    }
}

/// A token is banned exactly if it followed an occurrence of the last `n - 1`
/// tokens at some place of the history.
pub proof fn lemma_banned_before_contains(history: Seq<i64>, n: int, upto: int, token: i64)
    requires
        n >= 1,
        0 <= upto <= history.len() - n + 1,
    ensures
        banned_before(history, n, upto).contains(token) <==> exists|j: int|
            0 <= j < upto && window_matches(history, n, j) && #[trigger] history[j + n - 1]
                == token,
    decreases upto,
{
    if upto > 0 {
        let j = upto - 1;
        let before = banned_before(history, n, j);
        lemma_banned_before_contains(history, n, j, token);
        if window_matches(history, n, j) {
            let now = before.push(history[j + n - 1]);
            if now.contains(token) {
                let i = choose|i: int| 0 <= i < now.len() && now[i] == token;
                if i < before.len() {
                    assert(before[i] == token);
                    assert(before.contains(token));
                } else {
                    assert(history[j + n - 1] == token);
                }
            }
            if exists|k: int|
                0 <= k < upto && window_matches(history, n, k) && #[trigger] history[k + n - 1]
                    == token {
                let k = choose|k: int|
                    0 <= k < upto && window_matches(history, n, k) && #[trigger] history[k + n
                        - 1] == token;
                if k == j {
                    assert(now[before.len() as int] == token);
                } else {
                    assert(before.contains(token));
                    let i = choose|i: int| 0 <= i < before.len() && before[i] == token;
                    assert(now[i] == token);
                }
            }
        }
    }
}

/// With n-grams of size zero nothing is banned, and masking out nothing
/// leaves a row as it is: the filter lets the scores through unchanged, as
/// long as sequences may end.
pub proof fn lemma_no_bans_no_change(
    history: Seq<i64>,
    row: Seq<Number>,
    eos_token_ids: Option<Seq<i64>>,
)
    ensures
        banned_tokens(history, 0) == Seq::<i64>::empty(),
        masked(row, banned_tokens(history, 0)) == row,
        filtered_row(row, history, 0, eos_token_ids, false) == row,
{
    assert(masked(row, Seq::<i64>::empty()) =~= row);
}

/// Whether the `n - 1` tokens from place `j` are the last `n - 1` tokens.
fn window_matches_at(history: &Vec<i64>, n: usize, j: usize) -> (r: bool)
    requires
        1 <= n <= history.len(),
        j <= history.len() - n,
    ensures
        r == window_matches(history@, n as int, j as int),
{
    let start: usize = history.len() - n + 1;
    let mut k: usize = 0;
    while k < n - 1
        invariant
            k <= n - 1,
            1 <= n <= history.len(),
            j <= history.len() - n,
            start == history.len() - n + 1,
            forall|i: int|
                0 <= i < k ==> #[trigger] history@.subrange(j as int, j + n - 1)[i]
                    == history@.subrange(start as int, history.len() as int)[i],
        decreases n - 1 - k,
    {
        if history[j + k] != history[start + k] {
            assert(history@.subrange(j as int, j + n - 1)[k as int] != history@.subrange(
                start as int,
                history.len() as int,
            )[k as int]);
            return false;
        }
        k += 1;
    }
    assert(history@.subrange(j as int, j + n - 1) =~= history@.subrange(
        start as int,
        history.len() as int,
    ));
    true
}

/// The tokens that may not follow one history.
pub fn banned_tokens_of(history: &Vec<i64>, no_repeat_ngram_size: u64) -> (r: Vec<i64>)
    ensures
        r@ == banned_tokens(history@, no_repeat_ngram_size as nat),
{
    let mut banned: Vec<i64> = Vec::new();
    if no_repeat_ngram_size == 0 || (history.len() as u64) < no_repeat_ngram_size {
        assert(banned_before(history@, no_repeat_ngram_size as int, 0) == Seq::<i64>::empty());
        return banned;
    }
    let n: usize = no_repeat_ngram_size as usize;
    let windows: usize = history.len() - n + 1;
    let mut j: usize = 0;
    while j < windows
        invariant
            j <= windows,
            1 <= n <= history.len(),
            windows == history.len() - n + 1,
            banned@ == banned_before(history@, n as int, j as int),
        decreases windows - j,
    {
        if window_matches_at(history, n, j) {
            banned.push(history[j + n - 1]);
        }
        j += 1;
    }
    banned
}

/// For each row of `input_ids`, the tokens that may not follow it.
pub fn get_banned_tokens(input_ids: &Vec<Vec<i64>>, no_repeat_ngram_size: u64) -> (r: Vec<Vec<i64>>)
    ensures
        r.len() == input_ids.len(),
        forall|i: int|
            0 <= i < r.len() ==> (#[trigger] r[i])@ == banned_tokens(
                input_ids[i]@,
                no_repeat_ngram_size as nat,
            ),
{
    let mut out: Vec<Vec<i64>> = Vec::new();
    let mut i: usize = 0;
    while i < input_ids.len()
        invariant
            i <= input_ids.len(),
            out.len() == i,
            forall|k: int|
                0 <= k < i ==> (#[trigger] out[k])@ == banned_tokens(
                    input_ids[k]@,
                    no_repeat_ngram_size as nat,
                ),
        decreases input_ids.len() - i,
    {
        out.push(banned_tokens_of(&input_ids[i], no_repeat_ngram_size));
        i += 1;
    }
    out
}

/// Masks the tokens of `tokens` out of a row.
pub fn mask_row(row: &mut Vec<Number>, tokens: &Vec<i64>)
    ensures
        final(row)@ == masked(old(row)@, tokens@),
{
    let ghost start = row@;
    let mut k: usize = 0;
    while k < tokens.len()
        invariant
            k <= tokens.len(),
            row.len() == start.len(),
            row@ == masked(start, tokens@.take(k as int)),
        decreases tokens.len() - k,
    {
        let token: i64 = tokens[k];
        let ghost before = row@;
        if token >= 0 && (token as u64) < row.len() as u64 {
            row[token as usize] = NEG_INFINITY;
        }
        proof {
            let seen = tokens@.take(k as int);
            let now = tokens@.take(k + 1);
            assert(now =~= seen.push(token));
            assert forall|t: int| 0 <= t < row.len() implies row@[t] == masked(start, now)[t] by {
                if names(now, t) {
                    let i = choose|i: int| 0 <= i < now.len() && #[trigger] now[i] == t;
                    if i < seen.len() {
                        assert(seen[i] == t);
                    }
                } else {
                    if names(seen, t) {
                        let i = choose|i: int| 0 <= i < seen.len() && #[trigger] seen[i] == t;
                        assert(now[i] == t);
                    }
                    assert(now[k as int] == token);
                }
            }
            assert(row@ =~= masked(start, now));
        }
        k += 1;
    }
    assert(tokens@.take(k as int) =~= tokens@);
}

/// Masks out of row `i` the tokens of `banned[i]`. A row for which `banned`
/// has no entry stays as it is.
pub fn ban_tokens(scores: Vec<Vec<Number>>, banned: &Vec<Vec<i64>>) -> (r: Vec<Vec<Number>>)
    ensures
        r.len() == scores.len(),
        forall|i: int|
            0 <= i < r.len() ==> (#[trigger] r[i])@ == if i < banned.len() {
                masked(scores[i]@, banned[i]@)
            } else {
                scores[i]@
            },
{
    let mut out = scores;
    let mut i: usize = 0;
    while i < out.len() && i < banned.len()
        invariant
            i <= out.len(),
            i <= banned.len(),
            out.len() == scores.len(),
            forall|k: int| 0 <= k < i ==> (#[trigger] out[k])@ == masked(scores[k]@, banned[k]@),
            forall|k: int| i <= k < out.len() ==> #[trigger] out[k] == scores[k],
        decreases out.len() - i,
    {
        mask_row(&mut out[i], &banned[i]);
        i += 1;
    }
    out
}

/// Masks the tokens of `tokens` out of every row.
pub fn mask_tokens(scores: Vec<Vec<Number>>, tokens: &Vec<i64>) -> (r: Vec<Vec<Number>>)
    ensures
        r.len() == scores.len(),
        forall|i: int| 0 <= i < r.len() ==> (#[trigger] r[i])@ == masked(scores[i]@, tokens@),
{
    let mut out = scores;
    let mut i: usize = 0;
    while i < out.len()
        invariant
            i <= out.len(),
            out.len() == scores.len(),
            forall|k: int| 0 <= k < i ==> (#[trigger] out[k])@ == masked(scores[k]@, tokens@),
            forall|k: int| i <= k < out.len() ==> #[trigger] out[k] == scores[k],
        decreases out.len() - i,
    {
        mask_row(&mut out[i], tokens);
        i += 1;
    }
    out
}

/// Filters the scores of one step, row by row, as `filtered_row` says. A row
/// of scores for which there is no history is filtered as a row with an
/// empty one: only the end-of-sequence tokens are masked out of it.
pub fn filter_scores(
    scores: Vec<Vec<Number>>,
    input_ids: &Vec<Vec<i64>>,
    no_repeat_ngram_size: u64,
    eos_token_ids: &Option<Vec<i64>>,
    may_not_end: bool,
) -> (r: Vec<Vec<Number>>)
    ensures
        r.len() == scores.len(),
        forall|i: int|
            0 <= i < r.len() ==> (#[trigger] r[i])@ == filtered_row(
                scores[i]@,
                if i < input_ids.len() {
                    input_ids[i]@
                } else {
                    Seq::empty()
                },
                no_repeat_ngram_size as nat,
                token_list(*eos_token_ids),
                may_not_end,
            ),
{
    let banned = get_banned_tokens(input_ids, no_repeat_ngram_size);
    let allowed = ban_tokens(scores, &banned);
    proof {
        assert forall|i: int| input_ids.len() <= i < scores.len() implies masked(
            #[trigger] scores[i]@,
            banned_tokens(Seq::empty(), no_repeat_ngram_size as nat),
        ) == scores[i]@ by {
            assert(banned_before(Seq::<i64>::empty(), no_repeat_ngram_size as int, 0)
                == Seq::<i64>::empty());
            assert(masked(scores[i]@, Seq::<i64>::empty()) =~= scores[i]@);
        }
    }
    match eos_token_ids {
        Some(ids) => {
            if may_not_end {
                mask_tokens(allowed, ids)
            } else {
                allowed
            }
        },
        None => allowed,
    }
}

} // verus!
