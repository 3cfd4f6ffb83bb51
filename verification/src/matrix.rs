//! Batches of token ids and of scores: vectors of rows, read in contracts as
//! sequences of sequences.

use vstd::prelude::*;

verus! {

/// The rows of a batch, each by its contents.
pub open spec fn rows(m: Seq<Vec<i64>>) -> Seq<Seq<i64>> {
    Seq::new(m.len(), |i: int| m[i]@)
}

/// Every row has `width` entries.
pub open spec fn has_width(m: Seq<Seq<i64>>, width: nat) -> bool {
    forall|i: int| 0 <= i < m.len() ==> (#[trigger] m[i]).len() == width
}

/// The batch whose row `k` is row `indices[k]` of `m`.
pub open spec fn selected(m: Seq<Seq<i64>>, indices: Seq<usize>) -> Seq<Seq<i64>> {
    Seq::new(indices.len(), |k: int| m[indices[k] as int])
}

/// The batch with `column[i]` added at the end of row `i`.
pub open spec fn with_column(m: Seq<Seq<i64>>, column: Seq<i64>) -> Seq<Seq<i64>> {
    Seq::new(m.len(), |i: int| m[i].push(column[i]))
}

/// The batch with `value` added at the end of every row.
pub open spec fn with_constant_column(m: Seq<Seq<i64>>, value: i64) -> Seq<Seq<i64>> {
    Seq::new(m.len(), |i: int| m[i].push(value))
}

/// The batch in which every row of `m` stands `times` times in a row.
pub open spec fn expanded(m: Seq<Seq<i64>>, times: nat) -> Seq<Seq<i64>> {
    Seq::new(m.len() * times, |r: int| m[r / (times as int)])
}

/// The number of entries of the longest sequence.
pub open spec fn longest(s: Seq<Seq<i64>>) -> nat
    decreases s.len(),
{
    if s.len() == 0 {
        0
    } else {
        let before = longest(s.drop_last());
        if s.last().len() > before {
            s.last().len()
        } else {
            before
        }
    }
}

/// All sequences have as many entries as the first.
pub open spec fn same_length(s: Seq<Seq<i64>>) -> bool {
    forall|i: int| 0 <= i < s.len() ==> (#[trigger] s[i]).len() == s[0].len()
}

/// The tokens of an optional list, as a sequence.
pub open spec fn token_list(ids: Option<Vec<i64>>) -> Option<Seq<i64>> {
    match ids {
        Some(v) => Some(v@),
        None => None,
    }
}

/// A copy of a row.
pub fn copy_row(row: &Vec<i64>) -> (r: Vec<i64>)
    ensures
        r@ == row@,
{
    let mut out: Vec<i64> = Vec::new();
    let mut i: usize = 0;
    while i < row.len()
        invariant
            i <= row.len(),
            out@ == row@.take(i as int),
        decreases row.len() - i,
    {
        out.push(row[i]);
        assert(row@.take(i + 1) =~= row@.take(i as int).push(row@[i as int]));
        i += 1;
    }
    assert(row@.take(i as int) =~= row@);
    out
}

/// A copy of a batch.
pub fn copy_rows(m: &Vec<Vec<i64>>) -> (r: Vec<Vec<i64>>)
    ensures
        r.len() == m.len(),
        rows(r@) == rows(m@),
{
    let mut out: Vec<Vec<i64>> = Vec::new();
    let mut i: usize = 0;
    while i < m.len()
        invariant
            i <= m.len(),
            out.len() == i,
            forall|k: int| 0 <= k < i ==> (#[trigger] out[k])@ == m[k]@,
        decreases m.len() - i,
    {
        out.push(copy_row(&m[i]));
        i += 1;
    }
    assert(rows(out@) =~= rows(m@));
    out
}

/// Whether every row has `width` entries.
pub fn check_width(m: &Vec<Vec<i64>>, width: usize) -> (r: bool)
    ensures
        r == has_width(rows(m@), width as nat),
{
    let mut i: usize = 0;
    while i < m.len()
        invariant
            i <= m.len(),
            forall|k: int| 0 <= k < i ==> (#[trigger] rows(m@)[k]).len() == width,
        decreases m.len() - i,
    {
        if m[i].len() != width {
            assert(rows(m@)[i as int].len() != width);
            return false;
        }
        i += 1;
    }
    true
}

/// The rows of `m` that `indices` names, in that order. A row may be named
/// more than once, or never.
pub fn select_rows(m: &Vec<Vec<i64>>, indices: &Vec<usize>) -> (r: Vec<Vec<i64>>)
    requires
        forall|k: int| 0 <= k < indices.len() ==> indices[k] < m.len(),
    ensures
        r.len() == indices.len(),
        rows(r@) == selected(rows(m@), indices@),
{
    let mut out: Vec<Vec<i64>> = Vec::new();
    let mut k: usize = 0;
    while k < indices.len()
        invariant
            k <= indices.len(),
            out.len() == k,
            forall|j: int| 0 <= j < indices.len() ==> indices[j] < m.len(),
            forall|j: int| 0 <= j < k ==> (#[trigger] out[j])@ == m[indices[j] as int]@,
        decreases indices.len() - k,
    {
        out.push(copy_row(&m[indices[k]]));
        k += 1;
    }
    assert(rows(out@) =~= selected(rows(m@), indices@));
    out
}

/// Adds `column[i]` at the end of row `i`.
pub fn append_column(m: Vec<Vec<i64>>, column: &Vec<i64>) -> (r: Vec<Vec<i64>>)
    requires
        column.len() == m.len(),
    ensures
        r.len() == m.len(),
        rows(r@) == with_column(rows(m@), column@),
{
    let mut out: Vec<Vec<i64>> = Vec::new();
    let mut i: usize = 0;
    while i < m.len()
        invariant
            i <= m.len(),
            column.len() == m.len(),
            out.len() == i,
            forall|k: int| 0 <= k < i ==> (#[trigger] out[k])@ == m[k]@.push(column[k]),
        decreases m.len() - i,
    {
        let mut row = copy_row(&m[i]);
        row.push(column[i]);
        out.push(row);
        i += 1;
    }
    assert(rows(out@) =~= with_column(rows(m@), column@));
    out
}

/// Adds `value` at the end of every row.
pub fn append_constant_column(m: Vec<Vec<i64>>, value: i64) -> (r: Vec<Vec<i64>>)
    ensures
        r.len() == m.len(),
        rows(r@) == with_constant_column(rows(m@), value),
{
    let mut out: Vec<Vec<i64>> = Vec::new();
    let mut i: usize = 0;
    while i < m.len()
        invariant
            i <= m.len(),
            out.len() == i,
            forall|k: int| 0 <= k < i ==> (#[trigger] out[k])@ == m[k]@.push(value),
        decreases m.len() - i,
    {
        let mut row = copy_row(&m[i]);
        row.push(value);
        out.push(row);
        i += 1;
    }
    assert(rows(out@) =~= with_constant_column(rows(m@), value));
    out
}

/// The batch in which every row of `m` stands `times` times in a row.
pub fn expand_rows(m: &Vec<Vec<i64>>, times: usize) -> (r: Vec<Vec<i64>>)
    ensures
        r.len() == m.len() * times,
        rows(r@) == expanded(rows(m@), times as nat),
{
    let mut out: Vec<Vec<i64>> = Vec::new();
    let mut i: usize = 0;
    while i < m.len()
        invariant
            i <= m.len(),
            out.len() == i * times,
            forall|r: int| 0 <= r < out.len() ==> (#[trigger] out[r])@ == m[r / (times as int)]@,
        decreases m.len() - i,
    {
        let mut k: usize = 0;
        while k < times
            invariant
                k <= times,
                i < m.len(),
                out.len() == i * times + k,
                forall|r: int|
                    0 <= r < out.len() ==> (#[trigger] out[r])@ == m[r / (times as int)]@,
            decreases times - k,
        {
            proof {
                vstd::arithmetic::div_mod::lemma_fundamental_div_mod_converse(
                    i * times + k,
                    times as int,
                    i as int,
                    k as int,
                );
            }
            out.push(copy_row(&m[i]));
            k += 1;
        }
        assert(i * times + times == (i + 1) * times) by (nonlinear_arith);
        i += 1;
    }
    assert forall|r: int| 0 <= r < out.len() implies rows(out@)[r] == expanded(
        rows(m@),
        times as nat,
    )[r] by {
        assert(0 <= r / (times as int) < m.len()) by (nonlinear_arith)
            requires
                0 <= r < m.len() * times,
                times > 0,
        ;
    }
    assert(rows(out@) =~= expanded(rows(m@), times as nat));
    out
}

/// The number of entries of the longest row.
pub fn longest_row(m: &Vec<Vec<i64>>) -> (r: usize)
    ensures
        r == longest(rows(m@)),
{
    let mut most: usize = 0;
    let mut i: usize = 0;
    while i < m.len()
        invariant
            i <= m.len(),
            most == longest(rows(m@).take(i as int)),
        decreases m.len() - i,
    {
        proof {
            let next = rows(m@).take(i + 1);
            assert(next.drop_last() =~= rows(m@).take(i as int));
            assert(next.last() == m[i as int]@);
        }
        if m[i].len() > most {
            most = m[i].len();
        }
        i += 1;
    }
    assert(rows(m@).take(i as int) =~= rows(m@));
    most
}

/// No row is longer than the longest.
pub proof fn lemma_longest_bounds(m: Seq<Seq<i64>>, i: int)
    requires
        0 <= i < m.len(),
    ensures
        m[i].len() <= longest(m),
    decreases m.len(),
{
    if i < m.len() - 1 {
        lemma_longest_bounds(m.drop_last(), i);
    }
}

/// The longest row is no longer than a bound on all rows.
pub proof fn lemma_longest_within(m: Seq<Seq<i64>>, bound: nat)
    requires
        forall|i: int| 0 <= i < m.len() ==> (#[trigger] m[i]).len() <= bound,
    ensures
        longest(m) <= bound,
    decreases m.len(),
{
    if m.len() > 0 {
        let front = m.drop_last();
        assert forall|i: int| 0 <= i < front.len() implies (#[trigger] front[i]).len() <= bound by {
            assert(front[i] == m[i]);
        }
        lemma_longest_within(front, bound);
        assert(m.last() == m[m.len() - 1]);
    }
}

} // verus!
