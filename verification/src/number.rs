//! Numbers as the decoders see them.
//!
//! A score, a probability or a penalty is a binary64 number. The library never
//! computes with such a number: it compares, ranks and passes on. It therefore
//! holds each number by its key, the integer whose order is the order of the
//! numbers: the bit pattern read as a signed integer, with the low 63 bits
//! inverted where the sign bit is set. The caller maps numbers to keys and
//! back; both directions are exact.

use vstd::prelude::*;

verus! {

/// The key of a binary64 number.
pub type Number = i64;

/// The key of positive zero.
pub const ZERO: Number = 0;

/// The key of negative zero. It compares equal to `ZERO`.
pub const NEGATIVE_ZERO: Number = -1;

/// The key of one.
pub const ONE: Number = 0x3FF0_0000_0000_0000;

/// The key of positive infinity: the largest key that is a number.
pub const INFINITY: Number = 0x7FF0_0000_0000_0000;

/// The key of negative infinity: the smallest key that is a number.
pub const NEG_INFINITY: Number = -0x7FF0_0000_0000_0001;

/// Whether the key stands for no number at all.
pub open spec fn nan(x: Number) -> bool {
    x > INFINITY || x < NEG_INFINITY
}

/// The place of a number on the number line: its key, with the two zeros
/// brought together.
pub open spec fn place(x: Number) -> int {
    if x == NEGATIVE_ZERO {
        0
    } else {
        x as int
    }
}

/// `a < b` as numbers. False when either is not a number.
pub open spec fn less(a: Number, b: Number) -> bool {
    !nan(a) && !nan(b) && place(a) < place(b)
}

/// `a <= b` as numbers. False when either is not a number.
pub open spec fn at_most(a: Number, b: Number) -> bool {
    !nan(a) && !nan(b) && place(a) <= place(b)
}

/// The rank of a key in the total order used for sorting and for picking a
/// minimum or a maximum: numbers by their place, and every key that is not a
/// number above all of them, equal to each other.
pub open spec fn rank(x: Number) -> int {
    if nan(x) {
        INFINITY + 1
    } else {
        place(x)
    }
}

/// Tells whether the key stands for no number.
pub fn is_nan(x: Number) -> (r: bool)
    ensures
        r == nan(x),
{
    x > INFINITY || x < NEG_INFINITY
}

/// `a < b` as numbers.
pub fn lt(a: Number, b: Number) -> (r: bool)
    ensures
        r == less(a, b),
{
    !is_nan(a) && !is_nan(b) && rank_of(a) < rank_of(b)
}

/// `a <= b` as numbers.
pub fn le(a: Number, b: Number) -> (r: bool)
    ensures
        r == at_most(a, b),
{
    !is_nan(a) && !is_nan(b) && rank_of(a) <= rank_of(b)
}

/// `a > b` as numbers.
pub fn gt(a: Number, b: Number) -> (r: bool)
    ensures
        r == less(b, a),
{
    lt(b, a)
}

/// `a >= b` as numbers.
pub fn ge(a: Number, b: Number) -> (r: bool)
    ensures
        r == at_most(b, a),
{
    le(b, a)
}

/// The rank of a key in the total order.
pub fn rank_of(x: Number) -> (r: i64)
    ensures
        r == rank(x),
{
    if is_nan(x) {
        INFINITY + 1
    } else if x == NEGATIVE_ZERO {
        0
    } else {
        x
    }
}

/// The total order agrees with `<` wherever both keys are numbers.
pub proof fn lemma_rank_agrees_with_less(a: Number, b: Number)
    requires
        !nan(a),
        !nan(b),
    ensures
        less(a, b) <==> rank(a) < rank(b),
        at_most(a, b) <==> rank(a) <= rank(b),
{
}

} // verus!
