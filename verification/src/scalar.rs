//! Single-precision scalars as bit patterns, and their order.

use vstd::prelude::*;

verus! {

/// Bit pattern of positive zero.
pub const ZERO: u32 = 0;

/// Bit pattern of one.
pub const ONE: u32 = 0x3f80_0000;

/// Bit pattern of positive infinity; every larger magnitude is not a number.
pub const INFINITY: u32 = 0x7f80_0000;

/// Mask of the sign bit.
pub const SIGN_MASK: u32 = 0x8000_0000;

/// Mask of exponent and fraction.
pub const MAGNITUDE_MASK: u32 = 0x7fff_ffff;

/// Exponent and fraction of a bit pattern, as an unsigned number.
pub open spec fn magnitude(bits: u32) -> u32 {
    bits & MAGNITUDE_MASK
}

/// Whether the sign bit is set.
pub open spec fn is_negative(bits: u32) -> bool {
    bits & SIGN_MASK != 0
}

/// Whether a bit pattern encodes "not a number".
pub open spec fn is_nan(bits: u32) -> bool {
    magnitude(bits) > INFINITY
}

/// Position of a scalar on the number line of bit patterns: for two patterns
/// that are numbers, the scalar of one is below that of the other exactly when
/// its rank is. Both zeros have rank 0.
pub open spec fn rank(bits: u32) -> int {
    if is_negative(bits) {
        -(magnitude(bits) as int)
    } else {
        magnitude(bits) as int
    }
}

/// A sequence that has a largest element: not empty, and every entry a number.
pub open spec fn comparable(v: Seq<u32>) -> bool {
    v.len() > 0 && forall|i: int| 0 <= i < v.len() ==> !is_nan(#[trigger] v[i])
}

/// `k` is the first index at which `v` attains its maximum.
pub open spec fn is_first_max(v: Seq<u32>, k: int) -> bool {
    &&& 0 <= k < v.len()
    &&& forall|j: int| 0 <= j < v.len() ==> rank(#[trigger] v[j]) <= rank(v[k])
    &&& forall|j: int| 0 <= j < k ==> rank(#[trigger] v[j]) < rank(v[k])
}

/// Index of the largest entry, the earliest one among equals; 0 for the empty
/// sequence.
pub open spec fn argmax(v: Seq<u32>) -> int
    decreases v.len(),
{
    if v.len() <= 1 {
        0
    } else {
        let k = argmax(v.drop_last());
        if rank(v.last()) > rank(v[k]) {
            v.len() - 1
        } else {
            k
        }
    }
}

/// `argmax` names the first index of the maximum.
pub proof fn lemma_argmax_is_first_max(v: Seq<u32>)
    requires
        v.len() > 0,
    ensures
        is_first_max(v, argmax(v)),
    decreases v.len(),
{
    if v.len() > 1 {
        let front = v.drop_last();
        lemma_argmax_is_first_max(front);
        let k = argmax(front);
        assert(forall|j: int| 0 <= j < front.len() ==> front[j] == v[j]);
        assert(forall|j: int| 0 <= j < v.len() - 1 ==> rank(#[trigger] v[j]) <= rank(v[k])) by {
            assert(forall|j: int| 0 <= j < front.len() ==> rank(#[trigger] front[j]) <= rank(front[k]));
        }
        assert(forall|j: int| 0 <= j < k ==> rank(#[trigger] v[j]) < rank(v[k])) by {
            assert(forall|j: int| 0 <= j < k ==> rank(#[trigger] front[j]) < rank(front[k]));
        }
    }
}

/// At most one index is the first index of the maximum.
pub proof fn lemma_first_max_unique(v: Seq<u32>, a: int, b: int)
    requires
        is_first_max(v, a),
        is_first_max(v, b),
    ensures
        a == b,
{
    if a < b {
        assert(rank(v[a]) < rank(v[b]));
        assert(rank(v[b]) <= rank(v[a]));
    } else if b < a {
        assert(rank(v[b]) < rank(v[a]));
        assert(rank(v[a]) <= rank(v[b]));
    }
}

/// Two patterns of the same rank are the same pattern, or the two zeros.
pub proof fn lemma_rank_separates(a: u32, b: u32)
    requires
        rank(a) == rank(b),
    ensures
        a == b || (magnitude(a) == 0 && magnitude(b) == 0),
{
    assert((a & 0x7fff_ffff) == (b & 0x7fff_ffff) && ((a & 0x8000_0000) != 0) == ((b & 0x8000_0000)
        != 0) ==> a == b) by (bit_vector);
}

/// Whether the pattern encodes a number.
pub fn is_number(bits: u32) -> (r: bool)
    ensures
        r == !is_nan(bits),
{
    (bits & MAGNITUDE_MASK) <= INFINITY
}

/// The rank of a bit pattern.
pub fn rank_of(bits: u32) -> (r: i64)
    ensures
        r == rank(bits),
{
    let m: u32 = bits & MAGNITUDE_MASK;
    assert(bits & 0x7fff_ffff <= 0x7fff_ffff) by (bit_vector);
    if bits & SIGN_MASK != 0 {
        -(m as i64)
    } else {
        m as i64
    }
}

/// Whether `a` is strictly below `b` as scalars.
pub fn less_than(a: u32, b: u32) -> (r: bool)
    ensures
        r == (rank(a) < rank(b)),
{
    rank_of(a) < rank_of(b)
}

/// Whether the vector has a largest element.
pub fn is_comparable(vec: &Vec<u32>) -> (r: bool)
    ensures
        r == comparable(vec@),
{
    if vec.len() == 0 {
        return false;
    }
    let mut i: usize = 0;
    while i < vec.len()
        invariant
            0 <= i <= vec.len(),
            forall|j: int| 0 <= j < i ==> !is_nan(#[trigger] vec@[j]),
        decreases vec.len() - i,
    {
        if !is_number(vec[i]) {
            return false;
        }
        i += 1;
    }
    true
}

/// Index of the highest value in the vector; of several equal ones the first.
pub fn find_max(vec: &Vec<u32>) -> (k: usize)
    requires
        comparable(vec@),
    ensures
        k as int == argmax(vec@),
        is_first_max(vec@, k as int),
{
    let mut best: usize = 0;
    let mut i: usize = 1;
    assert(vec@.take(1).len() == 1);
    while i < vec.len()
        invariant
            1 <= i <= vec.len(),
            best < i,
            best as int == argmax(vec@.take(i as int)),
        decreases vec.len() - i,
    {
        proof {
            let next = vec@.take(i + 1);
            assert(next.drop_last() =~= vec@.take(i as int));
            assert(next.last() == vec@[i as int]);
            assert(next[best as int] == vec@[best as int]);
        }
        if less_than(vec[best], vec[i]) {
            best = i;
        }
        i += 1;
    }
    proof {
        assert(vec@.take(vec.len() as int) =~= vec@);
        lemma_argmax_is_first_max(vec@);
    }
    best
}

} // verus!
