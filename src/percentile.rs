use vstd::prelude::*;
use vstd::relations::{sorted_by, total_ordering};

verus! {

// A sample is an IEEE-754 binary64 value held as its bit pattern.

/// Mask of the 52 fraction bits of a binary64 value.
pub const FRACTION_MASK: u64 = 0x000f_ffff_ffff_ffff;

/// The sign bit of a binary64 value.
pub const SIGN_BIT: u64 = 0x8000_0000_0000_0000;

/// The value is a NaN: all exponent bits set and a non-zero fraction.
pub open spec fn is_nan_bits(bits: u64) -> bool {
    (bits >> 52u64) & 0x7ffu64 == 0x7ffu64 && bits & FRACTION_MASK != 0
}

/// A key whose unsigned order is the IEEE-754 total order of the values:
/// negatives have all bits flipped, non-negatives get the sign bit set.
/// On values that are not NaN it agrees with the numeric order, except that
/// -0.0 comes just before +0.0.
pub open spec fn order_key(bits: u64) -> u64 {
    if bits & SIGN_BIT != 0 {
        !bits
    } else {
        bits | SIGN_BIT
    }
}

/// The bit pattern whose key is `key`.
pub open spec fn from_order_key(key: u64) -> u64 {
    if key & SIGN_BIT != 0 {
        key & !SIGN_BIT
    } else {
        !key
    }
}

/// `x` is at most `y` in the total order of binary64 values.
pub open spec fn sample_le(x: u64, y: u64) -> bool {
    order_key(x) <= order_key(y)
}

/// The order in which keys are sorted.
pub open spec fn key_le() -> spec_fn(u64, u64) -> bool {
    |x: u64, y: u64| x <= y
}

/// Each sample keeps its own key: the key is a bijection on bit patterns.
pub proof fn lemma_order_key_round_trip(bits: u64)
    ensures
        from_order_key(order_key(bits)) == bits,
{
    assert(from_order_key(order_key(bits)) == bits) by (bit_vector);
}

/// Every key comes from one bit pattern.
pub proof fn lemma_from_order_key_round_trip(key: u64)
    ensures
        order_key(from_order_key(key)) == key,
{
    assert(order_key(from_order_key(key)) == key) by (bit_vector);
}

/// Tells whether a sample is a NaN.
pub fn is_nan(bits: u64) -> (r: bool)
    ensures
        r == is_nan_bits(bits),
{
    (bits >> 52u64) & 0x7ffu64 == 0x7ffu64 && bits & FRACTION_MASK != 0
}

/// The key of a sample in the total order of binary64 values.
pub fn sample_key(bits: u64) -> (r: u64)
    ensures
        r == order_key(bits),
{
    if bits & SIGN_BIT != 0 {
        !bits
    } else {
        bits | SIGN_BIT
    }
}

/// The sample whose key is `key`.
pub fn sample_of_key(key: u64) -> (r: u64)
    ensures
        r == from_order_key(key),
{
    if key & SIGN_BIT != 0 {
        key & !SIGN_BIT
    } else {
        !key
    }
}

/// Why no summary could be made of a sample collection.
#[derive(Debug, Clone, Copy, PartialEq, Eq, Structural)]
pub enum PercentileError {
    /// The collection holds no sample.
    EmptyInput,
    /// A sample is a NaN, which has no place in the order.
    InvalidValue,
}

/// The key of each sample, in the order of the samples.
pub open spec fn keys_of(samples: Seq<u64>) -> Seq<u64> {
    samples.map_values(|b: u64| order_key(b))
}

/// The keys of the samples, in ascending order.
pub open spec fn sorted_keys(samples: Seq<u64>) -> Seq<u64> {
    keys_of(samples).sort_by(key_le())
}

/// The sample of rank `k` (from 0) once the samples are sorted ascending.
pub open spec fn nth_smallest(samples: Seq<u64>, k: int) -> u64 {
    from_order_key(sorted_keys(samples)[k])
}

/// The rank read for percentile `p` of `m` samples: `floor(p * m / 100)`.
pub open spec fn rank_of(p: nat, m: nat) -> int {
    (p * m / 100) as int
}

/// Some sample is a NaN.
pub open spec fn has_nan(samples: Seq<u64>) -> bool {
    exists|i: int| 0 <= i < samples.len() && is_nan_bits(#[trigger] samples[i])
}

/// The six figures reported for a non-empty collection without NaN: the
/// samples of the ranks of the 1st, 5th, 50th, 95th and 99th percentiles, and
/// the largest sample.
pub open spec fn summary_of(samples: Seq<u64>) -> (u64, u64, u64, u64, u64, u64) {
    let m = samples.len();
    (
        nth_smallest(samples, rank_of(1, m)),
        nth_smallest(samples, rank_of(5, m)),
        nth_smallest(samples, rank_of(50, m)),
        nth_smallest(samples, rank_of(95, m)),
        nth_smallest(samples, rank_of(99, m)),
        nth_smallest(samples, m - 1),
    )
}

/// Returns `floor(p * m / 100)` without forming `p * m`.
pub fn percentile_rank(p: usize, m: usize) -> (r: usize)
    requires
        p < 100,
    ensures
        r == rank_of(p as nat, m as nat),
        m > 0 ==> r < m,
{
    let q = m / 100;
    let rest = m % 100;
    proof {
        assert(q * 100 + rest == m);
        assert(p * q <= m) by (nonlinear_arith)
            requires p < 100, q * 100 <= m;
        assert(p * rest < 100 * 100) by (nonlinear_arith)
            requires p < 100, rest < 100;
        assert(p * m == (p * q) * 100 + p * rest) by (nonlinear_arith)
            requires m == q * 100 + rest;
        assert((p * m) / 100 == p * q + (p * rest) / 100) by (nonlinear_arith)
            requires p * m == (p * q) * 100 + p * rest, p * rest >= 0, p * q >= 0;
        if m > 0 {
            assert(p * m < 100 * m) by (nonlinear_arith)
                requires p < 100, m > 0;
        }
    }
    p * q + (p * rest) / 100
}

/// Relies on slice::sort_unstable: the slice ends in ascending order and holds
/// the same elements.
#[verifier::external_body]
fn sort_ascending(v: &mut Vec<u64>)
    ensures
        sorted_by(final(v)@, key_le()),
        final(v)@.to_multiset() == old(v)@.to_multiset(),
{
    v.sort_unstable();
}

/// Keys are sorted by a total order.
proof fn lemma_key_le_total()
    ensures
        total_ordering(key_le()),
{
    let leq = key_le();
    assert(forall|x: u64| #[trigger] leq(x, x));
    assert(forall|x: u64, y: u64| #[trigger] leq(x, y) && #[trigger] leq(y, x) ==> x == y);
    assert(forall|x: u64, y: u64, z: u64| #[trigger] leq(x, y) && #[trigger] leq(y, z) ==> leq(x, z));
    assert(forall|x: u64, y: u64| #[trigger] leq(x, y) || #[trigger] leq(y, x));
}

/// A sorted sequence with the same keys as the samples is their sorted keys.
proof fn lemma_sorted_keys_unique(samples: Seq<u64>, keys: Seq<u64>)
    requires
        sorted_by(keys, key_le()),
        keys.to_multiset() == keys_of(samples).to_multiset(),
    ensures
        keys == sorted_keys(samples),
        keys.len() == samples.len(),
{
    broadcast use vstd::seq_lib::group_to_multiset_ensures;

    lemma_key_le_total();
    keys_of(samples).lemma_sort_by_ensures(key_le());
    vstd::seq_lib::lemma_sorted_unique(keys, sorted_keys(samples), key_le());
    assert(keys.len() == keys.to_multiset().len());
    assert(keys_of(samples).len() == keys_of(samples).to_multiset().len());
}

/// Summarises the samples: the samples of rank `floor(p * m / 100)` in
/// ascending order for `p` of 1, 5, 50, 95 and 99, and the largest sample.
/// The order is the total order of binary64 values. The collection itself is
/// only read; a sorted copy of its keys does the work.
pub fn percentiles(a: &Vec<u64>) -> (r: Result<(u64, u64, u64, u64, u64, u64), PercentileError>)
    ensures
        a@.len() == 0 ==> r == Err::<(u64, u64, u64, u64, u64, u64), PercentileError>(
            PercentileError::EmptyInput,
        ),
        a@.len() > 0 && has_nan(a@) ==> r == Err::<(u64, u64, u64, u64, u64, u64), PercentileError>(
            PercentileError::InvalidValue,
        ),
        a@.len() > 0 && !has_nan(a@) ==> r == Ok::<(u64, u64, u64, u64, u64, u64), PercentileError>(
            summary_of(a@),
        ),
{
    let m = a.len();
    if m == 0 {
        return Err(PercentileError::EmptyInput);
    }
    let mut keys: Vec<u64> = Vec::new();
    let mut i: usize = 0;
    while i < m
        invariant
            m == a@.len(),
            i <= m,
            keys@.len() == i,
            forall|j: int| 0 <= j < i ==> #[trigger] keys@[j] == order_key(a@[j]),
            forall|j: int| 0 <= j < i ==> !is_nan_bits(#[trigger] a@[j]),
        decreases m - i,
    {
        let bits = a[i];
        if is_nan(bits) {
            assert(is_nan_bits(a@[i as int]));
            return Err(PercentileError::InvalidValue);
        }
        keys.push(sample_key(bits));
        i += 1;
    }
    assert(keys@ =~= keys_of(a@));
    sort_ascending(&mut keys);
    proof {
        lemma_sorted_keys_unique(a@, keys@);
    }
    let p01 = sample_of_key(keys[percentile_rank(1, m)]);
    let p05 = sample_of_key(keys[percentile_rank(5, m)]);
    let p50 = sample_of_key(keys[percentile_rank(50, m)]);
    let p95 = sample_of_key(keys[percentile_rank(95, m)]);
    let p99 = sample_of_key(keys[percentile_rank(99, m)]);
    let max = sample_of_key(keys[m - 1]);
    Ok((p01, p05, p50, p95, p99, max))
}

/// The ranks read for the five percentiles never decrease with the percentile
/// and stay below the number of samples.
proof fn lemma_ranks_ordered(m: nat)
    requires
        m > 0,
    ensures
        0 <= rank_of(1, m) <= rank_of(5, m) <= rank_of(50, m) <= rank_of(95, m) <= rank_of(99, m) < m,
{
    assert(1 * m <= 5 * m <= 50 * m <= 95 * m <= 99 * m < 100 * m) by (nonlinear_arith)
        requires m > 0;
    vstd::arithmetic::div_mod::lemma_div_is_ordered((1 * m) as int, (5 * m) as int, 100);
    vstd::arithmetic::div_mod::lemma_div_is_ordered((5 * m) as int, (50 * m) as int, 100);
    vstd::arithmetic::div_mod::lemma_div_is_ordered((50 * m) as int, (95 * m) as int, 100);
    vstd::arithmetic::div_mod::lemma_div_is_ordered((95 * m) as int, (99 * m) as int, 100);
    assert((99 * m) / 100 < m) by (nonlinear_arith)
        requires m > 0;
}

/// Of a non-empty collection, the reported maximum is one of the samples and
/// no sample exceeds it, and the six figures never decrease:
/// p01 <= p05 <= p50 <= p95 <= p99 <= max in the total order of binary64 values.
pub proof fn lemma_summary_ordered(samples: Seq<u64>)
    requires
        samples.len() > 0,
    ensures
        samples.contains(summary_of(samples).5),
        forall|i: int| 0 <= i < samples.len() ==> sample_le(#[trigger] samples[i], summary_of(samples).5),
        sample_le(summary_of(samples).0, summary_of(samples).1),
        sample_le(summary_of(samples).1, summary_of(samples).2),
        sample_le(summary_of(samples).2, summary_of(samples).3),
        sample_le(summary_of(samples).3, summary_of(samples).4),
        sample_le(summary_of(samples).4, summary_of(samples).5),
{
    broadcast use vstd::seq_lib::group_to_multiset_ensures;

    let m = samples.len();
    let keys = keys_of(samples);
    let sorted = sorted_keys(samples);
    lemma_key_le_total();
    keys.lemma_sort_by_ensures(key_le());
    assert(sorted.len() == m) by {
        assert(sorted.len() == sorted.to_multiset().len());
        assert(keys.len() == keys.to_multiset().len());
    }
    lemma_ranks_ordered(m);
    assert forall|k: int| 0 <= k < m implies order_key(#[trigger] nth_smallest(samples, k)) == sorted[k] by {
        lemma_from_order_key_round_trip(sorted[k]);
    }
    let top = m - 1;
    assert forall|i: int| 0 <= i < m implies sample_le(#[trigger] samples[i], summary_of(samples).5) by {
        assert(keys[i] == order_key(samples[i]));
        assert(keys.contains(keys[i]));
        assert(keys.to_multiset().count(keys[i]) > 0);
        assert(sorted.to_multiset().count(keys[i]) > 0);
        assert(sorted.contains(keys[i]));
        let j = choose|j: int| 0 <= j < sorted.len() && sorted[j] == keys[i];
        if j < top {
            assert(key_le()(sorted[j], sorted[top]));
        }
    }
    assert(sorted.contains(sorted[top]));
    assert(sorted.to_multiset().count(sorted[top]) > 0);
    assert(keys.to_multiset().count(sorted[top]) > 0);
    assert(keys.contains(sorted[top]));
    let i = choose|i: int| 0 <= i < keys.len() && keys[i] == sorted[top];
    lemma_order_key_round_trip(samples[i]);
    assert(samples[i] == summary_of(samples).5);
    let r1 = rank_of(1, m);
    let r5 = rank_of(5, m);
    let r50 = rank_of(50, m);
    let r95 = rank_of(95, m);
    let r99 = rank_of(99, m);
    assert(key_le()(sorted[r1], sorted[r5]));
    assert(key_le()(sorted[r5], sorted[r50]));
    assert(key_le()(sorted[r50], sorted[r95]));
    assert(key_le()(sorted[r95], sorted[r99]));
    assert(key_le()(sorted[r99], sorted[top]));
}

} // verus!
