//! What the measured latencies of a run come to. Latencies are in nanoseconds.

use crate::double::{exponent, is_negative, is_share, law_product_grows_with_the_share, law_product_with_share_is_at_most_the_count, lemma_product_below_the_count, rounded_product, significand, times_rounded, units};
use vstd::arithmetic::power2::pow2;
use vstd::prelude::*;
use vstd::relations::total_ordering;
use vstd::seq_lib::{lemma_sorted_unique, to_multiset_insert};

verus! {

/// Whether no sample of `s` is smaller than one before it.
pub open spec fn is_ascending(s: Seq<u64>) -> bool {
    forall|i: int, j: int| 0 <= i < j < s.len() ==> s[i] <= s[j]
}

/// Whether `s` is the samples in ascending order.
pub open spec fn is_sorting(s: Seq<u64>, samples: Seq<u64>) -> bool {
    is_ascending(s) && s.to_multiset() == samples.to_multiset()
}

/// The samples in ascending order.
pub open spec fn ascending(samples: Seq<u64>) -> Seq<u64> {
    choose|s: Seq<u64>| is_sorting(s, samples)
}

/// Samples have one ascending order.
pub proof fn law_ascending_is_unique(a: Seq<u64>, b: Seq<u64>, samples: Seq<u64>)
    requires
        is_sorting(a, samples),
        is_sorting(b, samples),
    ensures
        a == b,
{
    let leq = |x: u64, y: u64| x <= y;
    assert(total_ordering(leq));
    assert forall|i: int, j: int| 0 <= i < j < a.len() implies #[trigger] leq(a[i], a[j]) by {}
    assert forall|i: int, j: int| 0 <= i < j < b.len() implies #[trigger] leq(b[i], b[j]) by {}
    lemma_sorted_unique(a, b, leq);
}

/// The bits of the double 0.50.
pub const P50: u64 = 0x3fe0_0000_0000_0000;

/// The bits of the double 0.95.
pub const P95: u64 = 0x3fee_6666_6666_6666;

/// The bits of the double 0.99.
pub const P99: u64 = 0x3fef_ae14_7ae1_47ae;

/// The place, counted from 0, of the sample at the share `p` of `count` ascending samples, where
/// `p` is a double, given by its bits: that share of the last place, rounded to the nearest
/// place, and up where two are as near.
pub open spec fn rank(count: nat, p: u64) -> nat {
    times_rounded((count - 1) as nat, p)
}

/// The sample at the share `p` of samples that are in ascending order, or 0 where there are none.
pub open spec fn sample_at(sorted: Seq<u64>, p: u64) -> u64 {
    if sorted.len() == 0 {
        0
    } else {
        sorted[rank(sorted.len(), p) as int]
    }
}

/// There is a sample at each of the shares that are reported.
proof fn lemma_reported_ranks(count: nat)
    requires
        0 < count,
    ensures
        rank(count, P50) < count,
        rank(count, P95) < count,
        rank(count, P99) < count,
{
    let last = (count - 1) as nat;
    assert(significand(P50) == 0x10_0000_0000_0000 && exponent(P50) == 1022);
    assert(significand(P95) == 0x1e_6666_6666_6666 && exponent(P95) == 1022);
    assert(significand(P99) == 0x1f_ae14_7ae1_47ae && exponent(P99) == 1022);
    assert(!is_negative(P50) && !is_negative(P95) && !is_negative(P99));
    lemma_product_below_the_count(last, P50);
    lemma_product_below_the_count(last, P95);
    lemma_product_below_the_count(last, P99);
}

/// The sum of the samples.
pub open spec fn total(samples: Seq<u64>) -> int
    decreases samples.len(),
{
    if samples.len() == 0 {
        0
    } else {
        total(samples.drop_last()) + samples.last()
    }
}

/// What the samples of a run come to.
#[derive(Debug, Clone, Copy, PartialEq, Eq, Structural)]
pub struct LatencySummary {
    /// How many samples there are.
    pub count: usize,
    /// The sum of the samples.
    pub total_ns: u128,
    /// The sample at 50 percent.
    pub p50_ns: u64,
    /// The sample at 95 percent.
    pub p95_ns: u64,
    /// The sample at 99 percent.
    pub p99_ns: u64,
}

/// The samples in ascending order.
pub fn sorted(samples: &Vec<u64>) -> (r: Vec<u64>)
    ensures
        is_sorting(r@, samples@),
        r@ == ascending(samples@),
        r@.len() == samples@.len(),
{
    let mut r: Vec<u64> = Vec::new();
    let mut i: usize = 0;
    assert(samples@.take(0) == r@);
    while i < samples.len()
        invariant
            i <= samples.len(),
            is_ascending(r@),
            r@.to_multiset() == samples@.take(i as int).to_multiset(),
            r@.len() == i,
        decreases samples.len() - i,
    {
        let x: u64 = samples[i];
        let mut at: usize = r.len();
        while at > 0 && r[at - 1] > x
            invariant
                at <= r.len(),
                is_ascending(r@),
                forall|j: int| at <= j < r@.len() ==> r@[j] > x,
            decreases at,
        {
            at -= 1;
        }
        let ghost before = r@;
        r.insert(at, x);
        proof {
            to_multiset_insert(before, at as int, x);
            assert(samples@.take(i + 1) == samples@.take(i as int).insert(i as int, x));
            to_multiset_insert(samples@.take(i as int), i as int, x);
        }
        i += 1;
    }
    proof {
        assert(samples@.take(samples@.len() as int) == samples@);
        law_ascending_is_unique(r@, ascending(samples@), samples@);
    }
    r
}

/// The sample at the share `p` of samples that are in ascending order, or 0 where there are
/// none. The share is a double, given by its bits.
pub fn percentile(sorted: &Vec<u64>, p: u64) -> (r: u64)
    requires
        sorted@.len() > 0 ==> rank(sorted@.len(), p) < sorted@.len(),
    ensures
        r == sample_at(sorted@, p),
{
    if sorted.len() == 0 {
        return 0;
    }
    let place: u64 = rounded_product((sorted.len() - 1) as u64, p);
    sorted[place as usize]
}

/// What the samples come to, if there are any.
pub fn latency_summary(samples: &Vec<u64>) -> (r: Option<LatencySummary>)
    ensures
        r == if samples@.len() == 0 {
            None
        } else {
            Some(
                LatencySummary {
                    count: samples@.len() as usize,
                    total_ns: total(samples@) as u128,
                    p50_ns: sample_at(ascending(samples@), P50),
                    p95_ns: sample_at(ascending(samples@), P95),
                    p99_ns: sample_at(ascending(samples@), P99),
                },
            )
        },
        r matches Some(s) ==> s.count == samples@.len() && s.total_ns == total(samples@),
{
    if samples.len() == 0 {
        return None;
    }
    let ascending: Vec<u64> = sorted(samples);
    proof {
        lemma_reported_ranks(ascending@.len());
    }
    let mut total_ns: u128 = 0;
    let mut i: usize = 0;
    while i < samples.len()
        invariant
            i <= samples.len(),
            total_ns == total(samples@.take(i as int)),
            total_ns <= i * u64::MAX,
        decreases samples.len() - i,
    {
        assert(samples@.take(i + 1).drop_last() == samples@.take(i as int));
        assert(i * u64::MAX + u64::MAX <= u128::MAX) by (nonlinear_arith)
            requires
                i < usize::MAX,
                usize::MAX <= u64::MAX,
        ;
        total_ns = total_ns + samples[i] as u128;
        i += 1;
    }
    assert(samples@.take(samples@.len() as int) == samples@);
    Some(
        LatencySummary {
            count: samples.len(),
            total_ns,
            p50_ns: percentile(&ascending, P50),
            p95_ns: percentile(&ascending, P95),
            p99_ns: percentile(&ascending, P99),
        },
    )
}

/// Samples have an ascending order.
pub proof fn law_ascending_exists(samples: Seq<u64>)
    ensures
        is_sorting(ascending(samples), samples),
{
    let leq = |x: u64, y: u64| x <= y;
    assert(total_ordering(leq));
    samples.lemma_sort_by_ensures(leq);
    let s = samples.sort_by(leq);
    assert forall|i: int, j: int| 0 <= i < j < s.len() implies s[i] <= s[j] by {
        assert(leq(s[i], s[j]));
    }
    assert(is_sorting(s, samples));
}

/// Of samples in ascending order there is one at every share from 0 to 1, it is one of the
/// samples, and at a higher share it is not smaller; at the share 0 it is the first sample, and
/// at the share 1 the last. There are no more samples than doubles can count.
pub proof fn law_percentile_of_sorted(sorted: Seq<u64>, p: u64, q: u64)
    requires
        0 < sorted.len() <= 0x20_0000_0000_0000,
        is_ascending(sorted),
        is_share(p),
        is_share(q),
        units(p) <= units(q),
    ensures
        rank(sorted.len(), p) < sorted.len(),
        sorted.contains(sample_at(sorted, p)),
        sample_at(sorted, p) <= sample_at(sorted, q),
        units(p) == 0 ==> sample_at(sorted, p) == sorted.first(),
        units(p) == pow2(1074) ==> sample_at(sorted, p) == sorted.last(),
{
    let last = (sorted.len() - 1) as nat;
    law_product_with_share_is_at_most_the_count(last, p);
    law_product_with_share_is_at_most_the_count(last, q);
    law_product_grows_with_the_share(last, p, q);
    let i = rank(sorted.len(), p) as int;
    let j = rank(sorted.len(), q) as int;
    assert(sorted[i] <= sorted[j]);
}

/// What is reported is a sample of the run, and a higher share never gives a smaller one. At the
/// share 0 it is the smallest sample, and at the share 1 the largest.
pub proof fn law_percentiles_are_ascending_samples(samples: Seq<u64>, p: u64, q: u64)
    requires
        0 < samples.len() <= 0x20_0000_0000_0000,
        is_share(p),
        is_share(q),
        units(p) <= units(q),
    ensures
        samples.contains(sample_at(ascending(samples), p)),
        sample_at(ascending(samples), p) <= sample_at(ascending(samples), q),
        forall|x: u64| #[trigger]
            samples.contains(x) ==> (units(p) == 0 ==> sample_at(ascending(samples), p) <= x) && (
            units(p) == pow2(1074) ==> x <= sample_at(ascending(samples), p)),
{
    broadcast use vstd::seq_lib::group_to_multiset_ensures;

    let sorted = ascending(samples);
    law_ascending_exists(samples);
    assert(sorted.len() == sorted.to_multiset().len());
    assert(samples.len() == samples.to_multiset().len());
    law_percentile_of_sorted(sorted, p, q);
    assert(samples.to_multiset().count(sample_at(sorted, p)) > 0);
    assert forall|x: u64| #[trigger] samples.contains(x) implies sorted.first() <= x
        <= sorted.last() by {
        assert(sorted.to_multiset().count(x) > 0);
        let i = sorted.index_of(x);
        assert(sorted[i] == x);
    }
}

/// The sample at a share is the one at the place that the share of the last place rounds to; of
/// no samples there is none, which is told as 0.
pub proof fn law_sample_is_at_the_rounded_place(sorted: Seq<u64>, p: u64)
    ensures
        sorted.len() == 0 ==> sample_at(sorted, p) == 0,
        sorted.len() > 0 ==> rank(sorted.len(), p) == times_rounded((sorted.len() - 1) as nat, p)
            && sample_at(sorted, p) == sorted[times_rounded(
            (sorted.len() - 1) as nat,
            p,
        ) as int],
{
}

/// Samples are ascending exactly where none is smaller than the one before it, and the ascending
/// order of samples holds each of them as often as they do.
pub proof fn law_ascending_order_holds_every_sample(samples: Seq<u64>, x: u64)
    ensures
        ascending(samples).len() == samples.len(),
        ascending(samples).to_multiset().count(x) == samples.to_multiset().count(x),
        forall|i: int|
            0 <= i < samples.len() - 1 ==> #[trigger] ascending(samples)[i] <= ascending(
                samples,
            )[i + 1],
{
    broadcast use vstd::seq_lib::group_to_multiset_ensures;

    law_ascending_exists(samples);
    assert(ascending(samples).len() == ascending(samples).to_multiset().len());
    assert(samples.len() == samples.to_multiset().len());
}

/// One more sample adds itself to the sum.
pub proof fn law_sum_grows_by_the_sample(samples: Seq<u64>, x: u64)
    ensures
        total(Seq::empty()) == 0,
        total(samples.push(x)) == total(samples) + x,
{
    assert(samples.push(x).drop_last() == samples);
}

/// The shares that are reported are those of 50, 95 and 99 percent: each differs from its share by
/// less than the distance between doubles there.
pub proof fn law_reported_shares()
    ensures
        2 * units(P50) == pow2(1074),
        ({
            let u = pow2(1021);
            &&& 95 * pow2(1074) - 100 * u < 100 * units(P95) < 95 * pow2(1074) + 100 * u
            &&& 99 * pow2(1074) - 100 * u < 100 * units(P99) < 99 * pow2(1074) + 100 * u
        }),
{
    vstd::arithmetic::power2::lemma2_to64_rest();
    vstd::arithmetic::power2::lemma_pow2_adds(53, 1021);
    vstd::arithmetic::power2::lemma_pow2_pos(1021);
    let u = pow2(1021);
    assert(significand(P50) == 0x10_0000_0000_0000 && exponent(P50) == 1022);
    assert(significand(P95) == 0x1e_6666_6666_6666 && exponent(P95) == 1022);
    assert(significand(P99) == 0x1f_ae14_7ae1_47ae && exponent(P99) == 1022);
    assert(pow2(1074) == 0x20_0000_0000_0000 * u);
}

} // verus!
