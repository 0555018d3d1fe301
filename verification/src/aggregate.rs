//! Accumulation and summary of RTT samples.
//!
//! The presenter stores every sample and, when the stream ends, reports
//! minimum, maximum, arithmetic mean, and population standard deviation —
//! the square root of the mean of squared deviations from the mean. All
//! values are nanoseconds; divisions and the square root round down.

use vstd::prelude::*;

use vstd::arithmetic::div_mod::lemma_div_is_ordered;

verus! {

/// The sum of a sequence of sample values.
pub open spec fn sum_of(s: Seq<u64>) -> int
    decreases s.len(),
{
    if s.len() == 0 {
        0
    } else {
        sum_of(s.drop_last()) + s.last()
    }
}

/// The mean of a non-empty sequence, rounded down.
pub open spec fn mean_of(s: Seq<u64>) -> int
    recommends
        s.len() > 0,
{
    sum_of(s) / s.len() as int
}

/// The sum of squared deviations of the samples from `avg`.
pub open spec fn sq_dev_sum(s: Seq<u64>, avg: int) -> int
    decreases s.len(),
{
    if s.len() == 0 {
        0
    } else {
        sq_dev_sum(s.drop_last(), avg) + (s.last() - avg) * (s.last() - avg)
    }
}

/// The population variance of a non-empty sequence about its rounded mean.
pub open spec fn variance_of(s: Seq<u64>) -> int
    recommends
        s.len() > 0,
{
    sq_dev_sum(s, mean_of(s)) / s.len() as int
}

/// The smallest value of a non-empty sequence.
pub open spec fn min_of(s: Seq<u64>) -> u64
    recommends
        s.len() > 0,
    decreases s.len(),
{
    if s.len() <= 1 {
        s[0]
    } else if s.last() < min_of(s.drop_last()) {
        s.last()
    } else {
        min_of(s.drop_last())
    }
}

/// The largest value of a non-empty sequence.
pub open spec fn max_of(s: Seq<u64>) -> u64
    recommends
        s.len() > 0,
    decreases s.len(),
{
    if s.len() <= 1 {
        s[0]
    } else if s.last() > max_of(s.drop_last()) {
        s.last()
    } else {
        max_of(s.drop_last())
    }
}

/// The sum is bounded by the length times the largest possible sample.
proof fn lemma_sum_bound(s: Seq<u64>)
    ensures
        0 <= sum_of(s) <= s.len() * u64::MAX,
    decreases s.len(),
{
    if s.len() == 0 {
    } else {
        lemma_sum_bound(s.drop_last());
        assert((s.len() - 1) * u64::MAX + u64::MAX == s.len() * u64::MAX) by (nonlinear_arith);
    }
}

/// Squared deviations are non-negative, so their partial sums only grow.
proof fn lemma_sq_dev_sum_nonneg_step(s: Seq<u64>, avg: int)
    requires
        s.len() > 0,
    ensures
        sq_dev_sum(s, avg) >= sq_dev_sum(s.drop_last(), avg),
{
    let d = s.last() - avg;
    assert(d * d >= 0) by (nonlinear_arith);
}

/// A prefix of the samples never has a larger squared-deviation sum.
proof fn lemma_sq_dev_sum_prefix(s: Seq<u64>, avg: int, i: int)
    requires
        0 <= i <= s.len(),
    ensures
        sq_dev_sum(s.take(i), avg) <= sq_dev_sum(s, avg),
    decreases s.len() - i,
{
    if i == s.len() {
        assert(s.take(i) =~= s);
    } else {
        lemma_sq_dev_sum_prefix(s, avg, i + 1);
        assert(s.take(i + 1).drop_last() =~= s.take(i));
        lemma_sq_dev_sum_nonneg_step(s.take(i + 1), avg);
    }
}

/// Floor of the square root of `v`: the unique `r` with
/// `r * r <= v < (r + 1) * (r + 1)`.
fn isqrt_u128(v: u128) -> (r: u64)
    ensures
        (r as int) * (r as int) <= v,
        ((r as int) + 1) * ((r as int) + 1) > v,
{
    let mut lo: u64 = 0;
    let mut hi: u64 = u64::MAX;
    proof {
        assert((0xffff_ffff_ffff_ffffu64 as int + 1) * (0xffff_ffff_ffff_ffffu64 as int + 1)
            > u128::MAX) by (nonlinear_arith);
    }
    while lo < hi
        invariant
            lo <= hi,
            (lo as int) * (lo as int) <= v,
            ((hi as int) + 1) * ((hi as int) + 1) > v,
        decreases hi - lo,
    {
        let mid = lo + (hi - lo) / 2 + 1;
        proof {
            assert((mid as int) * (mid as int) <= (0xffff_ffff_ffff_ffffu64 as int)
                * (0xffff_ffff_ffff_ffffu64 as int) < u128::MAX) by (nonlinear_arith)
                requires
                    mid <= 0xffff_ffff_ffff_ffffu64,
            ;
        }
        let sq = (mid as u128) * (mid as u128);
        if sq <= v {
            lo = mid;
        } else {
            hi = mid - 1;
        }
    }
    lo
}

/// The stored stream of RTT samples, in nanoseconds, in arrival order.
pub struct RttSequence(Vec<u64>);

impl View for RttSequence {
    type V = Seq<u64>;

    closed spec fn view(&self) -> Seq<u64> {
        self.0@
    }
}

/// The end-of-stream report: extrema, mean and standard deviation of all
/// collected samples. The standard deviation is absent in the (practically
/// unreachable) case that the squared deviations overflow their
/// 128-bit accumulator.
#[derive(Clone, Copy, Debug, PartialEq, Eq, Structural)]
pub struct RttSummary {
    /// Smallest sample, nanoseconds.
    pub min: u64,
    /// Largest sample, nanoseconds.
    pub max: u64,
    /// Mean sample, nanoseconds, rounded down.
    pub mean: u64,
    /// Population standard deviation, nanoseconds, rounded down.
    pub std_dev: Option<u64>,
}

impl RttSequence {
    /// An empty sample store.
    pub fn new() -> (r: RttSequence)
        ensures
            r@ == Seq::<u64>::empty(),
    {
        RttSequence(Vec::new())
    }

    /// Record one sample.
    pub fn add(&mut self, rtt: u64)
        ensures
            final(self)@ == old(self)@.push(rtt),
    {
        self.0.push(rtt)
    }

    /// How many samples were collected.
    pub fn len(&self) -> (r: usize)
        ensures
            r == self@.len(),
    {
        self.0.len()
    }

    /// The arithmetic mean of the collected samples, rounded down.
    pub fn mean(&self) -> (r: u64)
        requires
            self@.len() > 0,
        ensures
            r == mean_of(self@),
    {
        let ghost s = self@;
        let n = self.0.len();
        let mut acc: u128 = 0;
        let mut i: usize = 0;
        while i < n
            invariant
                n == s.len(),
                s == self@,
                0 <= i <= n,
                acc == sum_of(s.take(i as int)),
                acc <= (i as int) * u64::MAX,
            decreases n - i,
        {
            proof {
                assert(s.take(i + 1).drop_last() =~= s.take(i as int));
                assert((i as int) * u64::MAX + u64::MAX == (i + 1) * u64::MAX)
                    by (nonlinear_arith);
                assert((i + 1) * u64::MAX <= (n as int) * u64::MAX) by (nonlinear_arith)
                    requires
                        0 <= i + 1 <= n as int,
                ;
                assert((n as int) * u64::MAX < u128::MAX) by (nonlinear_arith)
                    requires
                        n <= usize::MAX && usize::MAX <= u64::MAX,
                ;
            }
            acc = acc + (self.0[i] as u128);
            i = i + 1;
        }
        proof {
            assert(s.take(n as int) =~= s);
            lemma_sum_bound(s);
            lemma_div_is_ordered(sum_of(s), (s.len() * u64::MAX) as int, s.len() as int);
            assert((s.len() * u64::MAX) as int / (s.len() as int) == u64::MAX) by {
                vstd::arithmetic::div_mod::lemma_div_by_multiple(
                    u64::MAX as int,
                    s.len() as int,
                );
                vstd::arithmetic::mul::lemma_mul_is_commutative(
                    u64::MAX as int,
                    s.len() as int,
                );
            }
        }
        (acc / (n as u128)) as u64
    }

    /// The sum of squared deviations from `avg`, or nothing if it cannot
    /// be represented in 128 bits.
    fn sq_dev_total(&self, avg: u64) -> (r: Option<u128>)
        ensures
            match r {
                Some(v) => v == sq_dev_sum(self@, avg as int),
                None => sq_dev_sum(self@, avg as int) > u128::MAX,
            },
    {
        let ghost s = self@;
        let n = self.0.len();
        let mut acc: u128 = 0;
        let mut i: usize = 0;
        while i < n
            invariant
                n == s.len(),
                s == self@,
                0 <= i <= n,
                acc == sq_dev_sum(s.take(i as int), avg as int),
            decreases n - i,
        {
            let v = self.0[i];
            let d: u64 = if v >= avg {
                v - avg
            } else {
                avg - v
            };
            proof {
                assert((d as int) * (d as int) <= (0xffff_ffff_ffff_ffffu64 as int)
                    * (0xffff_ffff_ffff_ffffu64 as int) < u128::MAX) by (nonlinear_arith)
                    requires
                        d <= 0xffff_ffff_ffff_ffffu64,
                ;
            }
            let dd: u128 = (d as u128) * (d as u128);
            proof {
                assert((d as int) * (d as int) == (s[i as int] - avg) * (s[i as int] - avg))
                    by (nonlinear_arith)
                    requires
                        d == if s[i as int] >= avg {
                            s[i as int] - avg
                        } else {
                            avg - s[i as int]
                        },
                ;
                assert(s.take(i + 1).drop_last() =~= s.take(i as int));
            }
            if acc > u128::MAX - dd {
                proof {
                    lemma_sq_dev_sum_prefix(s, avg as int, i + 1);
                }
                return None;
            }
            acc = acc + dd;
            i = i + 1;
        }
        proof {
            assert(s.take(n as int) =~= s);
        }
        Some(acc)
    }

    /// The population standard deviation about the rounded mean, rounded
    /// down: the floor square root of the variance. The squared deviations
    /// must fit their 128-bit accumulator — a machine limit, unreachable
    /// for realistic round-trip times.
    pub fn std_deviation(&self) -> (r: u64)
        requires
            self@.len() > 0,
            sq_dev_sum(self@, mean_of(self@)) <= u128::MAX,
        ensures
            (r as int) * (r as int) <= variance_of(self@),
            ((r as int) + 1) * ((r as int) + 1) > variance_of(self@),
    {
        let avg = self.mean();
        let total = match self.sq_dev_total(avg) {
            Some(t) => t,
            None => {
                proof {
                    assert(false);
                }
                0
            },
        };
        let variance = total / (self.0.len() as u128);
        proof {
            lemma_sq_dev_sum_prefix(self@, avg as int, 0);
            assert(self@.take(0) =~= Seq::<u64>::empty());
        }
        isqrt_u128(variance)
    }

    /// The end-of-stream summary, or nothing when no samples were
    /// collected.
    pub fn summary(&self) -> (r: Option<RttSummary>)
        ensures
            self@.len() == 0 <==> r is None,
            match r {
                Some(sm) => {
                    &&& sm.min == min_of(self@)
                    &&& sm.max == max_of(self@)
                    &&& sm.mean == mean_of(self@)
                    &&& match sm.std_dev {
                        Some(sd) => {
                            &&& sq_dev_sum(self@, mean_of(self@)) <= u128::MAX
                            &&& (sd as int) * (sd as int) <= variance_of(self@)
                            &&& ((sd as int) + 1) * ((sd as int) + 1) > variance_of(self@)
                        },
                        None => sq_dev_sum(self@, mean_of(self@)) > u128::MAX,
                    }
                },
                None => true,
            },
    {
        let ghost s = self@;
        let n = self.0.len();
        if n == 0 {
            return None;
        }
        let mut min: u64 = self.0[0];
        let mut max: u64 = self.0[0];
        let mut i: usize = 1;
        while i < n
            invariant
                n == s.len(),
                s == self@,
                1 <= i <= n,
                min == min_of(s.take(i as int)),
                max == max_of(s.take(i as int)),
            decreases n - i,
        {
            let v = self.0[i];
            proof {
                assert(s.take(i + 1).drop_last() =~= s.take(i as int));
                assert(s.take(i + 1).last() == s[i as int]);
            }
            if v < min {
                min = v;
            }
            if v > max {
                max = v;
            }
            i = i + 1;
        }
        proof {
            assert(s.take(n as int) =~= s);
        }
        let mean = self.mean();
        let std_dev = match self.sq_dev_total(mean) {
            Some(t) => {
                let variance = t / (n as u128);
                Some(isqrt_u128(variance))
            },
            None => None,
        };
        Some(RttSummary { min, max, mean, std_dev })
    }
}

} // verus!
