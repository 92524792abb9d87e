//! Latency statistics: the 95th percentile of recorded samples.

use vstd::prelude::*;

verus! {

/// `s` is in non-decreasing order.
pub open spec fn sorted_asc(s: Seq<u64>) -> bool {
    forall|i: int, j: int| 0 <= i <= j < s.len() ==> s[i] <= s[j]
}

/// The nearest rank of the 95th percentile among `n` samples:
/// `ceil(n * 95 / 100)`.
pub open spec fn nearest_rank(n: nat) -> nat {
    (n * 95 + 99) / 100
}

/// The 95th percentile of `samples` by the nearest-rank method: the sample
/// at rank `ceil(n * 95 / 100)` in ascending order; 0 when there are none.
pub open spec fn is_p95(samples: Seq<u64>, r: u64) -> bool {
    if samples.len() == 0 {
        r == 0
    } else {
        exists|t: Seq<u64>|
            #![trigger sorted_asc(t)]
            sorted_asc(t) && t.to_multiset() == samples.to_multiset() && r == t[nearest_rank(
                samples.len(),
            ) - 1]
    }
}

/// Wraps `slice::sort_unstable`: the same values, in ascending order.
#[verifier::external_body]
fn sort_ascending(v: &mut Vec<u64>)
    ensures
        sorted_asc(final(v)@),
        final(v)@.to_multiset() == old(v)@.to_multiset(),
{
    v.sort_unstable();
}

/// Accumulates millisecond samples and reports their 95th percentile.
#[derive(Debug)]
pub struct P95Accumulator {
    samples_ms: Vec<u64>,
}

impl P95Accumulator {
    /// The samples recorded so far, in recording order.
    pub closed spec fn samples(&self) -> Seq<u64> {
        self.samples_ms@
    }

    /// An accumulator with no samples.
    pub fn new() -> (a: Self)
        ensures
            a.samples() == Seq::<u64>::empty(),
    {
        P95Accumulator { samples_ms: Vec::new() }
    }

    /// Append `samples_ms` to the recorded samples.
    pub fn record_many(&mut self, samples_ms: Vec<u64>)
        ensures
            final(self).samples() == old(self).samples() + samples_ms@,
    {
        let mut i: usize = 0;
        let ghost start = self.samples_ms@;
        while i < samples_ms.len()
            invariant
                i <= samples_ms@.len(),
                self.samples_ms@ == start + samples_ms@.take(i as int),
            decreases samples_ms@.len() - i,
        {
            self.samples_ms.push(samples_ms[i]);
            assert(samples_ms@.take(i as int + 1) =~= samples_ms@.take(i as int).push(samples_ms@[i as int]));
            i = i + 1;
        }
        assert(samples_ms@.take(samples_ms@.len() as int) =~= samples_ms@);
    }

    /// The 95th percentile by the nearest-rank method; 0 with no samples.
    pub fn p95_ms(&self) -> (r: u64)
        requires
            self.samples().len() * 95 + 99 <= usize::MAX,
        ensures
            is_p95(self.samples(), r),
    {
        if self.samples_ms.len() == 0 {
            return 0;
        }
        let mut sorted = self.samples_ms.clone();
        sort_ascending(&mut sorted);
        proof {
            sorted@.to_multiset_ensures();
            self.samples_ms@.to_multiset_ensures();
        }
        let n = sorted.len();
        let rank = (n * 95 + 99) / 100;
        assert(rank >= 1);
        assert(rank <= n);
        let r = sorted[rank - 1];
        assert(sorted_asc(sorted@));
        r
    }
}

impl Default for P95Accumulator {
    fn default() -> (a: Self)
        ensures
            a.samples() == Seq::<u64>::empty(),
    {
        Self::new()
    }
}

} // verus!
