//! Duration-expanded sample buffer and nearest-rank percentiles.
use vstd::prelude::*;

verus! {

/// `val` limited to the range from `min` to `max`; `min` wins where they cross.
pub open spec fn clamp_spec(val: int, min: int, max: int) -> int {
    if val < min {
        min
    } else if val > max {
        max
    } else {
        val
    }
}

/// `val` limited to the range from `min` to `max`; `min` wins where they cross.
pub fn clamp(val: usize, min: usize, max: usize) -> (r: usize)
    ensures
        r == clamp_spec(val as int, min as int, max as int),
{
    if val < min {
        min
    } else if val > max {
        max
    } else {
        val
    }
}

/// Rank picked among `len` ascending samples for `percent` hundredths, the
/// nearest-rank rule: `len * percent / 100` plus one half, rounded to the
/// nearest integer with a half going upward, then limited to a valid
/// position. Adding a half and rounding so gives the whole part of
/// `len * percent / 100` plus one.
pub open spec fn percentile_index(len: int, percent: int) -> int {
    clamp_spec((len * percent) / 100 + 1, 0, len - 1)
}

/// Every sample is at most each later one.
pub open spec fn ascending(s: Seq<i64>) -> bool {
    forall|i: int, j: int| 0 <= i <= j < s.len() ==> s[i] <= s[j]
}

/// `seconds` copies of `value`.
pub open spec fn run(value: i64, seconds: nat) -> Seq<i64> {
    Seq::new(seconds, |i: int| value)
}

/// A larger fraction never picks an earlier rank.
pub proof fn lemma_percentile_index_monotone(len: int, p: int, q: int)
    requires
        len > 0,
        0 <= p <= q,
    ensures
        0 <= percentile_index(len, p) <= percentile_index(len, q) < len,
{
    let a = len * p;
    let b = len * q;
    assert(0 <= a <= b) by (nonlinear_arith)
        requires
            len > 0,
            0 <= p <= q,
            a == len * p,
            b == len * q,
    ;
    assert(0 <= a / 100 <= b / 100) by (nonlinear_arith)
        requires
            0 <= a <= b,
    ;
}

/// Among ascending samples a larger fraction never yields a smaller percentile.
pub proof fn lemma_percentile_monotone(samples: Seq<i64>, p: int, q: int)
    requires
        ascending(samples),
        samples.len() > 0,
        0 <= p <= q,
    ensures
        samples[percentile_index(samples.len() as int, p)] <= samples[percentile_index(
            samples.len() as int,
            q,
        )],
{
    lemma_percentile_index_monotone(samples.len() as int, p, q);
}

/// Why no percentile was returned.
#[derive(Debug, Clone, Copy, PartialEq, Eq, Structural)]
pub enum PercentileError {
    /// The fraction was above one hundred hundredths.
    OutOfRange,
}

/// What a percentile query answers on a buffer that is not empty, in the
/// order `s`: a refusal for a fraction above one hundred hundredths, else the
/// sample at the selected rank.
pub open spec fn ranked_spec(s: Seq<i64>, percent: int) -> Result<i64, PercentileError>
    recommends
        s.len() > 0,
{
    if percent > 100 {
        Err(PercentileError::OutOfRange)
    } else {
        Ok(s[percentile_index(s.len() as int, percent)])
    }
}

/// The five percentiles reported for a month.
#[derive(Debug, Clone, Copy, PartialEq, Eq, Structural)]
pub struct Percentiles {
    pub p05: i64,
    pub p25: i64,
    pub p50: i64,
    pub p75: i64,
    pub p95: i64,
}

/// The five reported percentiles of ascending samples; none of no samples.
pub open spec fn quantiles_of(s: Seq<i64>) -> Option<Percentiles> {
    if s.len() == 0 {
        None
    } else {
        Some(
            Percentiles {
                p05: s[percentile_index(s.len() as int, 5)],
                p25: s[percentile_index(s.len() as int, 25)],
                p50: s[percentile_index(s.len() as int, 50)],
                p75: s[percentile_index(s.len() as int, 75)],
                p95: s[percentile_index(s.len() as int, 95)],
            },
        )
    }
}

impl Percentiles {
    /// No reported percentile is below one for a smaller fraction.
    pub open spec fn ordered(self) -> bool {
        self.p05 <= self.p25 <= self.p50 <= self.p75 <= self.p95
    }
}

/// The five reported percentiles of ascending samples are themselves ascending.
pub proof fn lemma_quantiles_ordered(s: Seq<i64>)
    requires
        ascending(s),
        s.len() > 0,
    ensures
        quantiles_of(s) is Some,
        quantiles_of(s).unwrap().ordered(),
{
    lemma_percentile_monotone(s, 5, 25);
    lemma_percentile_monotone(s, 25, 50);
    lemma_percentile_monotone(s, 50, 75);
    lemma_percentile_monotone(s, 75, 95);
}

/// Calls `sort` of std's slices on the buffer. Trusted: afterwards the buffer
/// is in ascending order and holds the same samples, each as often as before.
#[verifier::external_body]
fn sort_samples(samples: &mut Vec<i64>)
    ensures
        ascending(final(samples)@),
        final(samples)@.to_multiset() == old(samples)@.to_multiset(),
{
    samples.sort();
}

/// One sample per elapsed second of one signal.
#[derive(Debug, Clone)]
pub struct Sampler {
    samples: Vec<i64>,
}

impl View for Sampler {
    type V = Seq<i64>;

    closed spec fn view(&self) -> Seq<i64> {
        self.samples@
    }
}

impl Sampler {
    /// An empty buffer.
    pub fn new() -> (s: Sampler)
        ensures
            s@ == Seq::<i64>::empty(),
    {
        Sampler { samples: Vec::new() }
    }

    /// Number of samples held.
    pub fn len(&self) -> (n: usize)
        ensures
            n == self@.len(),
    {
        self.samples.len()
    }

    /// Drops every sample.
    pub fn clear(&mut self)
        ensures
            final(self)@ == Seq::<i64>::empty(),
    {
        self.samples.clear();
    }

    /// The five reported percentiles of a buffer already in ascending order.
    pub fn quantiles(&self) -> (r: Option<Percentiles>)
        requires
            ascending(self@),
        ensures
            r == quantiles_of(self@),
            r matches Some(p) ==> p.ordered(),
    {
        let len: usize = self.samples.len();
        if len == 0 {
            return None;
        }
        proof {
            lemma_quantiles_ordered(self@);
        }
        Some(
            Percentiles {
                p05: self.samples[rank(len, 5)],
                p25: self.samples[rank(len, 25)],
                p50: self.samples[rank(len, 50)],
                p75: self.samples[rank(len, 75)],
                p95: self.samples[rank(len, 95)],
            },
        )
    }

    /// Appends `seconds` copies of `value`. Refuses, changing nothing, exactly
    /// when the buffer's length would no longer fit in `usize`.
    pub fn record(&mut self, value: i64, seconds: u64) -> (ok: bool)
        ensures
            ok <==> old(self)@.len() + seconds <= usize::MAX,
            ok ==> final(self)@ == old(self)@ + run(value, seconds as nat),
            !ok ==> final(self)@ == old(self)@,
    {
        let len: usize = self.samples.len();
        if seconds as u128 > (usize::MAX - len) as u128 {
            return false;
        }
        let target: usize = len + seconds as usize;
        if target > len {
            self.samples.resize(target, value);
        }
        proof {
            assert(self.samples@ =~= old(self)@ + run(value, seconds as nat));
        }
        true
    }

    /// Puts the buffer in ascending order, keeping every sample.
    pub fn sort(&mut self)
        ensures
            ascending(final(self)@),
            final(self)@.to_multiset() == old(self)@.to_multiset(),
            final(self)@.len() == old(self)@.len(),
    {
        sort_samples(&mut self.samples);
        proof {
            old(self)@.to_multiset_ensures();
            self.samples@.to_multiset_ensures();
        }
    }

    /// The sample at the rank that `percent` hundredths select, in the
    /// buffer's present order. To ask this of an empty buffer is the caller's
    /// error.
    pub fn ranked(&self, percent: u32) -> (r: Result<i64, PercentileError>)
        requires
            self@.len() > 0,
        ensures
            r == ranked_spec(self@, percent as int),
    {
        if percent > 100 {
            return Err(PercentileError::OutOfRange);
        }
        Ok(self.samples[rank(self.samples.len(), percent)])
    }

    /// Puts the buffer in ascending order and returns the sample at the rank
    /// that `percent` hundredths select. A refusal leaves the buffer as it
    /// was. To ask this of an empty buffer is the caller's error.
    pub fn percentile(&mut self, percent: u32) -> (r: Result<i64, PercentileError>)
        requires
            old(self)@.len() > 0,
        ensures
            r is Ok <==> percent <= 100,
            r is Err ==> final(self)@ == old(self)@ && r == ranked_spec(old(self)@, percent as int),
            r is Ok ==> ascending(final(self)@) && final(self)@.to_multiset() == old(
                self,
            )@.to_multiset(),
            r is Ok ==> r == ranked_spec(final(self)@, percent as int),
    {
        if percent > 100 {
            return Err(PercentileError::OutOfRange);
        }
        self.sort();
        self.ranked(percent)
    }
}

/// The rank that `percent` hundredths select among `len` ascending samples.
pub fn rank(len: usize, percent: u32) -> (i: usize)
    requires
        len > 0,
        percent <= 100,
    ensures
        i == percentile_index(len as int, percent as int),
        i < len,
{
    proof {
        lemma_percentile_index_monotone(len as int, percent as int, percent as int);
        assert(0 <= (len as int) * (percent as int) <= 100 * (len as int)) by (nonlinear_arith)
            requires
                len > 0,
                0 <= percent <= 100,
        ;
    }
    let scaled: u128 = (len as u128) * (percent as u128);
    let position: u128 = scaled / 100 + 1;
    let last: usize = len - 1;
    if position > last as u128 {
        clamp(len, 0, last)
    } else {
        clamp(position as usize, 0, last)
    }
}

} // verus!
