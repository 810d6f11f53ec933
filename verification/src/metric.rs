//! Running statistic of one signal: weight, weighted sum, minimum, maximum.
use crate::decimal::{decimal_value, parse_decimal};
use vstd::prelude::*;
use vstd::string::StringSliceAdditionalSpecFns;

verus! {

/// Why an update was refused.
#[derive(Debug, Clone, Copy, PartialEq, Eq, Structural)]
pub enum MetricError {
    /// The text is no decimal.
    NotANumber,
    /// The weight was zero: a value held for no time carries no information.
    ZeroWeight,
    /// The total weight would no longer fit in 64 bits.
    Overflow,
}

/// Mathematical content of a [`Metric`].
pub struct MetricView {
    pub count: nat,
    pub sum: int,
    pub min: int,
    pub max: int,
}

impl MetricView {
    /// The statistic of no samples at all.
    pub open spec fn empty() -> MetricView {
        MetricView { count: 0, sum: 0, min: i64::MAX as int, max: i64::MIN as int }
    }

    /// The statistic after `value` was in effect for `weight` more units.
    pub open spec fn credit(self, value: int, weight: nat) -> MetricView {
        MetricView {
            count: self.count + weight,
            sum: self.sum + weight * value,
            min: if value < self.min { value } else { self.min },
            max: if value > self.max { value } else { self.max },
        }
    }

    /// Weighted mean, rounded toward negative infinity.
    pub open spec fn avg(self) -> int
        recommends
            self.count > 0,
    {
        self.sum / (self.count as int)
    }

    /// Either empty, or the extremes enclose every sample and hence the sum.
    pub open spec fn wf(self) -> bool {
        &&& self.count <= u64::MAX
        &&& i64::MIN <= self.min <= i64::MAX
        &&& i64::MIN <= self.max <= i64::MAX
        &&& self.count == 0 ==> self == Self::empty()
        &&& self.count > 0 ==> {
            &&& self.min <= self.max
            &&& self.min * self.count <= self.sum <= self.max * self.count
        }
    }
}

/// Crediting a well-formed statistic with a positive weight keeps it well formed.
pub proof fn lemma_credit_wf(m: MetricView, value: int, weight: nat)
    requires
        m.wf(),
        i64::MIN <= value <= i64::MAX,
        weight > 0,
        m.count + weight <= u64::MAX,
    ensures
        m.credit(value, weight).wf(),
{
    let n = m.credit(value, weight);
    let c = m.count as int;
    let w = weight as int;
    assert(n.min * (c + w) == n.min * c + n.min * w) by (nonlinear_arith);
    assert(n.max * (c + w) == n.max * c + n.max * w) by (nonlinear_arith);
    assert(n.min * w <= value * w) by (nonlinear_arith)
        requires
            n.min <= value,
            w > 0,
    ;
    assert(value * w <= n.max * w) by (nonlinear_arith)
        requires
            value <= n.max,
            w > 0,
    ;
    assert(w * value == value * w) by (nonlinear_arith);
    if c > 0 {
        assert(n.min * c <= m.min * c) by (nonlinear_arith)
            requires
                n.min <= m.min,
                c > 0,
        ;
        assert(m.max * c <= n.max * c) by (nonlinear_arith)
            requires
                m.max <= n.max,
                c > 0,
        ;
    } else {
        assert(n.min * c == 0) by (nonlinear_arith)
            requires
                c == 0,
        ;
        assert(n.max * c == 0) by (nonlinear_arith)
            requires
                c == 0,
        ;
    }
}

/// For a non-empty well-formed statistic the mean lies between the extremes.
pub proof fn lemma_avg_bounds(m: MetricView)
    requires
        m.wf(),
        m.count > 0,
    ensures
        m.min <= m.avg() <= m.max,
{
    let c = m.count as int;
    let q = m.sum / c;
    assert(m.min <= q && q <= m.max) by (nonlinear_arith)
        requires
            c > 0,
            m.min * c <= m.sum <= m.max * c,
            q == m.sum / c,
    ;
}

/// A well-formed statistic's sum fits in 128 bits.
pub proof fn lemma_sum_fits(m: MetricView)
    requires
        m.wf(),
    ensures
        -0x7fff_ffff_ffff_ffff_8000_0000_0000_0000 <= m.sum <= 0x7fff_ffff_ffff_ffff_8000_0000_0000_0000,
{
    let c = m.count as int;
    if c > 0 {
        assert(m.min * c >= -0x8000_0000_0000_0000 * 0xffff_ffff_ffff_ffff) by (nonlinear_arith)
            requires
                m.min >= -0x8000_0000_0000_0000,
                0 < c <= 0xffff_ffff_ffff_ffff,
        ;
        assert(m.max * c <= 0x8000_0000_0000_0000 * 0xffff_ffff_ffff_ffff) by (nonlinear_arith)
            requires
                m.max <= 0x8000_0000_0000_0000,
                0 < c <= 0xffff_ffff_ffff_ffff,
        ;
    }
}

/// Whether a statistic takes `weight` more units, and why not.
pub open spec fn credit_outcome(m: MetricView, weight: nat) -> Result<(), MetricError> {
    if weight == 0 {
        Err(MetricError::ZeroWeight)
    } else if m.count + weight > u64::MAX {
        Err(MetricError::Overflow)
    } else {
        Ok(())
    }
}

/// Whether a statistic takes the decimal `text` with `weight`, and why not.
pub open spec fn add_outcome(m: MetricView, text: Seq<u8>, weight: nat) -> Result<(), MetricError> {
    if decimal_value(text) is None {
        Err(MetricError::NotANumber)
    } else {
        credit_outcome(m, weight)
    }
}

/// An accumulator that was reset is the same value as a new one, so no read
/// can tell the two apart.
pub proof fn lemma_reset_like_new(reset: Metric, fresh: Metric)
    requires
        reset@ == MetricView::empty(),
        fresh@ == MetricView::empty(),
    ensures
        reset == fresh,
        reset.wf(),
{
}

/// Quotient of `n` by a positive `d`, rounded toward negative infinity.
pub fn floor_div(n: i128, d: u128) -> (q: i128)
    requires
        d > 0,
    ensures
        q == n as int / d as int,
{
    if n >= 0 {
        let q: u128 = (n as u128) / d;
        q as i128
    } else {
        let m: u128 = (-(n + 1)) as u128;
        let k: u128 = m / d;
        proof {
            let ni = n as int;
            let di = d as int;
            let mi = m as int;
            let ki = k as int;
            assert(ni == -(mi + 1));
            assert(ni / di == -ki - 1) by (nonlinear_arith)
                requires
                    di > 0,
                    mi >= 0,
                    ki == mi / di,
                    ni == -(mi + 1),
            ;
        }
        -(k as i128) - 1
    }
}

/// Count, weighted sum, minimum and maximum of the samples seen so far.
#[derive(Debug, Clone, Copy)]
pub struct Metric {
    min: i64,
    max: i64,
    count: u64,
    sum: i128,
}

impl View for Metric {
    type V = MetricView;

    closed spec fn view(&self) -> MetricView {
        MetricView {
            count: self.count as nat,
            sum: self.sum as int,
            min: self.min as int,
            max: self.max as int,
        }
    }
}

impl Metric {
    /// The invariant every constructor establishes and every method keeps.
    pub open spec fn wf(&self) -> bool {
        self@.wf()
    }

    /// An accumulator that has seen nothing.
    pub fn new() -> (m: Metric)
        ensures
            m@ == MetricView::empty(),
            m.wf(),
    {
        Metric { min: i64::MAX, max: i64::MIN, count: 0, sum: 0 }
    }

    /// Forgets every sample.
    pub fn reset(&mut self)
        ensures
            final(self)@ == MetricView::empty(),
            final(self).wf(),
    {
        self.min = i64::MAX;
        self.max = i64::MIN;
        self.count = 0;
        self.sum = 0;
    }

    fn update_min_max(&mut self, val: i64)
        ensures
            final(self)@ == (MetricView {
                min: if val < old(self)@.min { val as int } else { old(self)@.min },
                max: if val > old(self)@.max { val as int } else { old(self)@.max },
                ..old(self)@
            }),
    {
        if val < self.min {
            self.min = val;
        }
        if val > self.max {
            self.max = val;
        }
    }

    /// Credits `value` as having been in effect for `weight` units. A refusal
    /// changes nothing.
    pub fn credit(&mut self, value: i64, weight: u64) -> (r: Result<(), MetricError>)
        requires
            old(self).wf(),
        ensures
            final(self).wf(),
            r == credit_outcome(old(self)@, weight as nat),
            r is Ok ==> final(self)@ == old(self)@.credit(value as int, weight as nat),
            r is Err ==> final(self)@ == old(self)@,
    {
        if weight == 0 {
            return Err(MetricError::ZeroWeight);
        }
        if weight > u64::MAX - self.count {
            return Err(MetricError::Overflow);
        }
        proof {
            lemma_credit_wf(self@, value as int, weight as nat);
            lemma_sum_fits(self@);
            lemma_sum_fits(self@.credit(value as int, weight as nat));
            assert(-0x8000_0000_0000_0000 * 0xffff_ffff_ffff_ffff <= (weight as int) * (value as int)
                <= 0x8000_0000_0000_0000 * 0xffff_ffff_ffff_ffff) by (nonlinear_arith)
                requires
                    0 < weight as int <= 0xffff_ffff_ffff_ffff,
                    -0x8000_0000_0000_0000 <= value as int <= 0x8000_0000_0000_0000,
            ;
        }
        let scaled: i128 = (weight as i128) * (value as i128);
        self.count = self.count + weight;
        self.sum = self.sum + scaled;
        self.update_min_max(value);
        Ok(())
    }

    /// Credits the decimal that `val` writes, in thousandths, with weight one.
    pub fn add(&mut self, val: &str) -> (r: Result<(), MetricError>)
        requires
            old(self).wf(),
        ensures
            final(self).wf(),
            r == add_outcome(old(self)@, val.spec_bytes(), 1),
            r is Ok ==> final(self)@ == old(self)@.credit(
                decimal_value(val.spec_bytes()).unwrap(),
                1,
            ),
            r is Err ==> final(self)@ == old(self)@,
    {
        self.add_times(val, 1)
    }

    /// Credits the decimal that `val` writes, in thousandths, as having been
    /// in effect for `count` units. A refusal changes nothing.
    pub fn add_times(&mut self, val: &str, count: u64) -> (r: Result<(), MetricError>)
        requires
            old(self).wf(),
        ensures
            final(self).wf(),
            r == add_outcome(old(self)@, val.spec_bytes(), count as nat),
            r is Ok ==> final(self)@ == old(self)@.credit(
                decimal_value(val.spec_bytes()).unwrap(),
                count as nat,
            ),
            r is Err ==> final(self)@ == old(self)@,
    {
        match parse_decimal(val.as_bytes()) {
            None => Err(MetricError::NotANumber),
            Some(v) => self.credit(v, count),
        }
    }

    /// Weighted mean, rounded toward negative infinity.
    pub fn avg(&self) -> (r: i64)
        requires
            self.wf(),
            self@.count > 0,
        ensures
            r == self@.avg(),
            self@.min <= r <= self@.max,
    {
        proof {
            lemma_avg_bounds(self@);
        }
        let q: i128 = floor_div(self.sum, self.count as u128);
        q as i64
    }

    /// Weighted sum of the samples.
    pub fn sum(&self) -> (r: i128)
        ensures
            r == self@.sum,
    {
        self.sum
    }

    /// Smallest sample, or `i64::MAX` when empty.
    pub fn min(&self) -> (r: i64)
        ensures
            r == self@.min,
    {
        self.min
    }

    /// Largest sample, or `i64::MIN` when empty.
    pub fn max(&self) -> (r: i64)
        ensures
            r == self@.max,
    {
        self.max
    }

    /// Total weight of the samples.
    pub fn count(&self) -> (r: u64)
        ensures
            r == self@.count,
    {
        self.count
    }
}

} // verus!
