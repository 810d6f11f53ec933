//! Time weighting of successive rows and their grouping into calendar months.
use crate::derived::{cop_milli, cop_milli_spec, energy_wh, energy_wh_spec};
use crate::metric::{Metric, MetricView};
use crate::sampler::{ascending, quantiles_of, run, Percentiles, Sampler};
use crate::timestamp::{anomaly_of, gap_of, Anomaly, Timestamp};
use vstd::prelude::*;

verus! {

/// The tracked signals of one row, each in thousandths of its unit.
#[derive(Debug, Clone, Copy, PartialEq, Eq, Structural)]
pub struct Signals {
    pub outdoor: i64,
    pub room_set_0: i64,
    pub room_set_1: i64,
    pub room_temp_0: i64,
    pub room_temp_1: i64,
    pub electric_power: i64,
    pub heat_power: i64,
}

/// One parsed record of the log.
#[derive(Debug, Clone, Copy, PartialEq, Eq, Structural)]
pub struct Row {
    pub stamp: Timestamp,
    pub signals: Signals,
}

/// Mathematical content of one month's accumulators.
pub struct BucketView {
    pub month_key: int,
    /// Intervals credited, whatever their length.
    pub rows: nat,
    pub outdoor: MetricView,
    pub room_set_0: MetricView,
    pub room_set_1: MetricView,
    pub room_temp_0: MetricView,
    pub room_temp_1: MetricView,
    pub electric_power: MetricView,
    pub heat_power: MetricView,
    /// The outdoor temperature, once per credited second.
    pub samples: Seq<i64>,
}

impl BucketView {
    /// The accumulators of a month of which nothing is known yet.
    pub open spec fn fresh(month_key: int) -> BucketView {
        BucketView {
            month_key,
            rows: 0,
            outdoor: MetricView::empty(),
            room_set_0: MetricView::empty(),
            room_set_1: MetricView::empty(),
            room_temp_0: MetricView::empty(),
            room_temp_1: MetricView::empty(),
            electric_power: MetricView::empty(),
            heat_power: MetricView::empty(),
            samples: Seq::empty(),
        }
    }

    /// Seconds credited so far.
    pub open spec fn seconds(self) -> nat {
        self.outdoor.count
    }

    /// The accumulators after `signals` were in effect for `weight` seconds.
    /// An interval of no length counts as a row and changes nothing else.
    pub open spec fn credit(self, signals: Signals, weight: nat) -> BucketView {
        if weight == 0 {
            BucketView { rows: self.rows + 1, ..self }
        } else {
            BucketView {
                month_key: self.month_key,
                rows: self.rows + 1,
                outdoor: self.outdoor.credit(signals.outdoor as int, weight),
                room_set_0: self.room_set_0.credit(signals.room_set_0 as int, weight),
                room_set_1: self.room_set_1.credit(signals.room_set_1 as int, weight),
                room_temp_0: self.room_temp_0.credit(signals.room_temp_0 as int, weight),
                room_temp_1: self.room_temp_1.credit(signals.room_temp_1 as int, weight),
                electric_power: self.electric_power.credit(signals.electric_power as int, weight),
                heat_power: self.heat_power.credit(signals.heat_power as int, weight),
                samples: self.samples + run(signals.outdoor, weight),
            }
        }
    }

    /// Whether one more interval of `weight` seconds fits the counters.
    pub open spec fn has_room(self, weight: nat) -> bool {
        &&& self.rows + 1 <= u64::MAX
        &&& self.seconds() + weight <= u64::MAX
        &&& self.seconds() + weight <= usize::MAX
    }

    /// Every accumulator is well formed and has been credited the same seconds,
    /// one sample each.
    pub open spec fn wf(self) -> bool {
        &&& i64::MIN <= self.month_key <= i64::MAX
        &&& self.rows <= u64::MAX
        &&& self.outdoor.wf()
        &&& self.room_set_0.wf()
        &&& self.room_set_1.wf()
        &&& self.room_temp_0.wf()
        &&& self.room_temp_1.wf()
        &&& self.electric_power.wf()
        &&& self.heat_power.wf()
        &&& self.room_set_0.count == self.outdoor.count
        &&& self.room_set_1.count == self.outdoor.count
        &&& self.room_temp_0.count == self.outdoor.count
        &&& self.room_temp_1.count == self.outdoor.count
        &&& self.electric_power.count == self.outdoor.count
        &&& self.heat_power.count == self.outdoor.count
        &&& self.samples.len() == self.outdoor.count
    }
}

/// The finished report of one month.
#[derive(Debug, Clone)]
pub struct Summary {
    pub month_key: i64,
    /// Intervals credited to the month.
    pub rows: u64,
    /// Seconds credited to the month.
    pub seconds: u64,
    pub outdoor: Metric,
    pub room_set_0: Metric,
    pub room_set_1: Metric,
    pub room_temp_0: Metric,
    pub room_temp_1: Metric,
    pub electric_power: Metric,
    pub heat_power: Metric,
    /// Electrical energy in watt-hours.
    pub electric_wh: i128,
    /// Heat energy in watt-hours.
    pub heat_wh: i128,
    /// Heat energy per electrical energy, in thousandths.
    pub cop_milli: Option<i128>,
    /// The outdoor temperature once per second, ascending.
    pub samples: Sampler,
    pub percentiles: Option<Percentiles>,
}

/// Whether an executable ratio is the mathematical one.
pub open spec fn same_ratio(got: Option<i128>, want: Option<int>) -> bool {
    match (got, want) {
        (Some(g), Some(w)) => g as int == w,
        (None, None) => true,
        _ => false,
    }
}

impl Summary {
    /// Whether this report is the one owed for the accumulators `b`.
    pub open spec fn describes(&self, b: BucketView) -> bool {
        &&& self.month_key == b.month_key
        &&& self.rows == b.rows
        &&& self.seconds == b.seconds()
        &&& self.outdoor@ == b.outdoor
        &&& self.room_set_0@ == b.room_set_0
        &&& self.room_set_1@ == b.room_set_1
        &&& self.room_temp_0@ == b.room_temp_0
        &&& self.room_temp_1@ == b.room_temp_1
        &&& self.electric_power@ == b.electric_power
        &&& self.heat_power@ == b.heat_power
        &&& self.electric_wh == energy_wh_spec(b.electric_power.sum)
        &&& self.heat_wh == energy_wh_spec(b.heat_power.sum)
        &&& same_ratio(self.cop_milli, cop_milli_spec(b.heat_power.sum, b.electric_power.sum))
        &&& ascending(self.samples@)
        &&& self.samples@.to_multiset() == b.samples.to_multiset()
        &&& self.percentiles == quantiles_of(self.samples@)
    }

    /// Accumulators well formed, and the percentiles in ascending order.
    pub open spec fn wf(&self) -> bool {
        &&& self.outdoor.wf()
        &&& self.room_set_0.wf()
        &&& self.room_set_1.wf()
        &&& self.room_temp_0.wf()
        &&& self.room_temp_1.wf()
        &&& self.electric_power.wf()
        &&& self.heat_power.wf()
        &&& self.percentiles is Some <==> self.seconds > 0
        &&& self.percentiles matches Some(p) ==> p.ordered()
    }
}

struct Bucket {
    month_key: i64,
    rows: u64,
    outdoor: Metric,
    room_set_0: Metric,
    room_set_1: Metric,
    room_temp_0: Metric,
    room_temp_1: Metric,
    electric_power: Metric,
    heat_power: Metric,
    samples: Sampler,
}

impl View for Bucket {
    type V = BucketView;

    closed spec fn view(&self) -> BucketView {
        BucketView {
            month_key: self.month_key as int,
            rows: self.rows as nat,
            outdoor: self.outdoor@,
            room_set_0: self.room_set_0@,
            room_set_1: self.room_set_1@,
            room_temp_0: self.room_temp_0@,
            room_temp_1: self.room_temp_1@,
            electric_power: self.electric_power@,
            heat_power: self.heat_power@,
            samples: self.samples@,
        }
    }
}

impl Bucket {
    fn new(month_key: i64) -> (b: Bucket)
        ensures
            b@ == BucketView::fresh(month_key as int),
            b@.wf(),
    {
        Bucket {
            month_key,
            rows: 0,
            outdoor: Metric::new(),
            room_set_0: Metric::new(),
            room_set_1: Metric::new(),
            room_temp_0: Metric::new(),
            room_temp_1: Metric::new(),
            electric_power: Metric::new(),
            heat_power: Metric::new(),
            samples: Sampler::new(),
        }
    }

    fn has_room(&self, weight: u64) -> (b: bool)
        requires
            self@.wf(),
        ensures
            b == self@.has_room(weight as nat),
    {
        let seconds: u64 = self.outdoor.count();
        self.rows < u64::MAX && weight <= u64::MAX - seconds && (seconds as u128) + (
        weight as u128) <= usize::MAX as u128
    }

    fn credit(&mut self, signals: &Signals, weight: u64)
        requires
            old(self)@.wf(),
            old(self)@.has_room(weight as nat),
        ensures
            final(self)@ == old(self)@.credit(*signals, weight as nat),
            final(self)@.wf(),
    {
        self.rows = self.rows + 1;
        if weight > 0 {
            let _ = self.outdoor.credit(signals.outdoor, weight);
            let _ = self.room_set_0.credit(signals.room_set_0, weight);
            let _ = self.room_set_1.credit(signals.room_set_1, weight);
            let _ = self.room_temp_0.credit(signals.room_temp_0, weight);
            let _ = self.room_temp_1.credit(signals.room_temp_1, weight);
            let _ = self.electric_power.credit(signals.electric_power, weight);
            let _ = self.heat_power.credit(signals.heat_power, weight);
            let _ = self.samples.record(signals.outdoor, weight);
        }
    }

    fn summarize(self) -> (s: Summary)
        requires
            self@.wf(),
        ensures
            s.describes(self@),
            s.wf(),
    {
        let mut samples = self.samples;
        samples.sort();
        let percentiles = samples.quantiles();
        let electric: i128 = self.electric_power.sum();
        let heat: i128 = self.heat_power.sum();
        Summary {
            month_key: self.month_key,
            rows: self.rows,
            seconds: self.outdoor.count(),
            outdoor: self.outdoor,
            room_set_0: self.room_set_0,
            room_set_1: self.room_set_1,
            room_temp_0: self.room_temp_0,
            room_temp_1: self.room_temp_1,
            electric_power: self.electric_power,
            heat_power: self.heat_power,
            electric_wh: energy_wh(electric),
            heat_wh: energy_wh(heat),
            cop_milli: cop_milli(heat, electric),
            samples,
            percentiles,
        }
    }
}

/// Mathematical content of an [`Engine`].
pub enum EngineView {
    /// No row has been accepted.
    Empty,
    /// A month is open; `previous` is the last row accepted, whose values are
    /// in effect until the next one.
    Accumulating { bucket: BucketView, previous: Row },
}

impl EngineView {
    /// The open month is that of the last row, and its accumulators are well
    /// formed.
    pub open spec fn wf(self) -> bool {
        match self {
            EngineView::Empty => true,
            EngineView::Accumulating { bucket, previous } => bucket.wf() && bucket.month_key
                == previous.stamp.key(),
        }
    }

    /// Whether the counters have room for the interval that `row` closes.
    pub open spec fn accepts(self, row: Row) -> bool {
        match self {
            EngineView::Empty => true,
            EngineView::Accumulating { bucket, previous } => bucket.has_room(
                gap_of(previous.stamp, row.stamp),
            ),
        }
    }

    /// What is wrong with the stretch from the last row accepted to `row`.
    pub open spec fn anomaly(self, row: Row) -> Option<Anomaly> {
        match self {
            EngineView::Empty => None,
            EngineView::Accumulating { bucket, previous } => anomaly_of(previous.stamp, row.stamp),
        }
    }

    /// The state after `row`, and the month that `row` closes, if any.
    ///
    /// The first row only opens its month. Every later row closes the interval
    /// since the row before. That interval, as long as [`gap_of`] takes it to
    /// be, is credited with the earlier row's values to the open month, which
    /// is the earlier row's month. A row of another month then closes the open
    /// month, which is reported unless no second was credited to it, and opens
    /// its own.
    pub open spec fn step(self, row: Row) -> (EngineView, Option<BucketView>) {
        match self {
            EngineView::Empty => (
                EngineView::Accumulating {
                    bucket: BucketView::fresh(row.stamp.key()),
                    previous: row,
                },
                None,
            ),
            EngineView::Accumulating { bucket, previous } => {
                let credited = bucket.credit(previous.signals, gap_of(previous.stamp, row.stamp));
                if row.stamp.key() == bucket.month_key {
                    (EngineView::Accumulating { bucket: credited, previous: row }, None)
                } else {
                    (
                        EngineView::Accumulating {
                            bucket: BucketView::fresh(row.stamp.key()),
                            previous: row,
                        },
                        if credited.seconds() > 0 {
                            Some(credited)
                        } else {
                            None
                        },
                    )
                }
            },
        }
    }

    /// The month still open, which the end of the stream closes.
    pub open spec fn flush(self) -> Option<BucketView> {
        match self {
            EngineView::Empty => None,
            EngineView::Accumulating { bucket, previous } => Some(bucket),
        }
    }
}

/// Whether a report, or its absence, is what is owed for `want`.
pub open spec fn reports(got: Option<Summary>, want: Option<BucketView>) -> bool {
    match (got, want) {
        (Some(s), Some(b)) => s.describes(b) && s.wf(),
        (None, None) => true,
        _ => false,
    }
}

/// Why a row was refused.
#[derive(Debug, Clone, Copy, PartialEq, Eq, Structural)]
pub enum EngineError {
    /// The open month's counters have no room for the interval.
    Overflow,
}

/// What accepting a row brought about.
#[derive(Debug, Clone)]
pub struct Pushed {
    /// The month that the row closed, where it closed one worth reporting.
    pub emitted: Option<Summary>,
    /// What was wrong with the stretch that the row closed, if anything.
    pub anomaly: Option<Anomaly>,
}

struct Open {
    bucket: Bucket,
    previous: Row,
}

/// The aggregation session: the open month and the row last seen.
pub struct Engine {
    open: Option<Open>,
}

impl View for Engine {
    type V = EngineView;

    closed spec fn view(&self) -> EngineView {
        match self.open {
            None => EngineView::Empty,
            Some(o) => EngineView::Accumulating { bucket: o.bucket@, previous: o.previous },
        }
    }
}

impl Engine {
    /// The invariant that `new` establishes and `push` keeps.
    pub open spec fn wf(&self) -> bool {
        self@.wf()
    }

    /// A session that has seen no row.
    pub fn new() -> (e: Engine)
        ensures
            e@ == EngineView::Empty,
            e.wf(),
    {
        Engine { open: None }
    }

    /// Accepts the next row of the stream. A refusal changes nothing.
    pub fn push(&mut self, row: Row) -> (r: Result<Pushed, EngineError>)
        requires
            old(self).wf(),
        ensures
            final(self).wf(),
            r is Ok <==> old(self)@.accepts(row),
            r is Err ==> final(self)@ == old(self)@,
            r matches Ok(p) ==> {
                &&& final(self)@ == old(self)@.step(row).0
                &&& reports(p.emitted, old(self)@.step(row).1)
                &&& p.anomaly == old(self)@.anomaly(row)
            },
    {
        let key: i64 = row.stamp.month_key();
        let state = self.open.take();
        match state {
            None => {
                self.open = Some(Open { bucket: Bucket::new(key), previous: row });
                Ok(Pushed { emitted: None, anomaly: None })
            },
            Some(o) => {
                let Open { bucket, previous } = o;
                let mut bucket = bucket;
                let weight: u64 = previous.stamp.gap_to(&row.stamp);
                let anomaly = previous.stamp.anomaly_to(&row.stamp);
                if !bucket.has_room(weight) {
                    self.open = Some(Open { bucket, previous });
                    return Err(EngineError::Overflow);
                }
                bucket.credit(&previous.signals, weight);
                if key == bucket.month_key {
                    self.open = Some(Open { bucket, previous: row });
                    Ok(Pushed { emitted: None, anomaly })
                } else {
                    let emitted = if bucket.outdoor.count() > 0 {
                        Some(bucket.summarize())
                    } else {
                        None
                    };
                    self.open = Some(Open { bucket: Bucket::new(key), previous: row });
                    Ok(Pushed { emitted, anomaly })
                }
            },
        }
    }

    /// Ends the stream: reports the month still open, however little was
    /// credited to it; nothing where no row was ever accepted.
    pub fn finish(self) -> (r: Option<Summary>)
        requires
            self.wf(),
        ensures
            reports(r, self@.flush()),
    {
        match self.open {
            None => None,
            Some(o) => Some(o.bucket.summarize()),
        }
    }
}

} // verus!
