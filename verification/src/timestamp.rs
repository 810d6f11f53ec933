//! Naive calendar timestamps, reduced to what the aggregation reads.
use chrono::Datelike;
use vstd::prelude::*;

verus! {

/// A date and time without time zone: its calendar year and month, and the
/// whole seconds between 1970-01-01 00:00:00 and it.
#[derive(Debug, Clone, Copy, PartialEq, Eq, Structural)]
pub struct Timestamp {
    pub year: i32,
    pub month: u32,
    pub seconds: i64,
}

/// Integer that identifies a calendar month: `year * 100 + month`.
pub open spec fn month_key_of(year: int, month: int) -> int {
    year * 100 + month
}

/// Longest stretch, in seconds, for which a row's values are taken to hold:
/// one day. A longer one is a gap in the log.
pub const MAX_GAP_SECONDS: u64 = 86_400;

/// What is wrong with the stretch between two consecutive rows.
#[derive(Debug, Clone, Copy, PartialEq, Eq, Structural)]
pub enum Anomaly {
    /// The later row is stamped before the earlier; nothing is credited.
    Backward,
    /// The stretch exceeds [`MAX_GAP_SECONDS`]; only that much is credited.
    Overlong,
}

/// Seconds credited to the stretch from `earlier` to `later`: their
/// difference, limited to the range from nothing to [`MAX_GAP_SECONDS`].
pub open spec fn gap_of(earlier: Timestamp, later: Timestamp) -> nat {
    if later.seconds <= earlier.seconds {
        0
    } else if later.seconds - earlier.seconds > MAX_GAP_SECONDS {
        MAX_GAP_SECONDS as nat
    } else {
        (later.seconds - earlier.seconds) as nat
    }
}

/// What is wrong with the stretch from `earlier` to `later`, if anything.
pub open spec fn anomaly_of(earlier: Timestamp, later: Timestamp) -> Option<Anomaly> {
    if later.seconds < earlier.seconds {
        Some(Anomaly::Backward)
    } else if later.seconds - earlier.seconds > MAX_GAP_SECONDS {
        Some(Anomaly::Overlong)
    } else {
        None
    }
}

impl Timestamp {
    /// The month is one of the twelve.
    pub open spec fn wf(&self) -> bool {
        1 <= self.month <= 12
    }

    /// The key of this timestamp's calendar month.
    pub open spec fn key(&self) -> int {
        month_key_of(self.year as int, self.month as int)
    }

    /// The key of this timestamp's calendar month.
    pub fn month_key(&self) -> (k: i64)
        ensures
            k == self.key(),
    {
        (self.year as i64) * 100 + (self.month as i64)
    }

    /// What is wrong with the stretch from `self` to `later`, if anything.
    pub fn anomaly_to(&self, later: &Timestamp) -> (a: Option<Anomaly>)
        ensures
            a == anomaly_of(*self, *later),
    {
        if later.seconds < self.seconds {
            Some(Anomaly::Backward)
        } else if (later.seconds as i128) - (self.seconds as i128) > MAX_GAP_SECONDS as i128 {
            Some(Anomaly::Overlong)
        } else {
            None
        }
    }

    /// Seconds credited to the stretch from `self` to `later`.
    pub fn gap_to(&self, later: &Timestamp) -> (g: u64)
        ensures
            g == gap_of(*self, *later),
    {
        if later.seconds <= self.seconds {
            0
        } else {
            let d: i128 = (later.seconds as i128) - (self.seconds as i128);
            if d > MAX_GAP_SECONDS as i128 {
                MAX_GAP_SECONDS
            } else {
                d as u64
            }
        }
    }
}

/// Two valid timestamps have the same key exactly when they lie in the same
/// calendar month.
pub proof fn lemma_month_key_injective(a: Timestamp, b: Timestamp)
    requires
        a.wf(),
        b.wf(),
    ensures
        a.key() == b.key() <==> (a.year == b.year && a.month == b.month),
{
}

/// What chrono's `NaiveDateTime::parse_from_str` makes of a text under the
/// pattern `%d.%m.%Y %H:%M:%S`, reduced to a [`Timestamp`]; `None` where the
/// text is not UTF-8 or does not match.
pub uninterp spec fn parsed_timestamp(text: Seq<u8>) -> Option<Timestamp>;

/// Calls chrono's `NaiveDateTime::parse_from_str` with the pattern
/// `%d.%m.%Y %H:%M:%S`, then its `year`, `month` and `and_utc().timestamp()`.
/// Trusted: the result depends on the text alone, and a parsed month lies
/// between 1 and 12.
#[verifier::external_body]
pub(crate) fn parse_timestamp(text: &[u8]) -> (r: Option<Timestamp>)
    ensures
        r == parsed_timestamp(text@),
        r matches Some(t) ==> t.wf(),
{
    let s = std::str::from_utf8(text).ok()?;
    let dt = chrono::NaiveDateTime::parse_from_str(s, "%d.%m.%Y %H:%M:%S").ok()?;
    Some(Timestamp { year: dt.year(), month: dt.month(), seconds: dt.and_utc().timestamp() })
}

} // verus!
