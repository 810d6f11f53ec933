//! A whole stream of rows: what it reports, and what holds of every stream.
use crate::engine::{BucketView, Engine, EngineError, EngineView, Row, Summary};
use crate::timestamp::{anomaly_of, gap_of, Anomaly};
use vstd::prelude::*;

verus! {

/// The state after all of `rows`, and the months closed on the way, in order.
pub open spec fn run_rows(rows: Seq<Row>) -> (EngineView, Seq<BucketView>)
    decreases rows.len(),
{
    if rows.len() == 0 {
        (EngineView::Empty, Seq::empty())
    } else {
        let before = run_rows(rows.drop_last());
        let next = before.0.step(rows.last());
        (
            next.0,
            match next.1 {
                Some(b) => before.1.push(b),
                None => before.1,
            },
        )
    }
}

/// Every month reported for the stream `rows`: those closed on the way, then
/// the one open at its end.
pub open spec fn buckets_of(rows: Seq<Row>) -> Seq<BucketView> {
    let end = run_rows(rows);
    match end.0.flush() {
        Some(b) => end.1.push(b),
        None => end.1,
    }
}

/// Whether every row of the stream finds room in the counters.
pub open spec fn all_accepted(rows: Seq<Row>) -> bool {
    forall|k: int| 0 <= k < rows.len() ==> (#[trigger] run_rows(rows.take(k))).0.accepts(rows[k])
}

/// Intervals credited over all of `buckets`.
pub open spec fn total_rows(buckets: Seq<BucketView>) -> nat
    decreases buckets.len(),
{
    if buckets.len() == 0 {
        0
    } else {
        total_rows(buckets.drop_last()) + buckets.last().rows
    }
}

/// Seconds credited over all of `buckets`.
pub open spec fn total_seconds(buckets: Seq<BucketView>) -> nat
    decreases buckets.len(),
{
    if buckets.len() == 0 {
        0
    } else {
        total_seconds(buckets.drop_last()) + buckets.last().seconds()
    }
}

/// No row is stamped before its predecessor, nor too long after it.
pub open spec fn regular(rows: Seq<Row>) -> bool {
    forall|i: int| 0 < i < rows.len() ==> anomaly_of(rows[i - 1].stamp, (#[trigger] rows[i]).stamp) is None
}

/// Every row is stamped after its predecessor.
pub open spec fn increasing(rows: Seq<Row>) -> bool {
    forall|i: int| 0 < i < rows.len() ==> rows[i - 1].stamp.seconds < (#[trigger] rows[i]).stamp.seconds
}

/// What is wrong with the stretch that a row after `seen` closes.
pub open spec fn anomaly_after(seen: Seq<Row>, row: Row) -> Option<Anomaly> {
    if seen.len() == 0 {
        None
    } else {
        anomaly_of(seen.last().stamp, row.stamp)
    }
}

proof fn lemma_totals_push(buckets: Seq<BucketView>, b: BucketView)
    ensures
        total_rows(buckets.push(b)) == total_rows(buckets) + b.rows,
        total_seconds(buckets.push(b)) == total_seconds(buckets) + b.seconds(),
{
    assert(buckets.push(b).drop_last() =~= buckets);
}

/// After a stream that is not empty a month is open, the month of the last row.
pub proof fn lemma_run_open(rows: Seq<Row>)
    requires
        rows.len() > 0,
    ensures
        run_rows(rows).0 is Accumulating,
        run_rows(rows).0->previous == rows.last(),
        run_rows(rows).0->bucket.month_key == rows.last().stamp.key(),
    decreases rows.len(),
{
    if rows.len() > 1 {
        lemma_run_open(rows.drop_last());
    }
}

/// Where no row is stamped before its predecessor or more than a day after
/// it, each interval between two consecutive rows is credited once, wholly to
/// the month of the earlier row: the seconds of all reported months add up to
/// the time from the first row to the last.
pub proof fn lemma_seconds_conserved(rows: Seq<Row>)
    requires
        rows.len() > 0,
        regular(rows),
    ensures
        total_seconds(buckets_of(rows)) == rows.last().stamp.seconds - rows[0].stamp.seconds,
    decreases rows.len(),
{
    let end = run_rows(rows);
    lemma_run_open(rows);
    lemma_totals_push(end.1, end.0->bucket);
    if rows.len() > 1 {
        let head = rows.drop_last();
        let before = run_rows(head);
        assert(regular(head)) by {
            assert forall|i: int| 0 < i < head.len() implies anomaly_of(
                head[i - 1].stamp,
                (#[trigger] head[i]).stamp,
            ) is None by {
                assert(anomaly_of(rows[i - 1].stamp, rows[i].stamp) is None);
            }
        }
        lemma_seconds_conserved(head);
        lemma_run_open(head);
        lemma_totals_push(before.1, before.0->bucket);
        assert(head.last() == rows[rows.len() - 2]);
        assert(head[0] == rows[0]);
        assert(anomaly_of(rows[rows.len() - 2].stamp, rows[rows.len() - 1].stamp) is None);
        let next = before.0.step(rows.last());
        if next.1 is Some {
            lemma_totals_push(before.1, next.1.unwrap());
        }
    }
}

/// Intervals of the open month that go unreported when `row` closes it: all
/// of them where no second was credited to it, else none.
pub open spec fn unreported_rows(state: EngineView, row: Row) -> nat {
    match state {
        EngineView::Empty => 0,
        EngineView::Accumulating { bucket, previous } => {
            let credited = bucket.credit(previous.signals, gap_of(previous.stamp, row.stamp));
            if row.stamp.key() != bucket.month_key && credited.seconds() == 0 {
                credited.rows
            } else {
                0
            }
        },
    }
}

/// Intervals that the stream `rows` leaves unreported.
pub open spec fn dropped_rows(rows: Seq<Row>) -> nat
    decreases rows.len(),
{
    if rows.len() == 0 {
        0
    } else {
        dropped_rows(rows.drop_last()) + unreported_rows(
            run_rows(rows.drop_last()).0,
            rows.last(),
        )
    }
}

/// Whatever the stream, every row but the first closes one interval, which is
/// counted in exactly one month: a reported one, or one closed without a
/// second to its credit.
pub proof fn lemma_rows_accounted(rows: Seq<Row>)
    requires
        rows.len() > 0,
    ensures
        total_rows(buckets_of(rows)) + dropped_rows(rows) == rows.len() - 1,
    decreases rows.len(),
{
    let end = run_rows(rows);
    lemma_run_open(rows);
    lemma_totals_push(end.1, end.0->bucket);
    if rows.len() > 1 {
        let head = rows.drop_last();
        let before = run_rows(head);
        lemma_rows_accounted(head);
        lemma_run_open(head);
        lemma_totals_push(before.1, before.0->bucket);
        let next = before.0.step(rows.last());
        if next.1 is Some {
            lemma_totals_push(before.1, next.1.unwrap());
        }
    } else {
        assert(dropped_rows(rows.drop_last()) == 0);
    }
}

/// Where every row is stamped after its predecessor, every row but the first
/// closes one interval, counted in exactly one reported month.
pub proof fn lemma_rows_partition(rows: Seq<Row>)
    requires
        rows.len() > 0,
        increasing(rows),
    ensures
        total_rows(buckets_of(rows)) == rows.len() - 1,
    decreases rows.len(),
{
    let end = run_rows(rows);
    lemma_run_open(rows);
    lemma_totals_push(end.1, end.0->bucket);
    if rows.len() > 1 {
        let head = rows.drop_last();
        let before = run_rows(head);
        assert(increasing(head)) by {
            assert forall|i: int| 0 < i < head.len() implies head[i - 1].stamp.seconds < (
            #[trigger] head[i]).stamp.seconds by {
                assert(rows[i].stamp.seconds > rows[i - 1].stamp.seconds);
            }
        }
        lemma_rows_partition(head);
        lemma_run_open(head);
        lemma_totals_push(before.1, before.0->bucket);
        assert(head.last() == rows[rows.len() - 2]);
        assert(rows[rows.len() - 1].stamp.seconds > rows[rows.len() - 2].stamp.seconds);
        let next = before.0.step(rows.last());
        if next.1 is Some {
            lemma_totals_push(before.1, next.1.unwrap());
        }
    }
}

/// A month is closed only by a row of another month, and carries the key of
/// the row whose values were credited to it last.
pub proof fn lemma_closed_month_key(state: EngineView, row: Row)
    requires
        state.wf(),
    ensures
        state.step(row).1 matches Some(b) ==> {
            &&& state is Accumulating
            &&& b.month_key == state->previous.stamp.key()
            &&& b.month_key != row.stamp.key()
            &&& b.seconds() > 0
        },
        state.step(row).0 is Accumulating,
        state.step(row).0->bucket.month_key == row.stamp.key(),
        state.step(row).0->previous == row,
{
}

/// Within a month the seconds credited grow by exactly the stretch between
/// the two rows, as far as it is regular, and no month is closed.
pub proof fn lemma_step_within_month(state: EngineView, row: Row)
    requires
        state is Accumulating,
        state.wf(),
        row.stamp.key() == state->previous.stamp.key(),
        anomaly_of(state->previous.stamp, row.stamp) is None,
    ensures
        state.step(row).1 is None,
        state.step(row).0->bucket.seconds() == state->bucket.seconds() + (row.stamp.seconds
            - state->previous.stamp.seconds),
        state.step(row).0->bucket.rows == state->bucket.rows + 1,
{
}

/// A stream of no rows reports no month.
pub proof fn lemma_empty_stream()
    ensures
        buckets_of(Seq::<Row>::empty()) == Seq::<BucketView>::empty(),
{
}

/// Whether `got` are the reports owed for the months `want`, one for one.
pub open spec fn reports_all(got: Seq<Summary>, want: Seq<BucketView>) -> bool {
    &&& got.len() == want.len()
    &&& forall|i: int| 0 <= i < got.len() ==> (#[trigger] got[i]).describes(want[i]) && got[i].wf()
}

/// Hands `row` to `engine`, which has seen `seen`, and files the month that
/// the row closes, if any, behind the reports already in `summaries`. Returns
/// what was wrong with the stretch that the row closed.
pub(crate) fn feed(
    engine: &mut Engine,
    summaries: &mut Vec<Summary>,
    row: Row,
    Ghost(seen): Ghost<Seq<Row>>,
) -> (r: Result<Option<Anomaly>, EngineError>)
    requires
        old(engine).wf(),
        old(engine)@ == run_rows(seen).0,
        reports_all(old(summaries)@, run_rows(seen).1),
    ensures
        final(engine).wf(),
        r is Ok <==> run_rows(seen).0.accepts(row),
        r is Err ==> final(engine)@ == old(engine)@ && final(summaries)@ == old(summaries)@,
        r matches Ok(anomaly) ==> {
            &&& final(engine)@ == run_rows(seen.push(row)).0
            &&& reports_all(final(summaries)@, run_rows(seen.push(row)).1)
            &&& anomaly == anomaly_after(seen, row)
        },
{
    proof {
        assert(seen.push(row).drop_last() =~= seen);
        if seen.len() > 0 {
            lemma_run_open(seen);
        }
    }
    match engine.push(row) {
        Err(e) => Err(e),
        Ok(pushed) => {
            if let Some(s) = pushed.emitted {
                summaries.push(s);
            }
            Ok(pushed.anomaly)
        },
    }
}

/// Runs a whole stream and returns the report of every month, in order.
/// Fails exactly where some row finds no room in the counters.
pub fn aggregate(rows: &Vec<Row>) -> (r: Result<Vec<Summary>, EngineError>)
    ensures
        r is Ok <==> all_accepted(rows@),
        r matches Ok(v) ==> reports_all(v@, buckets_of(rows@)),
{
    let mut engine = Engine::new();
    let mut out: Vec<Summary> = Vec::new();
    let mut i: usize = 0;
    proof {
        assert(rows@.take(0) =~= Seq::<Row>::empty());
    }
    while i < rows.len()
        invariant
            0 <= i <= rows.len(),
            engine.wf(),
            engine@ == run_rows(rows@.take(i as int)).0,
            reports_all(out@, run_rows(rows@.take(i as int)).1),
            forall|k: int| 0 <= k < i ==> (#[trigger] run_rows(rows@.take(k))).0.accepts(rows@[k]),
        decreases rows.len() - i,
    {
        proof {
            assert(rows@.take(i as int).push(rows@[i as int]) =~= rows@.take(i + 1));
        }
        match feed(&mut engine, &mut out, rows[i], Ghost(rows@.take(i as int))) {
            Err(e) => {
                return Err(e);
            },
            Ok(_) => {},
        }
        i = i + 1;
    }
    proof {
        assert(rows@.take(i as int) =~= rows@);
    }
    if let Some(s) = engine.finish() {
        out.push(s);
    }
    Ok(out)
}

} // verus!
