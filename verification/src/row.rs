//! One delimited record of the log, read by fixed column offsets.
use crate::decimal::{decimal_value, parse_decimal};
use crate::engine::{Row, Signals};
use crate::timestamp::{parse_timestamp, parsed_timestamp, Timestamp};
use vstd::prelude::*;

verus! {

/// The fields of `line`: the stretches between occurrences of `delimiter`.
/// A line without delimiter, even an empty one, is one field.
pub open spec fn split(line: Seq<u8>, delimiter: u8) -> Seq<Seq<u8>>
    decreases line.len(),
{
    if line.len() == 0 {
        seq![Seq::empty()]
    } else {
        let before = split(line.drop_last(), delimiter);
        if line.last() == delimiter {
            before.push(Seq::empty())
        } else {
            before.update(before.len() - 1, before.last().push(line.last()))
        }
    }
}

/// The contents of each field.
pub open spec fn field_views(fields: Seq<Vec<u8>>) -> Seq<Seq<u8>> {
    Seq::new(fields.len(), |i: int| fields[i]@)
}

/// Cuts `line` at every `delimiter`.
pub fn split_fields(line: &[u8], delimiter: u8) -> (fields: Vec<Vec<u8>>)
    ensures
        field_views(fields@) == split(line@, delimiter),
{
    let mut done: Vec<Vec<u8>> = Vec::new();
    let mut current: Vec<u8> = Vec::new();
    let mut i: usize = 0;
    proof {
        assert(line@.take(0) =~= Seq::<u8>::empty());
        assert(field_views(done@).push(current@) =~= seq![Seq::<u8>::empty()]);
    }
    while i < line.len()
        invariant
            0 <= i <= line.len(),
            split(line@.take(i as int), delimiter) == field_views(done@).push(current@),
        decreases line.len() - i,
    {
        let b: u8 = line[i];
        let ghost before = field_views(done@).push(current@);
        proof {
            assert(line@.take(i + 1).drop_last() =~= line@.take(i as int));
            assert(line@.take(i + 1).last() == b);
        }
        if b == delimiter {
            done.push(current);
            current = Vec::new();
            proof {
                assert(field_views(done@) =~= before);
            }
        } else {
            current.push(b);
            proof {
                assert(field_views(done@).push(current@) =~= before.update(
                    before.len() - 1,
                    before.last().push(b),
                ));
            }
        }
        i = i + 1;
    }
    proof {
        assert(line@.take(i as int) =~= line@);
    }
    let ghost all = field_views(done@).push(current@);
    done.push(current);
    proof {
        assert(field_views(done@) =~= all);
    }
    done
}

/// Which field holds which signal.
#[derive(Debug, Clone, Copy, PartialEq, Eq, Structural)]
pub struct Columns {
    pub timestamp: usize,
    pub outdoor: usize,
    pub room_set_0: usize,
    pub room_set_1: usize,
    pub room_temp_0: usize,
    pub room_temp_1: usize,
    pub electric_power: usize,
    pub heat_power: usize,
}

/// Why a line gave no row.
#[derive(Debug, Clone, Copy, PartialEq, Eq, Structural)]
pub enum RowError {
    /// The timestamp field is missing or does not match the pattern; the line
    /// is to be skipped, as a heading is.
    Timestamp,
    /// A signal's field is missing or no decimal; the run cannot go on.
    Number,
}

impl RowError {
    /// Whether the run has to stop, as opposed to skipping the line.
    pub fn is_fatal(&self) -> (b: bool)
        ensures
            b == (*self == RowError::Number),
    {
        match self {
            RowError::Timestamp => false,
            RowError::Number => true,
        }
    }
}

/// The decimal in field `at`, if there is such a field and it holds one.
pub open spec fn number_at(fields: Seq<Seq<u8>>, at: int) -> Option<int> {
    if 0 <= at < fields.len() {
        decimal_value(fields[at])
    } else {
        None
    }
}

/// The signals that `columns` select from `fields`, if each is a decimal.
pub open spec fn signals_of(fields: Seq<Seq<u8>>, columns: Columns) -> Option<Signals> {
    match (
        number_at(fields, columns.outdoor as int),
        number_at(fields, columns.room_set_0 as int),
        number_at(fields, columns.room_set_1 as int),
        number_at(fields, columns.room_temp_0 as int),
        number_at(fields, columns.room_temp_1 as int),
        number_at(fields, columns.electric_power as int),
        number_at(fields, columns.heat_power as int),
    ) {
        (Some(a), Some(b), Some(c), Some(d), Some(e), Some(f), Some(g)) => Some(
            Signals {
                outdoor: a as i64,
                room_set_0: b as i64,
                room_set_1: c as i64,
                room_temp_0: d as i64,
                room_temp_1: e as i64,
                electric_power: f as i64,
                heat_power: g as i64,
            },
        ),
        _ => None,
    }
}

/// The row that a parsed timestamp and the fields give: without timestamp the
/// line is skipped whatever else it holds; with one, every signal is owed.
pub open spec fn assembled(stamp: Option<Timestamp>, fields: Seq<Seq<u8>>, columns: Columns) -> Result<
    Row,
    RowError,
> {
    match stamp {
        None => Err(RowError::Timestamp),
        Some(t) => match signals_of(fields, columns) {
            None => Err(RowError::Number),
            Some(signals) => Ok(Row { stamp: t, signals }),
        },
    }
}

/// What the timestamp field of `fields` parses to.
pub open spec fn stamp_of(fields: Seq<Seq<u8>>, columns: Columns) -> Option<Timestamp> {
    if columns.timestamp < fields.len() {
        parsed_timestamp(fields[columns.timestamp as int])
    } else {
        None
    }
}

/// The row that `line` holds.
#[verifier::opaque]
pub open spec fn row_of(line: Seq<u8>, delimiter: u8, columns: Columns) -> Result<Row, RowError> {
    let fields = split(line, delimiter);
    assembled(stamp_of(fields, columns), fields, columns)
}

fn read_number(fields: &Vec<Vec<u8>>, at: usize) -> (r: Option<i64>)
    ensures
        r matches Some(v) ==> number_at(field_views(fields@), at as int) == Some(v as int),
        r is None ==> number_at(field_views(fields@), at as int) is None,
{
    if at < fields.len() {
        parse_decimal(fields[at].as_slice())
    } else {
        None
    }
}

/// Builds the row from an already parsed timestamp and the line's fields.
pub fn assemble_row(stamp: Option<Timestamp>, fields: &Vec<Vec<u8>>, columns: &Columns) -> (r: Result<
    Row,
    RowError,
>)
    ensures
        r == assembled(stamp, field_views(fields@), *columns),
{
    let stamp = match stamp {
        None => {
            return Err(RowError::Timestamp);
        },
        Some(t) => t,
    };
    let outdoor = read_number(fields, columns.outdoor);
    let room_set_0 = read_number(fields, columns.room_set_0);
    let room_set_1 = read_number(fields, columns.room_set_1);
    let room_temp_0 = read_number(fields, columns.room_temp_0);
    let room_temp_1 = read_number(fields, columns.room_temp_1);
    let electric_power = read_number(fields, columns.electric_power);
    let heat_power = read_number(fields, columns.heat_power);
    match (outdoor, room_set_0, room_set_1, room_temp_0, room_temp_1, electric_power, heat_power) {
        (Some(a), Some(b), Some(c), Some(d), Some(e), Some(f), Some(g)) => Ok(
            Row {
                stamp,
                signals: Signals {
                    outdoor: a,
                    room_set_0: b,
                    room_set_1: c,
                    room_temp_0: d,
                    room_temp_1: e,
                    electric_power: f,
                    heat_power: g,
                },
            },
        ),
        _ => Err(RowError::Number),
    }
}

/// Reads one line of the log.
pub fn parse_row(line: &[u8], delimiter: u8, columns: &Columns) -> (r: Result<Row, RowError>)
    ensures
        r == row_of(line@, delimiter, *columns),
        r matches Ok(row) ==> row.stamp.wf(),
{
    reveal(row_of);
    let fields = split_fields(line, delimiter);
    let stamp = if columns.timestamp < fields.len() {
        parse_timestamp(fields[columns.timestamp].as_slice())
    } else {
        None
    };
    assemble_row(stamp, &fields, columns)
}

} // verus!
