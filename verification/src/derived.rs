//! Energy and coefficient of performance from power accumulators.
use crate::metric::floor_div;
use vstd::prelude::*;

verus! {

/// Milliwatt-seconds in one watt-hour.
pub const MILLIWATT_SECONDS_PER_WH: u64 = 3_600_000;

/// Largest magnitude of a heat energy whose thousandfold fits in 128 bits.
pub const COP_LIMIT: i128 = 170_141_183_460_469_231_731_687_303_715_884_105;

/// Watt-hours in `sum` milliwatt-seconds, rounded toward negative infinity.
pub open spec fn energy_wh_spec(sum: int) -> int {
    sum / 3_600_000
}

/// Watt-hours that `avg` milliwatts deliver over `seconds`, rounded toward
/// negative infinity.
pub open spec fn energy_wh_from_average_spec(avg: int, seconds: int) -> int {
    (avg * seconds) / 3_600_000
}

/// Thousandths of heat energy per unit of electrical energy, rounded toward
/// negative infinity; none where the electrical energy is zero or the heat
/// energy beyond [`COP_LIMIT`].
pub open spec fn cop_milli_spec(heat: int, electric: int) -> Option<int> {
    if electric == 0 || heat < -COP_LIMIT || heat > COP_LIMIT {
        None
    } else if electric > 0 {
        Some((heat * 1000) / electric)
    } else {
        Some((-(heat * 1000)) / (-electric))
    }
}

/// Energy in watt-hours from a power accumulator's sum in milliwatt-seconds.
pub fn energy_wh(sum: i128) -> (wh: i128)
    ensures
        wh == energy_wh_spec(sum as int),
{
    floor_div(sum, MILLIWATT_SECONDS_PER_WH as u128)
}

/// Energy in watt-hours from the average power in milliwatts and the elapsed
/// seconds.
pub fn energy_wh_from_average(avg: i64, seconds: u64) -> (wh: i128)
    ensures
        wh == energy_wh_from_average_spec(avg as int, seconds as int),
{
    proof {
        assert(-0x8000_0000_0000_0000 * 0xffff_ffff_ffff_ffff <= (avg as int) * (seconds as int)
            <= 0x8000_0000_0000_0000 * 0xffff_ffff_ffff_ffff) by (nonlinear_arith)
            requires
                0 <= seconds as int <= 0xffff_ffff_ffff_ffff,
                -0x8000_0000_0000_0000 <= avg as int <= 0x8000_0000_0000_0000,
        ;
    }
    floor_div((avg as i128) * (seconds as i128), MILLIWATT_SECONDS_PER_WH as u128)
}

/// Coefficient of performance in thousandths.
pub fn cop_milli(heat: i128, electric: i128) -> (cop: Option<i128>)
    ensures
        cop matches Some(c) ==> cop_milli_spec(heat as int, electric as int) == Some(c as int),
        cop is None ==> cop_milli_spec(heat as int, electric as int) is None,
{
    if electric == 0 || heat < -COP_LIMIT || heat > COP_LIMIT {
        return None;
    }
    let scaled: i128 = heat * 1000;
    if electric > 0 {
        Some(floor_div(scaled, electric as u128))
    } else {
        let d: u128 = ((-(electric + 1)) as u128) + 1;
        Some(floor_div(-scaled, d))
    }
}

} // verus!
