//! Integer parts of the power readings: the value of a package energy
//! counter as its file shows it, and the energy consumed between two
//! readings.

use vstd::prelude::*;

use crate::text::{parse_u64, parse_u64_chars, to_chars, trim, trim_chars};

verus! {

/// The reading of an energy counter whose file holds `contents`: the
/// trimmed text read as a `u64`, none when it is not one.
pub fn energy_reading(contents: &str) -> (r: Option<u64>)
    ensures
        r == parse_u64(trim(contents@)),
{
    parse_u64_chars(&trim_chars(&to_chars(contents)))
}

/// The range of the RAPL energy counter: it wraps at 2^32 microjoules.
pub const ENERGY_COUNTER_RANGE: u64 = 0x1_0000_0000;

/// The energy, in microjoules, between two readings `e0` then `e1` of the
/// counter. A later reading below the earlier one means the counter wrapped
/// at 2^32 in between: the energy is 2^32 less the drop (the drop taken
/// modulo 2^32, for readings that lie outside the counter's range).
pub open spec fn energy_delta(e0: u64, e1: u64) -> int {
    if e1 >= e0 {
        e1 - e0
    } else {
        ENERGY_COUNTER_RANGE - (e0 - e1) % (ENERGY_COUNTER_RANGE as int)
    }
}

/// The energy between the readings `e0` then `e1` of the RAPL counter.
pub fn rapl_energy_delta(e0: u64, e1: u64) -> (d: u64)
    ensures
        d == energy_delta(e0, e1),
{
    if e1 >= e0 {
        e1 - e0
    } else {
        ENERGY_COUNTER_RANGE - (e0 - e1) % ENERGY_COUNTER_RANGE
    }
}

/// When the counter wraps between two readings within its range, the
/// energy between them is `2^32 - e0 + e1`.
pub proof fn lemma_energy_delta_wrap(e0: u64, e1: u64)
    requires
        e1 < e0 < ENERGY_COUNTER_RANGE,
    ensures
        energy_delta(e0, e1) == ENERGY_COUNTER_RANGE - e0 + e1,
{
    assert((e0 - e1) % (ENERGY_COUNTER_RANGE as int) == e0 - e1);
}

} // verus!
