//! Reading the clock: the instant a clock reading stands for, and the
//! instant used for time stamps and log dates.

use vstd::prelude::*;

use crate::env::{last_supported_second, system_clock};

verus! {

/// A reading of the system clock: seconds and nanoseconds after (`Ok`) or
/// before (`Err`) the Unix epoch.
pub type ClockReading = Result<(u64, u32), (u64, u32)>;

/// The instant a reading stands for, in nanoseconds since the epoch.
pub open spec fn reading_nanos(r: ClockReading) -> int {
    match r {
        Ok((s, n)) => s * 1_000_000_000 + n,
        Err((s, n)) => -(s * 1_000_000_000 + n),
    }
}

/// The instant a reading stands for, in nanoseconds since the epoch.
pub fn instant_nanos(reading: ClockReading) -> (r: i128)
    ensures
        r == reading_nanos(reading),
{
    match reading {
        Ok((s, n)) => {
            assert(s * 1_000_000_000 <= 18_446_744_073_709_551_615 * 1_000_000_000) by (nonlinear_arith)
                requires s <= 18_446_744_073_709_551_615u64;
            (s as i128) * 1_000_000_000 + (n as i128)
        },
        Err((s, n)) => {
            assert(s * 1_000_000_000 <= 18_446_744_073_709_551_615 * 1_000_000_000) by (nonlinear_arith)
                requires s <= 18_446_744_073_709_551_615u64;
            -((s as i128) * 1_000_000_000 + (n as i128))
        },
    }
}

/// The instant, as seconds and nanoseconds after the epoch, that time
/// stamps use for a reading: the reading itself from the epoch to the last
/// second chrono can represent. chrono's own clock panics outside that range
/// (before the epoch, or where the instant cannot be represented), so a
/// clock before the epoch counts as the epoch, and one past the last
/// supported second as that second.
pub open spec fn stamp_instant(r: ClockReading) -> (int, int) {
    match r {
        Ok((s, n)) => if s <= last_supported_second() {
            (s as int, n as int)
        } else {
            (last_supported_second(), 0)
        },
        Err(_) => (0, 0),
    }
}

/// The instant that time stamps use for a reading.
pub fn stamp_instant_of(reading: ClockReading) -> (r: (i64, u32))
    requires
        match reading {
            Ok((_, n)) => n < 1_000_000_000,
            Err((_, n)) => n < 1_000_000_000,
        },
    ensures
        (r.0 as int, r.1 as int) == stamp_instant(reading),
        0 <= r.0 <= last_supported_second(),
        r.1 < 1_000_000_000,
{
    match reading {
        Ok((s, n)) => if s <= 8_210_266_876_799 {
            (s as i64, n)
        } else {
            (8_210_266_876_799i64, 0)
        },
        Err(_) => (0, 0),
    }
}

/// The supported instant of the current clock reading.
pub fn now_for_stamps() -> (r: (i64, u32))
    ensures
        0 <= r.0 <= last_supported_second(),
        r.1 < 1_000_000_000,
{
    stamp_instant_of(system_clock())
}

} // verus!
