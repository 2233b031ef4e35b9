//! The clock.

use vstd::prelude::*;

verus! {

/// The earliest second that the clock can show: the beginning of the year 262144 BCE.
pub const EARLIEST: i64 = -8334601228800;

/// The latest second that the clock can show: the end of the year 262142 CE.
pub const LATEST: i64 = 8210266876799;

/// `chrono::Utc::now` and `DateTime::timestamp`: the seconds since the beginning of 1970.
/// Claimed is only that the second lies within the dates that chrono can express; which second
/// it is, is left to the machine. No bound of zero is claimed: for WebAssembly chrono takes the
/// second from the host, which may give one before 1970. Elsewhere there is no answer, but a
/// panic, on a machine whose clock stands before 1970 or behind chrono's last date.
#[verifier::external_body]
pub(crate) fn now() -> (r: i64)
    ensures
        EARLIEST <= r <= LATEST,
{
    chrono::Utc::now().timestamp()
}

/// The second is a reading of the clock: the clock has returned it.
pub closed spec fn read_from_clock(second: i64) -> bool {
    call_ensures(now, (), second)
}

/// Reads the clock.
pub(crate) fn read_clock() -> (r: i64)
    ensures
        read_from_clock(r),
        EARLIEST <= r <= LATEST,
{
    now()
}

/// Only what the clock has returned is a reading of it.
pub(crate) proof fn law_readings_come_from_the_clock(second: i64)
    ensures
        read_from_clock(second) <==> call_ensures(now, (), second),
{
}

/// Every reading of the clock lies within the dates that the clock can show.
pub proof fn law_readings_are_in_range(second: i64)
    requires
        read_from_clock(second),
    ensures
        EARLIEST <= second <= LATEST,
{
}

} // verus!
