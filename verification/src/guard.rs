use vstd::prelude::*;

verus! {

/// Addition on the clock scale, saturating at the largest representable
/// instant ("infinitely far away").
pub open spec fn sat_add_u64(a: int, b: int) -> int {
    if a + b > u64::MAX {
        u64::MAX as int
    } else {
        a + b
    }
}

/// The cap on emitted result units has been reached.
pub open spec fn cap_reached(len: int, limit: Option<usize>) -> bool {
    limit matches Some(n) && len >= n
}

/// The deadline is exceeded exactly when one is set and the clock has
/// reached it.
pub open spec fn spec_timed_out(now: int, deadline: Option<u64>) -> bool {
    deadline matches Some(d) && now >= d
}

/// Computes the deadline of a call begun at `now` with an optional timeout,
/// both in milliseconds; no timeout means no deadline.
pub fn deadline_from(now: u64, timeout_ms: Option<u64>) -> (r: Option<u64>)
    ensures
        timeout_ms is None ==> r is None,
        timeout_ms matches Some(t) ==> r matches Some(d) && d == sat_add_u64(
            now as int,
            t as int,
        ),
{
    match timeout_ms {
        None => None,
        Some(t) => {
            if now > u64::MAX - t {
                Some(u64::MAX)
            } else {
                Some(now + t)
            }
        },
    }
}

/// The deadline check made before each traversal entry.
pub fn timed_out(now: u64, deadline: Option<u64>) -> (r: bool)
    ensures
        r == spec_timed_out(now as int, deadline),
{
    match deadline {
        None => false,
        Some(d) => now >= d,
    }
}

} // verus!
