//! The monotonic clock against which keys expire.
//!
//! An instant is a count of nanoseconds since the clock was started. The
//! store's logic takes instants as plain numbers; only the clock reads the
//! machine's time. Of what the machine shows nothing is known; that the
//! clock's own instants do not go back is seen to here.

use vstd::prelude::*;
use std::time::Instant;

verus! {

/// A point on the machine's monotonic clock, opaque to the proofs.
#[verifier::external_type_specification]
#[verifier::external_body]
pub struct ExInstant(std::time::Instant);

/// `Instant::now` reads the monotonic clock. Nothing is claimed of the
/// reading.
pub assume_specification[ std::time::Instant::now ]() -> (t: std::time::Instant)
;

/// `Instant::saturating_duration_since` is the time from `earlier` to `t`,
/// and no time at all where `earlier` is the later of the two. Nothing is
/// claimed of the amount.
pub assume_specification[ std::time::Instant::saturating_duration_since ](
    t: &std::time::Instant,
    earlier: std::time::Instant,
) -> (d: std::time::Duration)
;

/// `Duration::as_nanos` is the duration in whole nanoseconds. Nothing is
/// claimed of the number.
pub assume_specification[ std::time::Duration::as_nanos ](d: &std::time::Duration) -> (n: u128)
;

/// `n` as an instant: instants end at `u64::MAX`, some 584 years after the
/// clock was started, and later readings stay there.
pub(crate) fn instant_of(n: u128) -> (t: u64)
    ensures
        t as int == if n <= u64::MAX { n as int } else { u64::MAX as int },
{
    if n > u64::MAX as u128 {
        u64::MAX
    } else {
        n as u64
    }
}

/// A clock that counts from the moment it was started.
pub(crate) struct Clock {
    origin: Instant,
}

impl Clock {
    /// Starts a clock at instant zero.
    pub(crate) fn start() -> Clock {
        Clock { origin: Instant::now() }
    }

    /// The instant that the clock shows to one who has seen `latest` before:
    /// what the machine's clock shows, and `latest` where the machine's
    /// clock has gone back behind it. So the instants that one reader gets,
    /// each handed in at the next reading, never go back.
    pub(crate) fn read(&self, latest: u64) -> (t: u64)
        ensures
            t >= latest,
    {
        let elapsed = Instant::now().saturating_duration_since(self.origin);
        let shown = instant_of(elapsed.as_nanos());
        if shown > latest {
            shown
        } else {
            latest
        }
    }
}

} // verus!
