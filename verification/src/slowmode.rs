//! The rule for a per-channel slow mode.

use vstd::prelude::*;

verus! {

/// The longest slow mode that can be set: six hours, in seconds.
pub const MAX_SLOWMODE_SECONDS: u16 = 21600;

/// What a requested slow mode amounts to.
#[derive(Debug, Clone, Copy, PartialEq, Eq, Structural)]
pub enum SlowmodeChange {
    /// The duration is over the maximum: nothing is changed.
    TooLong,
    /// A duration of 0 switches slow mode off.
    Disabled,
    /// Slow mode is set to this many seconds.
    Seconds(u16),
}

/// Judges a requested slow mode of `duration` seconds.
pub fn slowmode_change(duration: u16) -> (change: SlowmodeChange)
    ensures
        change == if duration > MAX_SLOWMODE_SECONDS {
            SlowmodeChange::TooLong
        } else if duration == 0 {
            SlowmodeChange::Disabled
        } else {
            SlowmodeChange::Seconds(duration)
        },
{
    if duration > MAX_SLOWMODE_SECONDS {
        SlowmodeChange::TooLong
    } else if duration == 0 {
        SlowmodeChange::Disabled
    } else {
        SlowmodeChange::Seconds(duration)
    }
}

} // verus!
