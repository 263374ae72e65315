//! Turning a presence update into occupancy events.

use vstd::prelude::*;

verus! {

/// The occupancy events that one presence update gives rise to.
#[derive(Debug, Clone, Copy, PartialEq, Eq, Structural)]
pub struct OccupancyEvents {
    /// The channel that was joined, if any.
    pub joined: Option<u64>,
    /// The channel that was vacated, if any.
    pub left: Option<u64>,
}

/// Splits a presence update into its events. `previous` is the channel the
/// member was in before the update and `current` the one after it.
///
/// Every update with a current channel is a join of it. It is a leave of the
/// previous channel only where the member has moved away from it.
pub fn split_update(previous: Option<u64>, current: Option<u64>) -> (events: OccupancyEvents)
    ensures
        events.joined == current,
        events.left == if previous != current {
            previous
        } else {
            None
        },
{
    let left = match previous {
        Some(p) => match current {
            Some(c) => if p == c {
                None
            } else {
                Some(p)
            },
            None => Some(p),
        },
        None => None,
    };
    OccupancyEvents { joined: current, left }
}

} // verus!
