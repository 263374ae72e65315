//! The pool as a mathematical object: a map from every tier to the sequence
//! of channel ids recorded under it, and each operation as a function on
//! such maps.

use vstd::prelude::*;
use crate::channel::{name_tier, ChannelInfo};
use crate::tier::{catalog, VoiceChannelType};

verus! {

/// The most channels a tier may hold before a join stops adding another.
pub const MAX_CHANNELS_PER_TIER: usize = 6;

/// The pool in which no tier has a channel.
pub open spec fn empty_pool() -> Map<VoiceChannelType, Seq<u64>> {
    Map::total(|tier: VoiceChannelType| Seq::<u64>::empty())
}

/// Whether a channel is recorded under some tier.
pub open spec fn manages(pool: Map<VoiceChannelType, Seq<u64>>, id: u64) -> bool {
    exists|tier: VoiceChannelType| (#[trigger] pool[tier]).contains(id)
}

/// The pool covers every tier, no tier lists a channel twice, and no channel
/// is listed under two tiers.
pub open spec fn well_formed(pool: Map<VoiceChannelType, Seq<u64>>) -> bool {
    &&& forall|tier: VoiceChannelType| #[trigger] pool.dom().contains(tier)
    &&& forall|tier: VoiceChannelType| (#[trigger] pool[tier]).no_duplicates()
    &&& forall|a: VoiceChannelType, b: VoiceChannelType, id: u64|
        (#[trigger] pool[a].contains(id)) && (#[trigger] pool[b].contains(id)) ==> a == b
}

/// Every tier holds at least one channel and at most the cap.
pub open spec fn within_bounds(pool: Map<VoiceChannelType, Seq<u64>>) -> bool {
    forall|tier: VoiceChannelType| 1 <= (#[trigger] pool[tier]).len() <= MAX_CHANNELS_PER_TIER
}

/// The pool after a channel is recorded under a tier: appended to the tier's
/// list, unless the pool already holds it.
pub open spec fn adopt(pool: Map<VoiceChannelType, Seq<u64>>, tier: VoiceChannelType, id: u64) -> Map<
    VoiceChannelType,
    Seq<u64>,
> {
    if manages(pool, id) {
        pool
    } else {
        pool.insert(tier, pool[tier].push(id))
    }
}

/// The pool that a listing gives rise to: its managed channels, recorded in
/// the order in which the listing has them.
pub open spec fn scanned(listing: Seq<ChannelInfo>, category: u64) -> Map<VoiceChannelType, Seq<u64>>
    decreases listing.len(),
{
    if listing.len() == 0 {
        empty_pool()
    } else {
        let rest = scanned(listing.drop_last(), category);
        match listing.last().managed_tier(category) {
            Some(tier) => adopt(rest, tier, listing.last().id),
            None => rest,
        }
    }
}

/// Those of `tiers` that have no channel in the pool, in the order of `tiers`.
pub open spec fn missing_among(
    pool: Map<VoiceChannelType, Seq<u64>>,
    tiers: Seq<VoiceChannelType>,
) -> Seq<VoiceChannelType>
    decreases tiers.len(),
{
    if tiers.len() == 0 {
        Seq::empty()
    } else if pool[tiers.last()].len() == 0 {
        missing_among(pool, tiers.drop_last()).push(tiers.last())
    } else {
        missing_among(pool, tiers.drop_last())
    }
}

/// The tiers without a channel, in catalogue order.
pub open spec fn missing(pool: Map<VoiceChannelType, Seq<u64>>) -> Seq<VoiceChannelType> {
    missing_among(pool, catalog())
}

/// A list of channels with every occurrence of one channel taken out.
pub open spec fn without(list: Seq<u64>, id: u64) -> Seq<u64>
    decreases list.len(),
{
    if list.len() == 0 {
        list
    } else if list.last() == id {
        without(list.drop_last(), id)
    } else {
        without(list.drop_last(), id).push(list.last())
    }
}

/// Whether any of the probed channels has no member.
pub open spec fn has_spare(member_counts: Seq<u64>) -> bool {
    exists|i: int| 0 <= i < member_counts.len() && member_counts[i] == 0
}

/// Whether a leave makes the pool give the vacated channel up: the channel
/// is managed, nobody is left in it, and it is not the last of its tier.
pub open spec fn leave_deletes(
    pool: Map<VoiceChannelType, Seq<u64>>,
    name: Seq<char>,
    members: u64,
) -> bool {
    match name_tier(name) {
        Some(tier) => members == 0 && pool[tier].len() > 1,
        None => false,
    }
}

/// The pool after a leave from the channel `id` with the given name, in
/// which `members` members remain.
pub open spec fn after_leave(
    pool: Map<VoiceChannelType, Seq<u64>>,
    name: Seq<char>,
    id: u64,
    members: u64,
) -> Map<VoiceChannelType, Seq<u64>> {
    match name_tier(name) {
        Some(tier) => if leave_deletes(pool, name, members) {
            pool.insert(tier, without(pool[tier], id))
        } else {
            pool
        },
        None => pool,
    }
}

/// Whether a join into a channel of the given name, handled in one piece,
/// gives the tier a new channel: the channel is managed, its tier is under
/// the cap, and none of the tier's channels was found empty.
pub open spec fn join_grows(
    pool: Map<VoiceChannelType, Seq<u64>>,
    name: Seq<char>,
    member_counts: Seq<u64>,
) -> bool {
    match name_tier(name) {
        Some(tier) => pool[tier].len() < MAX_CHANNELS_PER_TIER && !has_spare(member_counts),
        None => false,
    }
}

/// The pool after a join that is handled in one piece, `created` being the
/// channel that the caller made where the tier had to grow.
pub open spec fn after_join(
    pool: Map<VoiceChannelType, Seq<u64>>,
    name: Seq<char>,
    member_counts: Seq<u64>,
    created: u64,
) -> Map<VoiceChannelType, Seq<u64>> {
    match name_tier(name) {
        Some(tier) => if join_grows(pool, name, member_counts) {
            adopt(pool, tier, created)
        } else {
            pool
        },
        None => pool,
    }
}


/// Whether a listing has a managed channel with the given id.
pub open spec fn lists_managed(listing: Seq<ChannelInfo>, category: u64, id: u64) -> bool {
    exists|i: int|
        0 <= i < listing.len() && (#[trigger] listing[i]).id == id && listing[i].managed_tier(
            category,
        ) is Some
}

/// The ids of the channels that a listing has for one tier, in the order of
/// the listing.
pub open spec fn listed_under(listing: Seq<ChannelInfo>, category: u64, tier: VoiceChannelType) -> Seq<
    u64,
>
    decreases listing.len(),
{
    if listing.len() == 0 {
        Seq::empty()
    } else if listing.last().managed_tier(category) == Some(tier) {
        listed_under(listing.drop_last(), category, tier).push(listing.last().id)
    } else {
        listed_under(listing.drop_last(), category, tier)
    }
}

/// The pool after the caller has recorded `ids`, one after the other, under
/// the tiers `tiers`: what a bootstrap does for the tiers that a listing left
/// without a channel.
pub open spec fn filled(
    pool: Map<VoiceChannelType, Seq<u64>>,
    tiers: Seq<VoiceChannelType>,
    ids: Seq<u64>,
) -> Map<VoiceChannelType, Seq<u64>>
    recommends
        tiers.len() == ids.len(),
    decreases ids.len(),
{
    if ids.len() == 0 || tiers.len() == 0 {
        pool
    } else {
        adopt(filled(pool, tiers.drop_last(), ids.drop_last()), tiers.last(), ids.last())
    }
}

/// An occupancy event, with what the caller found out while it handled it.
pub enum Event {
    /// A member joined the channel of this name. `member_counts` are the
    /// members found in the channels of its tier, and `created` is the channel
    /// made for the tier where it had to grow.
    Join { name: Seq<char>, member_counts: Seq<u64>, created: u64 },
    /// A member left the channel `id` of this name, in which `members`
    /// members remain.
    Leave { name: Seq<char>, id: u64, members: u64 },
}

/// The pool after one event.
pub open spec fn after_event(pool: Map<VoiceChannelType, Seq<u64>>, event: Event) -> Map<
    VoiceChannelType,
    Seq<u64>,
> {
    match event {
        Event::Join { name, member_counts, created } => after_join(
            pool,
            name,
            member_counts,
            created,
        ),
        Event::Leave { name, id, members } => after_leave(pool, name, id, members),
    }
}

/// The pool after a sequence of events, each handled in one piece.
pub open spec fn after_events(pool: Map<VoiceChannelType, Seq<u64>>, events: Seq<Event>) -> Map<
    VoiceChannelType,
    Seq<u64>,
>
    decreases events.len(),
{
    if events.len() == 0 {
        pool
    } else {
        after_event(after_events(pool, events.drop_last()), events.last())
    }
}

} // verus!
