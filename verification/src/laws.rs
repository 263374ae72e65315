//! What holds of the pool whatever the events: the laws that the operations
//! of the model obey, each proved from their definitions.

use vstd::prelude::*;
use crate::channel::{name_tier, ChannelInfo};
use crate::model::{
    adopt, after_event, after_events, after_join, after_leave, empty_pool, filled, has_spare,
    join_grows, leave_deletes, listed_under, lists_managed, manages, missing, missing_among,
    scanned, well_formed, within_bounds, without, Event, MAX_CHANNELS_PER_TIER,
};
use crate::pool::JoinStep;
use crate::tier::{catalog, lemma_catalog_complete, VoiceChannelType};

verus! {

proof fn lemma_push_contains(list: Seq<u64>, id: u64)
    ensures
        forall|x: u64| #[trigger] list.push(id).contains(x) <==> list.contains(x) || x == id,
        list.no_duplicates() && !list.contains(id) ==> list.push(id).no_duplicates(),
{
    let pushed = list.push(id);
    assert forall|x: u64| #[trigger] pushed.contains(x) <==> list.contains(x) || x == id by {
        if pushed.contains(x) {
            let i = choose|i: int| 0 <= i < pushed.len() && pushed[i] == x;
            if i < list.len() {
                assert(list[i] == x);
            }
        }
        if list.contains(x) {
            let i = choose|i: int| 0 <= i < list.len() && list[i] == x;
            assert(pushed[i] == x);
        }
        if x == id {
            assert(pushed[list.len() as int] == x);
        }
    }
    if list.no_duplicates() && !list.contains(id) {
        assert forall|i: int, j: int|
            0 <= i < pushed.len() && 0 <= j < pushed.len() && i != j implies pushed[i]
            != pushed[j] by {
            if i < list.len() {
                assert(list.contains(list[i]));
            }
            if j < list.len() {
                assert(list.contains(list[j]));
            }
        }
    }
}

/// Taking a channel out keeps exactly the other channels, in their order and
/// without repeating any. Of a list without repetitions it takes out one
/// entry at most.
pub proof fn lemma_without(list: Seq<u64>, id: u64)
    ensures
        forall|x: u64| #[trigger] without(list, id).contains(x) <==> list.contains(x) && x != id,
        list.no_duplicates() ==> without(list, id).no_duplicates(),
        without(list, id).len() <= list.len(),
        list.no_duplicates() ==> without(list, id).len() + 1 >= list.len(),
        !list.contains(id) ==> without(list, id) == list,
    decreases list.len(),
{
    if list.len() > 0 {
        let front = list.drop_last();
        let last = list.last();
        lemma_without(front, id);
        lemma_push_contains(front, last);
        lemma_push_contains(without(front, id), last);
        assert(list =~= front.push(last));
        if list.no_duplicates() {
            assert forall|i: int, j: int|
                0 <= i < front.len() && 0 <= j < front.len() && i != j implies front[i]
                != front[j] by {
                assert(front[i] == list[i] && front[j] == list[j]);
            }
            if front.contains(last) {
                let i = choose|i: int| 0 <= i < front.len() && front[i] == last;
                assert(list[i] == list[list.len() - 1]);
            }
            if last == id {
                assert(!front.contains(id));
            }
        }
        if !list.contains(id) {
            assert(!front.contains(id));
            assert(without(list, id) =~= list);
        }
    }
}

/// Recording a channel keeps the pool well formed: a channel is never listed
/// twice, under one tier or under two.
pub proof fn lemma_adopt_well_formed(
    pool: Map<VoiceChannelType, Seq<u64>>,
    tier: VoiceChannelType,
    id: u64,
)
    requires
        well_formed(pool),
    ensures
        well_formed(adopt(pool, tier, id)),
        manages(adopt(pool, tier, id), id),
{
    let next = adopt(pool, tier, id);
    if !manages(pool, id) {
        lemma_push_contains(pool[tier], id);
        assert(next[tier] == pool[tier].push(id));
        assert(next[tier].contains(id));
        assert forall|t: VoiceChannelType| (#[trigger] next[t]).no_duplicates() by {
            if t != tier {
                assert(next[t] == pool[t]);
            } else {
                assert(!pool[tier].contains(id));
            }
        }
        assert forall|a: VoiceChannelType, b: VoiceChannelType, x: u64|
            (#[trigger] next[a].contains(x)) && (#[trigger] next[b].contains(x)) implies a
            == b by {
            if a != tier {
                assert(next[a] == pool[a]);
            }
            if b != tier {
                assert(next[b] == pool[b]);
            }
            if x == id {
                assert(!pool[a].contains(id));
                assert(!pool[b].contains(id));
            } else {
                assert(pool[a].contains(x));
                assert(pool[b].contains(x));
            }
        }
    } else {
        let t = choose|t: VoiceChannelType| (#[trigger] pool[t]).contains(id);
        assert(next[t].contains(id));
    }
}

/// A leave keeps the pool well formed.
pub proof fn lemma_leave_well_formed(
    pool: Map<VoiceChannelType, Seq<u64>>,
    name: Seq<char>,
    id: u64,
    members: u64,
)
    requires
        well_formed(pool),
    ensures
        well_formed(after_leave(pool, name, id, members)),
{
    let next = after_leave(pool, name, id, members);
    if leave_deletes(pool, name, members) {
        let tier = name_tier(name).unwrap();
        lemma_without(pool[tier], id);
        assert(next[tier] == without(pool[tier], id));
        assert forall|t: VoiceChannelType| (#[trigger] next[t]).no_duplicates() by {
            if t != tier {
                assert(next[t] == pool[t]);
            }
        }
        assert forall|a: VoiceChannelType, b: VoiceChannelType, x: u64|
            (#[trigger] next[a].contains(x)) && (#[trigger] next[b].contains(x)) implies a
            == b by {
            if a != tier {
                assert(next[a] == pool[a]);
            }
            if b != tier {
                assert(next[b] == pool[b]);
            }
            assert(pool[a].contains(x));
            assert(pool[b].contains(x));
        }
    }
}


/// The steps of a join add up to `after_join`: the step that `on_join` hands
/// back is a probe exactly where the tier may grow, and recording the new
/// channel where `needs_spare` asked for one gives the pool after the join.
pub proof fn lemma_join_steps(
    pool: Map<VoiceChannelType, Seq<u64>>,
    name: Seq<char>,
    step: JoinStep,
    member_counts: Seq<u64>,
    created: u64,
)
    requires
        step.answers(pool, name),
    ensures
        step is Probe ==> (join_grows(pool, name, member_counts) <==> !has_spare(member_counts)),
        step is Probe && !has_spare(member_counts) ==> after_join(
            pool,
            name,
            member_counts,
            created,
        ) == adopt(pool, step->tier, created),
        !(step is Probe) ==> after_join(pool, name, member_counts, created) == pool,
{
}

/// A join keeps every tier between one channel and the cap, and keeps the
/// pool well formed.
pub proof fn lemma_join_keeps_bounds(
    pool: Map<VoiceChannelType, Seq<u64>>,
    name: Seq<char>,
    member_counts: Seq<u64>,
    created: u64,
)
    requires
        well_formed(pool),
        within_bounds(pool),
    ensures
        within_bounds(after_join(pool, name, member_counts, created)),
        well_formed(after_join(pool, name, member_counts, created)),
{
    let next = after_join(pool, name, member_counts, created);
    if join_grows(pool, name, member_counts) {
        let tier = name_tier(name).unwrap();
        lemma_adopt_well_formed(pool, tier, created);
        assert forall|t: VoiceChannelType| 1 <= (#[trigger] next[t]).len()
            <= MAX_CHANNELS_PER_TIER by {
            assert(1 <= pool[t].len() <= MAX_CHANNELS_PER_TIER);
        }
    }
}

/// A leave keeps every tier between one channel and the cap: it takes one
/// channel at most, and none from a tier that has only one.
pub proof fn lemma_leave_keeps_bounds(
    pool: Map<VoiceChannelType, Seq<u64>>,
    name: Seq<char>,
    id: u64,
    members: u64,
)
    requires
        well_formed(pool),
        within_bounds(pool),
    ensures
        within_bounds(after_leave(pool, name, id, members)),
{
    let next = after_leave(pool, name, id, members);
    if leave_deletes(pool, name, members) {
        let tier = name_tier(name).unwrap();
        lemma_without(pool[tier], id);
        assert forall|t: VoiceChannelType| 1 <= (#[trigger] next[t]).len()
            <= MAX_CHANNELS_PER_TIER by {
            assert(1 <= pool[t].len() <= MAX_CHANNELS_PER_TIER);
            assert(pool[t].no_duplicates());
        }
    }
}

/// A leave takes one channel at most from a tier, never empties a tier that
/// had a channel, and where it deletes, the vacated channel is gone from its
/// tier.
pub proof fn lemma_leave_shrinks_by_one(
    pool: Map<VoiceChannelType, Seq<u64>>,
    name: Seq<char>,
    id: u64,
    members: u64,
    tier: VoiceChannelType,
)
    requires
        well_formed(pool),
    ensures
        after_leave(pool, name, id, members)[tier].len() <= pool[tier].len(),
        after_leave(pool, name, id, members)[tier].len() + 1 >= pool[tier].len(),
        pool[tier].len() >= 1 ==> after_leave(pool, name, id, members)[tier].len() >= 1,
        leave_deletes(pool, name, members) && name_tier(name) == Some(tier) ==> !after_leave(
            pool,
            name,
            id,
            members,
        )[tier].contains(id),
{
    if leave_deletes(pool, name, members) {
        let t = name_tier(name).unwrap();
        lemma_without(pool[t], id);
        assert(pool[t].no_duplicates());
    }
}

/// An event for a channel whose name ends in no tier's glyph changes
/// nothing: the join asks for no probe, the leave deletes nothing, and the
/// pool stays as it was.
pub proof fn lemma_unmanaged_event_changes_nothing(
    pool: Map<VoiceChannelType, Seq<u64>>,
    name: Seq<char>,
    id: u64,
    members: u64,
    member_counts: Seq<u64>,
    step: JoinStep,
)
    requires
        name_tier(name) is None,
    ensures
        step.answers(pool, name) <==> step is Unmanaged,
        after_join(pool, name, member_counts, id) == pool,
        !leave_deletes(pool, name, members),
        after_leave(pool, name, id, members) == pool,
{
}

/// The last channel of a tier stays: a leave from a channel of a tier that
/// has one channel deletes nothing and leaves the pool as it was, however
/// many members remain.
pub proof fn lemma_last_channel_stays(
    pool: Map<VoiceChannelType, Seq<u64>>,
    name: Seq<char>,
    id: u64,
    members: u64,
)
    requires
        name_tier(name) is Some,
        pool[name_tier(name).unwrap()].len() == 1,
    ensures
        !leave_deletes(pool, name, members),
        after_leave(pool, name, id, members) == pool,
{
}

/// A tier is reported missing exactly where it has no channel.
pub proof fn lemma_missing_exact(pool: Map<VoiceChannelType, Seq<u64>>, tier: VoiceChannelType)
    ensures
        missing(pool).contains(tier) <==> pool[tier].len() == 0,
{
    lemma_catalog_complete(tier);
    lemma_missing_among(pool, catalog(), tier);
}

proof fn lemma_missing_among(
    pool: Map<VoiceChannelType, Seq<u64>>,
    tiers: Seq<VoiceChannelType>,
    tier: VoiceChannelType,
)
    ensures
        missing_among(pool, tiers).contains(tier) <==> tiers.contains(tier) && pool[tier].len()
            == 0,
    decreases tiers.len(),
{
    if tiers.len() > 0 {
        let front = tiers.drop_last();
        lemma_missing_among(pool, front, tier);
        let found = missing_among(pool, front);
        if tiers.contains(tier) {
            let i = choose|i: int| 0 <= i < tiers.len() && tiers[i] == tier;
            if i < front.len() {
                assert(front[i] == tier);
            }
        }
        if front.contains(tier) {
            let i = choose|i: int| 0 <= i < front.len() && front[i] == tier;
            assert(tiers[i] == tier);
        }
        assert(tiers[tiers.len() - 1] == tiers.last());
        if pool[tiers.last()].len() == 0 {
            let pushed = found.push(tiers.last());
            if pushed.contains(tier) {
                let i = choose|i: int| 0 <= i < pushed.len() && pushed[i] == tier;
                if i < found.len() {
                    assert(found[i] == tier);
                }
            }
            if found.contains(tier) {
                let i = choose|i: int| 0 <= i < found.len() && found[i] == tier;
                assert(pushed[i] == tier);
            }
            assert(pushed[found.len() as int] == tiers.last());
        }
    }
}

/// Recording a new channel under a tier gives that tier one channel more and
/// leaves the other tiers as they were, so a tier that was missing is missing
/// no longer.
pub proof fn lemma_adopt_fills(
    pool: Map<VoiceChannelType, Seq<u64>>,
    tier: VoiceChannelType,
    id: u64,
    other: VoiceChannelType,
)
    requires
        !manages(pool, id),
    ensures
        adopt(pool, tier, id)[tier] == pool[tier].push(id),
        other != tier ==> adopt(pool, tier, id)[other] == pool[other],
        !missing(adopt(pool, tier, id)).contains(tier),
{
    lemma_missing_exact(adopt(pool, tier, id), tier);
}


/// After recording a channel the pool manages it, and besides it what it
/// managed before.
pub proof fn lemma_adopt_manages(
    pool: Map<VoiceChannelType, Seq<u64>>,
    tier: VoiceChannelType,
    created: u64,
    id: u64,
)
    requires
        well_formed(pool),
    ensures
        manages(adopt(pool, tier, created), id) <==> manages(pool, id) || id == created,
{
    let next = adopt(pool, tier, created);
    lemma_adopt_well_formed(pool, tier, created);
    if !manages(pool, created) {
        lemma_push_contains(pool[tier], created);
        if manages(next, id) {
            let t = choose|t: VoiceChannelType| (#[trigger] next[t]).contains(id);
            if t != tier {
                assert(pool[t].contains(id));
            } else if id != created {
                assert(pool[tier].contains(id));
            }
        }
        if manages(pool, id) {
            let t = choose|t: VoiceChannelType| (#[trigger] pool[t]).contains(id);
            assert(next[t].contains(id));
        }
    }
}

/// The pool built from a listing is well formed and manages exactly the
/// managed channels of the listing.
pub proof fn lemma_scanned_manages(listing: Seq<ChannelInfo>, category: u64, id: u64)
    ensures
        well_formed(scanned(listing, category)),
        manages(scanned(listing, category), id) <==> lists_managed(listing, category, id),
    decreases listing.len(),
{
    if listing.len() == 0 {
        if manages(empty_pool(), id) {
            let t = choose|t: VoiceChannelType| (#[trigger] empty_pool()[t]).contains(id);
            assert(empty_pool()[t].len() == 0);
        }
    } else {
        let front = listing.drop_last();
        let last = listing.last();
        let rest = scanned(front, category);
        lemma_scanned_manages(front, category, id);
        if lists_managed(front, category, id) {
            let i = choose|i: int|
                0 <= i < front.len() && (#[trigger] front[i]).id == id && front[i].managed_tier(
                    category,
                ) is Some;
            assert(listing[i] == front[i]);
        }
        if lists_managed(listing, category, id) {
            let i = choose|i: int|
                0 <= i < listing.len() && (#[trigger] listing[i]).id == id
                    && listing[i].managed_tier(category) is Some;
            if i < front.len() {
                assert(front[i] == listing[i]);
            }
        }
        match last.managed_tier(category) {
            Some(tier) => {
                lemma_adopt_well_formed(rest, tier, last.id);
                lemma_adopt_manages(rest, tier, last.id, id);
                assert(listing[listing.len() - 1] == last);
            },
            None => {},
        }
    }
}

/// Where no two channels of a listing share an id, the pool built from it
/// has under each tier the listing's channels of that tier, in the order of
/// the listing.
pub proof fn lemma_scanned_distinct(listing: Seq<ChannelInfo>, category: u64, tier: VoiceChannelType)
    requires
        forall|i: int, j: int|
            0 <= i < j < listing.len() ==> (#[trigger] listing[i]).id != (#[trigger] listing[j]).id,
    ensures
        scanned(listing, category)[tier] == listed_under(listing, category, tier),
    decreases listing.len(),
{
    if listing.len() > 0 {
        let front = listing.drop_last();
        let last = listing.last();
        let rest = scanned(front, category);
        assert forall|i: int, j: int| 0 <= i < j < front.len() implies (#[trigger] front[i]).id != (
        #[trigger] front[j]).id by {
            assert(front[i] == listing[i] && front[j] == listing[j]);
        }
        lemma_scanned_distinct(front, category, tier);
        lemma_scanned_manages(front, category, last.id);
        if lists_managed(front, category, last.id) {
            let i = choose|i: int|
                0 <= i < front.len() && (#[trigger] front[i]).id == last.id
                    && front[i].managed_tier(category) is Some;
            assert(front[i] == listing[i]);
            assert(listing[listing.len() - 1] == last);
        }
    }
}

/// Whatever events follow one another, a pool that is well formed and has
/// between one channel and the cap under every tier stays so.
pub proof fn lemma_events_keep_bounds(pool: Map<VoiceChannelType, Seq<u64>>, events: Seq<Event>)
    requires
        well_formed(pool),
        within_bounds(pool),
    ensures
        well_formed(after_events(pool, events)),
        within_bounds(after_events(pool, events)),
    decreases events.len(),
{
    if events.len() > 0 {
        let before = after_events(pool, events.drop_last());
        lemma_events_keep_bounds(pool, events.drop_last());
        match events.last() {
            Event::Join { name, member_counts, created } => {
                lemma_join_keeps_bounds(before, name, member_counts, created);
            },
            Event::Leave { name, id, members } => {
                lemma_leave_well_formed(before, name, id, members);
                lemma_leave_keeps_bounds(before, name, id, members);
            },
        }
    }
}

/// Whatever events follow one another, no channel comes to stand under two
/// tiers, or twice under one.
pub proof fn lemma_events_keep_well_formed(
    pool: Map<VoiceChannelType, Seq<u64>>,
    events: Seq<Event>,
)
    requires
        well_formed(pool),
    ensures
        well_formed(after_events(pool, events)),
    decreases events.len(),
{
    if events.len() > 0 {
        let before = after_events(pool, events.drop_last());
        lemma_events_keep_well_formed(pool, events.drop_last());
        match events.last() {
            Event::Join { name, member_counts, created } => {
                if join_grows(before, name, member_counts) {
                    lemma_adopt_well_formed(before, name_tier(name).unwrap(), created);
                }
            },
            Event::Leave { name, id, members } => {
                lemma_leave_well_formed(before, name, id, members);
            },
        }
    }
}

proof fn lemma_filled(
    pool: Map<VoiceChannelType, Seq<u64>>,
    tiers: Seq<VoiceChannelType>,
    ids: Seq<u64>,
)
    requires
        well_formed(pool),
        tiers.len() == ids.len(),
        ids.no_duplicates(),
        forall|k: int| 0 <= k < ids.len() ==> !manages(pool, #[trigger] ids[k]),
    ensures
        well_formed(filled(pool, tiers, ids)),
        forall|x: u64| #[trigger]
            manages(filled(pool, tiers, ids), x) <==> manages(pool, x) || ids.contains(x),
        forall|t: VoiceChannelType| (#[trigger] filled(pool, tiers, ids)[t]).len() >= pool[t].len(),
        forall|k: int|
            0 <= k < tiers.len() ==> filled(pool, tiers, ids)[#[trigger] tiers[k]].len() >= 1,
    decreases ids.len(),
{
    if ids.len() > 0 {
        let front_tiers = tiers.drop_last();
        let front_ids = ids.drop_last();
        let tier = tiers.last();
        let id = ids.last();
        let before = filled(pool, front_tiers, front_ids);
        let next = filled(pool, tiers, ids);
        assert forall|k: int| 0 <= k < front_ids.len() implies !manages(
            pool,
            #[trigger] front_ids[k],
        ) by {
            assert(front_ids[k] == ids[k]);
        }
        assert(front_ids.no_duplicates());
        lemma_filled(pool, front_tiers, front_ids);
        assert(!manages(pool, ids[ids.len() - 1]));
        if front_ids.contains(id) {
            let k = choose|k: int| 0 <= k < front_ids.len() && front_ids[k] == id;
            assert(ids[k] == ids[ids.len() - 1]);
        }
        assert(!manages(before, id));
        lemma_adopt_well_formed(before, tier, id);
        assert(next[tier] == before[tier].push(id));
        assert forall|x: u64| #[trigger]
            manages(next, x) <==> manages(pool, x) || ids.contains(x) by {
            lemma_adopt_manages(before, tier, id, x);
            if front_ids.contains(x) {
                let k = choose|k: int| 0 <= k < front_ids.len() && front_ids[k] == x;
                assert(ids[k] == x);
            }
            if ids.contains(x) && x != id {
                let k = choose|k: int| 0 <= k < ids.len() && ids[k] == x;
                assert(front_ids[k] == x);
            }
        }
        assert forall|t: VoiceChannelType| (#[trigger] next[t]).len() >= pool[t].len() by {
            assert(before[t].len() >= pool[t].len());
        }
        assert forall|k: int| 0 <= k < tiers.len() implies next[#[trigger] tiers[k]].len()
            >= 1 by {
            if k < front_tiers.len() {
                assert(front_tiers[k] == tiers[k]);
                assert(before[front_tiers[k]].len() >= 1);
                assert(next[tiers[k]].len() >= before[tiers[k]].len());
            }
        }
    }
}

/// A bootstrap leaves no tier without a channel: once the caller has
/// recorded one new channel for each tier that the listing left empty, every
/// tier has at least one channel, and the pool is well formed.
pub proof fn lemma_bootstrap_complete(
    listing: Seq<ChannelInfo>,
    category: u64,
    created: Seq<u64>,
    tier: VoiceChannelType,
)
    requires
        created.len() == missing(scanned(listing, category)).len(),
        created.no_duplicates(),
        forall|k: int|
            0 <= k < created.len() ==> !lists_managed(listing, category, #[trigger] created[k]),
    ensures
        well_formed(filled(scanned(listing, category), missing(scanned(listing, category)), created)),
        filled(scanned(listing, category), missing(scanned(listing, category)), created)[tier].len()
            >= 1,
{
    let pool = scanned(listing, category);
    let tiers = missing(pool);
    assert forall|k: int| 0 <= k < created.len() implies !manages(pool, #[trigger] created[k]) by {
        lemma_scanned_manages(listing, category, created[k]);
    }
    lemma_scanned_manages(listing, category, 0);
    lemma_filled(pool, tiers, created);
    lemma_missing_exact(pool, tier);
    let next = filled(pool, tiers, created);
    assert(next[tier].len() >= pool[tier].len());
    if pool[tier].len() == 0 {
        let k = choose|k: int| 0 <= k < tiers.len() && tiers[k] == tier;
        assert(next[tiers[k]].len() >= 1);
    }
}

} // verus!
