//! The pool: which channels belong to which tier, and how occupancy events
//! change that.

use vstd::prelude::*;
use crate::channel::{channel_request, name_tier, tier_name, tier_of, ChannelInfo, ChannelRequest};
use crate::laws::{lemma_adopt_well_formed, lemma_leave_keeps_bounds, lemma_leave_well_formed};
use crate::model::{
    adopt, after_leave, empty_pool, has_spare, leave_deletes, manages, missing, missing_among,
    scanned, well_formed, within_bounds, without, MAX_CHANNELS_PER_TIER,
};
use crate::order::{display_positions, plan_positions};
use crate::tier::{catalog, VoiceChannelType};

verus! {

/// What a join asks of the caller.
#[derive(Debug)]
pub enum JoinStep {
    /// The channel belongs to no tier: nothing to do.
    Unmanaged,
    /// The tier is at its cap: it gets no further channel.
    AtCapacity,
    /// The tier may grow. The caller counts the members of each of these
    /// channels, and the tier gets a new channel if none of them is empty.
    Probe { tier: VoiceChannelType, channels: Vec<u64> },
}

impl JoinStep {
    /// Whether this is the step that the pool owes a join into a channel of
    /// the given name.
    pub open spec fn answers(self, pool: Map<VoiceChannelType, Seq<u64>>, name: Seq<char>) -> bool {
        match self {
            JoinStep::Unmanaged => name_tier(name) is None,
            JoinStep::AtCapacity => name_tier(name) is Some && pool[name_tier(name).unwrap()].len()
                >= MAX_CHANNELS_PER_TIER,
            JoinStep::Probe { tier, channels } => name_tier(name) == Some(tier) && pool[tier].len()
                < MAX_CHANNELS_PER_TIER && channels@ == pool[tier],
        }
    }
}

/// The pool of one container.
pub struct VoiceChannelManager {
    category_id: u64,
    unlimited: Vec<u64>,
    two: Vec<u64>,
    three: Vec<u64>,
    four: Vec<u64>,
    five: Vec<u64>,
}

fn holds(list: &Vec<u64>, id: u64) -> (found: bool)
    ensures
        found == list@.contains(id),
{
    let mut i: usize = 0;
    while i < list.len()
        invariant
            i <= list.len(),
            forall|k: int| 0 <= k < i ==> list@[k] != id,
        decreases list.len() - i,
    {
        if list[i] == id {
            return true;
        }
        i += 1;
    }
    false
}

fn copy_of(list: &Vec<u64>) -> (copy: Vec<u64>)
    ensures
        copy@ == list@,
{
    let mut copy: Vec<u64> = Vec::new();
    let mut i: usize = 0;
    while i < list.len()
        invariant
            i <= list.len(),
            copy@ == list@.take(i as int),
        decreases list.len() - i,
    {
        copy.push(list[i]);
        assert(list@.take(i + 1) =~= list@.take(i as int).push(list@[i as int]));
        i += 1;
    }
    assert(list@.take(list.len() as int) =~= list@);
    copy
}

fn list_without(list: &Vec<u64>, id: u64) -> (kept: Vec<u64>)
    ensures
        kept@ == without(list@, id),
{
    let mut kept: Vec<u64> = Vec::new();
    let mut i: usize = 0;
    assert(list@.take(0) =~= Seq::<u64>::empty());
    while i < list.len()
        invariant
            i <= list.len(),
            kept@ == without(list@.take(i as int), id),
        decreases list.len() - i,
    {
        assert(list@.take(i + 1).drop_last() =~= list@.take(i as int));
        if list[i] != id {
            kept.push(list[i]);
        }
        i += 1;
    }
    assert(list@.take(list.len() as int) =~= list@);
    kept
}

/// Whether none of the probed channels is empty, so that the tier has no
/// spare and needs a new channel. `member_counts` holds the number of
/// members found in each channel of the tier.
pub fn needs_spare(member_counts: &Vec<u64>) -> (needed: bool)
    ensures
        needed == !has_spare(member_counts@),
{
    let mut i: usize = 0;
    while i < member_counts.len()
        invariant
            i <= member_counts.len(),
            forall|k: int| 0 <= k < i ==> member_counts@[k] != 0,
        decreases member_counts.len() - i,
    {
        if member_counts[i] == 0 {
            return false;
        }
        i += 1;
    }
    true
}

/// The pool that has the given list under each tier.
pub open spec fn pool_of(
    unlimited: Seq<u64>,
    two: Seq<u64>,
    three: Seq<u64>,
    four: Seq<u64>,
    five: Seq<u64>,
) -> Map<VoiceChannelType, Seq<u64>> {
    Map::total(
        |tier: VoiceChannelType|
            match tier {
                VoiceChannelType::Unlimited => unlimited,
                VoiceChannelType::Two => two,
                VoiceChannelType::Three => three,
                VoiceChannelType::Four => four,
                VoiceChannelType::Five => five,
            },
    )
}

impl View for VoiceChannelManager {
    type V = Map<VoiceChannelType, Seq<u64>>;

    closed spec fn view(&self) -> Map<VoiceChannelType, Seq<u64>> {
        pool_of(self.unlimited@, self.two@, self.three@, self.four@, self.five@)
    }
}

impl VoiceChannelManager {
    #[verifier::type_invariant]
    spec fn inv(&self) -> bool {
        well_formed(self@)
    }

    /// The container whose channels the pool manages.
    pub closed spec fn category(&self) -> u64 {
        self.category_id
    }

    fn list(&self, tier: VoiceChannelType) -> (list: &Vec<u64>)
        ensures
            list@ == self@[tier],
    {
        match tier {
            VoiceChannelType::Unlimited => &self.unlimited,
            VoiceChannelType::Two => &self.two,
            VoiceChannelType::Three => &self.three,
            VoiceChannelType::Four => &self.four,
            VoiceChannelType::Five => &self.five,
        }
    }

    fn set_list(&mut self, tier: VoiceChannelType, list: Vec<u64>)
        requires
            well_formed(old(self)@.insert(tier, list@)),
        ensures
            final(self)@ == old(self)@.insert(tier, list@),
            final(self).category() == old(self).category(),
    {
        let ghost next = self@.insert(tier, list@);
        match tier {
            VoiceChannelType::Unlimited => {
                assert(pool_of(list@, self.two@, self.three@, self.four@, self.five@) =~= next);
                self.unlimited = list;
            },
            VoiceChannelType::Two => {
                assert(pool_of(self.unlimited@, list@, self.three@, self.four@, self.five@) =~= next);
                self.two = list;
            },
            VoiceChannelType::Three => {
                assert(pool_of(self.unlimited@, self.two@, list@, self.four@, self.five@) =~= next);
                self.three = list;
            },
            VoiceChannelType::Four => {
                assert(pool_of(self.unlimited@, self.two@, self.three@, list@, self.five@) =~= next);
                self.four = list;
            },
            VoiceChannelType::Five => {
                assert(pool_of(self.unlimited@, self.two@, self.three@, self.four@, list@) =~= next);
                self.five = list;
            },
        }
        assert(self@ =~= next);
    }

    /// A pool for the container `category_id`, with no channel recorded yet.
    pub fn new(category_id: u64) -> (manager: Self)
        ensures
            manager@ == empty_pool(),
            manager.category() == category_id,
            well_formed(manager@),
    {
        let manager = Self {
            category_id,
            unlimited: Vec::new(),
            two: Vec::new(),
            three: Vec::new(),
            four: Vec::new(),
            five: Vec::new(),
        };
        assert(manager@ =~= empty_pool());
        manager
    }

    /// The container whose channels the pool manages.
    pub fn category_id(&self) -> (id: u64)
        ensures
            id == self.category(),
    {
        self.category_id
    }

    /// The channels recorded under a tier, oldest first. A pool is well
    /// formed at all times, which a caller learns here.
    pub fn channels(&self, tier: VoiceChannelType) -> (list: Vec<u64>)
        ensures
            list@ == self@[tier],
            well_formed(self@),
    {
        proof {
            use_type_invariant(self);
        }
        copy_of(self.list(tier))
    }

    /// Whether the pool holds the channel under any tier.
    pub fn is_managed(&self, id: u64) -> (found: bool)
        ensures
            found == manages(self@, id),
    {
        let found = holds(&self.unlimited, id) || holds(&self.two, id) || holds(&self.three, id)
            || holds(&self.four, id) || holds(&self.five, id);
        proof {
            if found {
                if self.unlimited@.contains(id) {
                    assert(self@[VoiceChannelType::Unlimited].contains(id));
                } else if self.two@.contains(id) {
                    assert(self@[VoiceChannelType::Two].contains(id));
                } else if self.three@.contains(id) {
                    assert(self@[VoiceChannelType::Three].contains(id));
                } else if self.four@.contains(id) {
                    assert(self@[VoiceChannelType::Four].contains(id));
                } else {
                    assert(self@[VoiceChannelType::Five].contains(id));
                }
            }
        }
        found
    }

    /// Records a channel under a tier, behind those the tier already has. A
    /// channel that the pool already holds is not recorded again, and the
    /// result says so.
    pub fn record_created(&mut self, tier: VoiceChannelType, id: u64) -> (recorded: bool)
        ensures
            recorded == !manages(old(self)@, id),
            final(self)@ == adopt(old(self)@, tier, id),
            final(self).category() == old(self).category(),
            well_formed(final(self)@),
    {
        proof {
            use_type_invariant(&*self);
            lemma_adopt_well_formed(self@, tier, id);
        }
        if self.is_managed(id) {
            return false;
        }
        let mut list = copy_of(self.list(tier));
        list.push(id);
        self.set_list(tier, list);
        true
    }

    /// Rebuilds the pool from a listing of the remote channels: every voice
    /// channel of the container whose name ends in a tier's glyph is recorded
    /// under that tier, in the order of the listing. What the pool held before
    /// is dropped.
    ///
    /// Returns the tiers that are left without a channel, in catalogue order.
    /// The caller creates one channel for each and records it.
    pub fn initialize(&mut self, listing: &Vec<ChannelInfo>) -> (to_create: Vec<VoiceChannelType>)
        ensures
            final(self)@ == scanned(listing@, old(self).category()),
            final(self).category() == old(self).category(),
            well_formed(final(self)@),
            to_create@ == missing(final(self)@),
    {
        let category: u64 = self.category_id;
        *self = Self::new(category);
        assert(listing@.take(0) =~= Seq::<ChannelInfo>::empty());
        let mut i: usize = 0;
        while i < listing.len()
            invariant
                i <= listing.len(),
                category == self.category(),
                self.category() == old(self).category(),
                self@ == scanned(listing@.take(i as int), category),
                well_formed(self@),
            decreases listing.len() - i,
        {
            assert(listing@.take(i + 1).drop_last() =~= listing@.take(i as int));
            match listing[i].tier_in(category) {
                Some(tier) => {
                    self.record_created(tier, listing[i].id);
                },
                None => {},
            }
            i += 1;
        }
        assert(listing@.take(listing.len() as int) =~= listing@);
        self.missing_tiers()
    }

    /// The tiers without a channel, in catalogue order.
    pub fn missing_tiers(&self) -> (tiers: Vec<VoiceChannelType>)
        ensures
            tiers@ == missing(self@),
    {
        let all = VoiceChannelType::all();
        let mut tiers: Vec<VoiceChannelType> = Vec::new();
        let mut i: usize = 0;
        assert(all@.take(0) =~= Seq::<VoiceChannelType>::empty());
        while i < all.len()
            invariant
                i <= all.len(),
                all@ == catalog(),
                tiers@ == missing_among(self@, all@.take(i as int)),
            decreases all.len() - i,
        {
            assert(all@.take(i + 1).drop_last() =~= all@.take(i as int));
            if self.list(all[i]).len() == 0 {
                tiers.push(all[i]);
            }
            i += 1;
        }
        assert(all@.take(all.len() as int) =~= all@);
        tiers
    }

    /// The request for a new channel of a tier in this pool's container.
    pub fn create_channel(&self, tier: VoiceChannelType) -> (request: ChannelRequest)
        ensures
            request.name@ == tier_name(tier),
            request.parent == self.category(),
            request.user_limit == tier.capacity(),
            name_tier(request.name@) == Some(tier),
    {
        channel_request(self.category_id, tier)
    }

    /// Answers a join into the channel of the given name. The pool itself
    /// does not change: where the tier may grow, the caller probes the
    /// channels handed back, asks `needs_spare`, and records what it created.
    pub fn on_join(&self, name: &str) -> (step: JoinStep)
        ensures
            step.answers(self@, name@),
            well_formed(self@),
    {
        proof {
            use_type_invariant(self);
        }
        match tier_of(name) {
            None => JoinStep::Unmanaged,
            Some(tier) => {
                let list = self.list(tier);
                if list.len() >= MAX_CHANNELS_PER_TIER {
                    JoinStep::AtCapacity
                } else {
                    JoinStep::Probe { tier, channels: copy_of(list) }
                }
            },
        }
    }

    /// Answers a leave from the channel `channel_id` of the given name, in
    /// which `members` members remain. Where the result is `true` the pool
    /// has given the channel up and the caller deletes it.
    pub fn on_leave(&mut self, channel_id: u64, name: &str, members: u64) -> (delete: bool)
        ensures
            delete == leave_deletes(old(self)@, name@, members),
            final(self)@ == after_leave(old(self)@, name@, channel_id, members),
            final(self).category() == old(self).category(),
            well_formed(final(self)@),
            within_bounds(old(self)@) ==> within_bounds(final(self)@),
    {
        proof {
            use_type_invariant(&*self);
            lemma_leave_well_formed(self@, name@, channel_id, members);
            if within_bounds(self@) {
                lemma_leave_keeps_bounds(self@, name@, channel_id, members);
            }
        }
        match tier_of(name) {
            None => false,
            Some(tier) => {
                if members != 0 {
                    return false;
                }
                if self.list(tier).len() > 1 {
                    let kept = list_without(self.list(tier), channel_id);
                    self.set_list(tier, kept);
                    true
                } else {
                    false
                }
            },
        }
    }

    /// The bulk reorder for this pool's container: each managed channel of
    /// the listing with its position, ascending by member limit, channels
    /// without a limit first, equal limits in the order of the listing.
    pub fn resync(&self, listing: &Vec<ChannelInfo>) -> (positions: Vec<(u64, u64)>)
        ensures
            positions@ == display_positions(listing@, self.category()),
    {
        plan_positions(listing, self.category_id)
    }
}

} // verus!
