//! The display order of the managed channels: ascending by member limit,
//! channels without a limit first, equal limits in the order of the listing.

use vstd::prelude::*;
use crate::channel::ChannelInfo;

verus! {

/// A managed channel reduced to what its place in the order depends on.
#[derive(Debug, Clone, Copy, PartialEq, Eq, Structural)]
pub struct Entry {
    pub id: u64,
    /// The member limit, 0 for a channel without one.
    pub limit: u32,
}

/// The managed channels of a listing, in the listing's order.
pub open spec fn entries(listing: Seq<ChannelInfo>, category: u64) -> Seq<Entry>
    decreases listing.len(),
{
    if listing.len() == 0 {
        Seq::empty()
    } else {
        let rest = entries(listing.drop_last(), category);
        let channel = listing.last();
        if channel.managed_tier(category).is_some() {
            rest.push(Entry { id: channel.id, limit: channel.limit_key() })
        } else {
            rest
        }
    }
}

/// Where a new entry goes in an ordered sequence: behind the last entry whose
/// limit is not above its own.
pub open spec fn slot_for(ordered: Seq<Entry>, entry: Entry) -> int
    decreases ordered.len(),
{
    if ordered.len() == 0 {
        0
    } else if ordered.last().limit <= entry.limit {
        ordered.len() as int
    } else {
        slot_for(ordered.drop_last(), entry)
    }
}

/// The entries in display order: each entry of the sequence in turn is put
/// behind those before it that have the same or a lower limit.
pub open spec fn stable_order(s: Seq<Entry>) -> Seq<Entry>
    decreases s.len(),
{
    if s.len() == 0 {
        Seq::empty()
    } else {
        let ordered = stable_order(s.drop_last());
        ordered.insert(slot_for(ordered, s.last()), s.last())
    }
}

/// Limits never go down along the sequence.
pub open spec fn ascending(s: Seq<Entry>) -> bool {
    forall|i: int, j: int| 0 <= i < j < s.len() ==> s[i].limit <= s[j].limit
}

/// The test for an entry with the given limit.
pub open spec fn has_limit(limit: u32) -> spec_fn(Entry) -> bool {
    |e: Entry| e.limit == limit
}

/// Each entry with the position of its place in the sequence.
pub open spec fn numbered(s: Seq<Entry>) -> Seq<(u64, u64)> {
    Seq::new(s.len(), |i: int| (s[i].id, i as u64))
}

/// The positions that a resync assigns to the channels of a listing.
pub open spec fn display_positions(listing: Seq<ChannelInfo>, category: u64) -> Seq<(u64, u64)> {
    numbered(stable_order(entries(listing, category)))
}

proof fn lemma_slot_for(ordered: Seq<Entry>, entry: Entry)
    ensures
        0 <= slot_for(ordered, entry) <= ordered.len(),
        forall|i: int|
            slot_for(ordered, entry) <= i < ordered.len() ==> (#[trigger] ordered[i]).limit
                > entry.limit,
        slot_for(ordered, entry) > 0 ==> ordered[slot_for(ordered, entry) - 1].limit
            <= entry.limit,
    decreases ordered.len(),
{
    if ordered.len() > 0 && ordered.last().limit > entry.limit {
        let front = ordered.drop_last();
        lemma_slot_for(front, entry);
        assert forall|i: int| slot_for(ordered, entry) <= i < ordered.len() implies (
        #[trigger] ordered[i]).limit > entry.limit by {
            if i < front.len() {
                assert(front[i] == ordered[i]);
            }
        }
        if slot_for(ordered, entry) > 0 {
            assert(front[slot_for(ordered, entry) - 1] == ordered[slot_for(ordered, entry) - 1]);
        }
    }
}

/// Ordering keeps the number of entries.
pub proof fn lemma_stable_order_len(s: Seq<Entry>)
    ensures
        stable_order(s).len() == s.len(),
    decreases s.len(),
{
    if s.len() > 0 {
        lemma_stable_order_len(s.drop_last());
        lemma_slot_for(stable_order(s.drop_last()), s.last());
    }
}

/// In display order the limits never go down, and an entry without a limit,
/// whose key is 0, comes before every entry with one.
pub proof fn lemma_stable_order_ascending(s: Seq<Entry>)
    ensures
        ascending(stable_order(s)),
    decreases s.len(),
{
    if s.len() > 0 {
        let ordered = stable_order(s.drop_last());
        let x = s.last();
        let p = slot_for(ordered, x);
        lemma_stable_order_ascending(s.drop_last());
        lemma_slot_for(ordered, x);
        let out = ordered.insert(p, x);
        assert forall|i: int, j: int| 0 <= i < j < out.len() implies out[i].limit
            <= out[j].limit by {
            if i < p {
                assert(out[i] == ordered[i]);
                assert(ordered[i].limit <= ordered[p - 1].limit);
            }
            if j > p {
                assert(out[j] == ordered[j - 1]);
            }
        }
    }
}

/// Display order is a rearrangement: every entry is kept, as often as it
/// occurs.
pub proof fn lemma_stable_order_permutes(s: Seq<Entry>)
    ensures
        stable_order(s).to_multiset() == s.to_multiset(),
    decreases s.len(),
{
    broadcast use vstd::seq_lib::group_to_multiset_ensures;

    if s.len() > 0 {
        let ordered = stable_order(s.drop_last());
        let x = s.last();
        let p = slot_for(ordered, x);
        lemma_stable_order_permutes(s.drop_last());
        lemma_slot_for(ordered, x);
        let front = ordered.take(p);
        let back = ordered.skip(p);
        assert(ordered =~= front + back);
        assert(ordered.insert(p, x) =~= front.push(x) + back);
        vstd::seq_lib::lemma_multiset_commutative(front, back);
        vstd::seq_lib::lemma_multiset_commutative(front.push(x), back);
        assert(s =~= s.drop_last().push(x));
        assert(ordered.insert(p, x).to_multiset() =~= ordered.to_multiset().insert(x));
    } else {
        assert(stable_order(s) =~= s);
    }
}

/// Entries of one limit keep the order they had: picking out the entries of
/// any one limit gives the same sequence before and after ordering.
pub proof fn lemma_stable_order_keeps_ties(s: Seq<Entry>, limit: u32)
    ensures
        stable_order(s).filter(has_limit(limit)) == s.filter(has_limit(limit)),
    decreases s.len(),
{
    let pick = has_limit(limit);
    if s.len() > 0 {
        let ordered = stable_order(s.drop_last());
        let x = s.last();
        let p = slot_for(ordered, x);
        lemma_stable_order_keeps_ties(s.drop_last(), limit);
        lemma_slot_for(ordered, x);
        let front = ordered.take(p);
        let back = ordered.skip(p);
        assert(ordered =~= front + back);
        assert(ordered.insert(p, x) =~= (front + seq![x]) + back);
        Seq::filter_distributes_over_add(front, back, pick);
        Seq::filter_distributes_over_add(front + seq![x], back, pick);
        Seq::filter_distributes_over_add(front, seq![x], pick);
        Seq::filter_distributes_over_add(s.drop_last(), seq![x], pick);
        assert(s =~= s.drop_last() + seq![x]);
        if x.limit == limit {
            if back.filter(pick).len() > 0 {
                let e = back.filter(pick)[0];
                back.lemma_filter_pred(pick, 0);
                assert(back.filter(pick).contains(e));
                back.lemma_filter_contains_rev(pick, e);
                let k = choose|k: int| 0 <= k < back.len() && back[k] == e;
                assert(back[k] == ordered[p + k]);
                assert(false);
            }
            assert(back.filter(pick) =~= Seq::<Entry>::empty());
            assert(front.filter(pick) + seq![x].filter(pick) + back.filter(pick) =~= (front.filter(
                pick,
            ) + back.filter(pick)) + seq![x].filter(pick));
        } else {
            reveal_with_fuel(Seq::filter, 2);
            assert(seq![x].drop_last() =~= Seq::<Entry>::empty());
            assert(seq![x].filter(pick) =~= Seq::<Entry>::empty());
            assert(front.filter(pick) + seq![x].filter(pick) + back.filter(pick) =~= front.filter(
                pick,
            ) + back.filter(pick));
        }
    } else {
        assert(stable_order(s) =~= s);
    }
}

/// The positions of a resync count up from 0 along the display order, in which
/// the member limits never go down and channels of one limit stand as the
/// listing had them.
pub proof fn lemma_display_positions(listing: Seq<ChannelInfo>, category: u64, limit: u32)
    ensures
        display_positions(listing, category).len() == entries(listing, category).len(),
        forall|i: int|
            0 <= i < display_positions(listing, category).len() ==> (#[trigger] display_positions(
                listing,
                category,
            )[i]) == (stable_order(entries(listing, category))[i].id, i as u64),
        ascending(stable_order(entries(listing, category))),
        stable_order(entries(listing, category)).filter(has_limit(limit)) == entries(
            listing,
            category,
        ).filter(has_limit(limit)),
        stable_order(entries(listing, category)).to_multiset() == entries(
            listing,
            category,
        ).to_multiset(),
{
    let found = entries(listing, category);
    lemma_stable_order_len(found);
    lemma_stable_order_ascending(found);
    lemma_stable_order_keeps_ties(found, limit);
    lemma_stable_order_permutes(found);
}

/// Picks the managed channels out of a listing.
pub fn managed_entries(listing: &Vec<ChannelInfo>, category: u64) -> (found: Vec<Entry>)
    ensures
        found@ == entries(listing@, category),
{
    let mut found: Vec<Entry> = Vec::new();
    let mut i: usize = 0;
    assert(listing@.take(0) =~= Seq::<ChannelInfo>::empty());
    while i < listing.len()
        invariant
            i <= listing.len(),
            found@ == entries(listing@.take(i as int), category),
        decreases listing.len() - i,
    {
        let channel = &listing[i];
        assert(listing@.take(i + 1).drop_last() =~= listing@.take(i as int));
        if channel.tier_in(category).is_some() {
            let limit: u32 = match channel.user_limit {
                Some(limit) => limit,
                None => 0,
            };
            found.push(Entry { id: channel.id, limit });
        }
        i += 1;
    }
    assert(listing@.take(listing.len() as int) =~= listing@);
    found
}

/// Puts entries into display order: ascending by limit, entries of one limit
/// in the order they came in.
pub fn sort_entries(unordered: &Vec<Entry>) -> (ordered: Vec<Entry>)
    ensures
        ordered@ == stable_order(unordered@),
        ordered@.len() == unordered@.len(),
        ordered@.to_multiset() == unordered@.to_multiset(),
        ascending(ordered@),
        forall|limit: u32| #[trigger]
            ordered@.filter(has_limit(limit)) == unordered@.filter(has_limit(limit)),
{
    let mut ordered: Vec<Entry> = Vec::new();
    let mut i: usize = 0;
    assert(unordered@.take(0) =~= Seq::<Entry>::empty());
    while i < unordered.len()
        invariant
            i <= unordered.len(),
            ordered@ == stable_order(unordered@.take(i as int)),
        decreases unordered.len() - i,
    {
        let entry = unordered[i];
        let mut j: usize = ordered.len();
        assert(ordered@.take(j as int) =~= ordered@);
        while j > 0 && ordered[j - 1].limit > entry.limit
            invariant
                j <= ordered.len(),
                slot_for(ordered@, entry) == slot_for(ordered@.take(j as int), entry),
            decreases j,
        {
            assert(ordered@.take(j as int).drop_last() =~= ordered@.take(j - 1));
            j -= 1;
        }
        assert(unordered@.take(i + 1).drop_last() =~= unordered@.take(i as int));
        ordered.insert(j, entry);
        i += 1;
    }
    assert(unordered@.take(unordered.len() as int) =~= unordered@);
    proof {
        lemma_stable_order_len(unordered@);
        lemma_stable_order_ascending(unordered@);
        lemma_stable_order_permutes(unordered@);
        assert forall|limit: u32| #[trigger]
            ordered@.filter(has_limit(limit)) == unordered@.filter(has_limit(limit)) by {
            lemma_stable_order_keeps_ties(unordered@, limit);
        }
    }
    ordered
}

/// Computes the bulk reorder for a container: each managed channel of the
/// listing with its new position, positions counting up from 0 in display
/// order.
pub fn plan_positions(listing: &Vec<ChannelInfo>, category: u64) -> (positions: Vec<(u64, u64)>)
    ensures
        positions@ == display_positions(listing@, category),
{
    let found = managed_entries(listing, category);
    let ordered = sort_entries(&found);
    let mut positions: Vec<(u64, u64)> = Vec::new();
    let mut i: usize = 0;
    while i < ordered.len()
        invariant
            i <= ordered.len(),
            positions@.len() == i,
            forall|k: int| 0 <= k < i ==> positions@[k] == (ordered@[k].id, k as u64),
        decreases ordered.len() - i,
    {
        positions.push((ordered[i].id, i as u64));
        i += 1;
    }
    assert(positions@ =~= numbered(ordered@));
    positions
}

} // verus!
