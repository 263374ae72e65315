use voice_pool::channel::ChannelInfo;
use voice_pool::order::{managed_entries, plan_positions, sort_entries, Entry};
use voice_pool::model::MAX_CHANNELS_PER_TIER;
use voice_pool::pool::{needs_spare, JoinStep, VoiceChannelManager};
use voice_pool::tier::VoiceChannelType;

const CATEGORY: u64 = 100;

fn voice(id: u64, name: &str, user_limit: Option<u32>) -> ChannelInfo {
    ChannelInfo { id, name: String::from(name), voice: true, parent: Some(CATEGORY), user_limit }
}

fn bootstrapped() -> VoiceChannelManager {
    let mut manager = VoiceChannelManager::new(CATEGORY);
    let to_create = manager.initialize(&Vec::new());
    let mut next: u64 = 1;
    for tier in to_create {
        assert!(manager.record_created(tier, next));
        next += 1;
    }
    manager
}

fn probe(manager: &VoiceChannelManager, name: &str) -> (VoiceChannelType, Vec<u64>) {
    match manager.on_join(name) {
        JoinStep::Probe { tier, channels } => (tier, channels),
        JoinStep::Unmanaged => panic!("unmanaged"),
        JoinStep::AtCapacity => panic!("at capacity"),
    }
}

#[test]
fn new_pool_is_empty() {
    let manager = VoiceChannelManager::new(CATEGORY);
    assert_eq!(manager.category_id(), CATEGORY);
    for tier in VoiceChannelType::all() {
        assert!(manager.channels(tier).is_empty());
    }
    assert_eq!(manager.missing_tiers(), VoiceChannelType::all());
    assert!(!manager.is_managed(1));
}

#[test]
fn bootstrap_of_an_empty_container_creates_one_channel_per_tier() {
    let mut manager = VoiceChannelManager::new(CATEGORY);
    let to_create = manager.initialize(&Vec::new());
    assert_eq!(to_create, VoiceChannelType::all());
    let mut next: u64 = 500;
    for tier in to_create {
        let request = manager.create_channel(tier);
        assert_eq!(request.parent, CATEGORY);
        assert_eq!(request.user_limit, tier.user_limit());
        assert_eq!(request.name.chars().last(), Some(tier.identifier()));
        assert!(manager.record_created(tier, next));
        next += 1;
    }
    assert_eq!(manager.channels(VoiceChannelType::Unlimited), vec![500]);
    assert_eq!(manager.channels(VoiceChannelType::Two), vec![501]);
    assert_eq!(manager.channels(VoiceChannelType::Three), vec![502]);
    assert_eq!(manager.channels(VoiceChannelType::Four), vec![503]);
    assert_eq!(manager.channels(VoiceChannelType::Five), vec![504]);
    assert!(manager.missing_tiers().is_empty());
}

#[test]
fn bootstrap_records_existing_channels_in_listing_order() {
    let listing = vec![
        voice(11, "b 4", Some(4)),
        voice(12, "general", None),
        voice(13, "a 4", Some(4)),
        ChannelInfo {
            id: 14,
            name: String::from("text 2"),
            voice: false,
            parent: Some(CATEGORY),
            user_limit: None,
        },
        ChannelInfo {
            id: 15,
            name: String::from("elsewhere 3"),
            voice: true,
            parent: Some(CATEGORY + 1),
            user_limit: Some(3),
        },
        ChannelInfo {
            id: 16,
            name: String::from("loose 5"),
            voice: true,
            parent: None,
            user_limit: Some(5),
        },
        voice(17, "open \u{221e}", None),
    ];
    let mut manager = VoiceChannelManager::new(CATEGORY);
    let to_create = manager.initialize(&listing);
    assert_eq!(manager.channels(VoiceChannelType::Four), vec![11, 13]);
    assert_eq!(manager.channels(VoiceChannelType::Unlimited), vec![17]);
    assert!(manager.channels(VoiceChannelType::Two).is_empty());
    assert!(manager.channels(VoiceChannelType::Three).is_empty());
    assert!(manager.channels(VoiceChannelType::Five).is_empty());
    assert_eq!(
        to_create,
        vec![VoiceChannelType::Two, VoiceChannelType::Three, VoiceChannelType::Five]
    );
    assert!(manager.is_managed(11));
    assert!(!manager.is_managed(12));
    assert!(!manager.is_managed(14));
    assert!(!manager.is_managed(15));
}

#[test]
fn initialize_drops_what_the_pool_held_before() {
    let mut manager = bootstrapped();
    let to_create = manager.initialize(&vec![voice(40, "x 2", Some(2))]);
    assert_eq!(manager.channels(VoiceChannelType::Two), vec![40]);
    assert!(manager.channels(VoiceChannelType::Four).is_empty());
    assert_eq!(to_create.len(), 4);
    assert_eq!(manager.category_id(), CATEGORY);
}

#[test]
fn a_channel_listed_twice_is_recorded_once() {
    let listing = vec![voice(1, "a 2", Some(2)), voice(1, "a 3", Some(3)), voice(1, "a 2", Some(2))];
    let mut manager = VoiceChannelManager::new(CATEGORY);
    manager.initialize(&listing);
    assert_eq!(manager.channels(VoiceChannelType::Two), vec![1]);
    assert!(manager.channels(VoiceChannelType::Three).is_empty());
}

#[test]
fn record_created_refuses_a_known_channel() {
    let mut manager = bootstrapped();
    let four = manager.channels(VoiceChannelType::Four)[0];
    assert!(!manager.record_created(VoiceChannelType::Two, four));
    assert!(!manager.record_created(VoiceChannelType::Four, four));
    assert_eq!(manager.channels(VoiceChannelType::Two).len(), 1);
    assert_eq!(manager.channels(VoiceChannelType::Four), vec![four]);
}

#[test]
fn join_into_a_full_only_channel_grows_the_tier() {
    let mut manager = bootstrapped();
    let first = manager.channels(VoiceChannelType::Four)[0];
    let (tier, channels) = probe(&manager, "\u{1f50a}voice 4");
    assert_eq!(tier, VoiceChannelType::Four);
    assert_eq!(channels, vec![first]);
    assert!(needs_spare(&vec![4]));
    assert!(manager.record_created(tier, 900));
    assert_eq!(manager.channels(VoiceChannelType::Four), vec![first, 900]);
    assert_eq!(manager.channels(VoiceChannelType::Five).len(), 1);
}

#[test]
fn join_with_a_spare_does_not_grow() {
    assert!(!needs_spare(&vec![3, 0]));
    assert!(!needs_spare(&vec![0]));
    assert!(!needs_spare(&vec![0, 2, 5]));
    assert!(needs_spare(&vec![1, 2, 5]));
    assert!(needs_spare(&vec![1]));
    assert!(needs_spare(&Vec::new()));
}

#[test]
fn join_at_the_cap_is_not_remedied() {
    let mut manager = bootstrapped();
    let mut id: u64 = 1000;
    while manager.channels(VoiceChannelType::Two).len() < MAX_CHANNELS_PER_TIER {
        let (tier, _) = probe(&manager, "x 2");
        assert!(manager.record_created(tier, id));
        id += 1;
    }
    assert_eq!(manager.channels(VoiceChannelType::Two).len(), 6);
    assert!(matches!(manager.on_join("x 2"), JoinStep::AtCapacity));
    assert!(matches!(manager.on_join("x 3"), JoinStep::Probe { .. }));
}

#[test]
fn join_into_an_unmanaged_channel_is_ignored() {
    let manager = bootstrapped();
    assert!(matches!(manager.on_join("general"), JoinStep::Unmanaged));
    assert!(matches!(manager.on_join(""), JoinStep::Unmanaged));
    assert!(matches!(manager.on_join("voice 6"), JoinStep::Unmanaged));
}

#[test]
fn leave_of_the_last_member_deletes_a_second_channel() {
    let mut manager = bootstrapped();
    let first = manager.channels(VoiceChannelType::Four)[0];
    assert!(manager.record_created(VoiceChannelType::Four, 900));
    assert!(manager.on_leave(first, "\u{1f50a}voice 4", 0));
    assert_eq!(manager.channels(VoiceChannelType::Four), vec![900]);
    assert!(!manager.is_managed(first));
}

#[test]
fn leave_from_the_only_channel_keeps_it() {
    let mut manager = bootstrapped();
    let only = manager.channels(VoiceChannelType::Four)[0];
    assert!(!manager.on_leave(only, "\u{1f50a}voice 4", 0));
    assert_eq!(manager.channels(VoiceChannelType::Four), vec![only]);
    assert!(!manager.on_leave(only, "\u{1f50a}voice 4", 2));
    assert_eq!(manager.channels(VoiceChannelType::Four), vec![only]);
}

#[test]
fn partial_leave_changes_nothing() {
    let mut manager = bootstrapped();
    let first = manager.channels(VoiceChannelType::Three)[0];
    assert!(manager.record_created(VoiceChannelType::Three, 901));
    assert!(!manager.on_leave(first, "room 3", 1));
    assert_eq!(manager.channels(VoiceChannelType::Three), vec![first, 901]);
}

#[test]
fn leave_from_an_unmanaged_channel_changes_nothing() {
    let mut manager = bootstrapped();
    assert!(manager.record_created(VoiceChannelType::Five, 902));
    let before: Vec<Vec<u64>> =
        VoiceChannelType::all().into_iter().map(|t| manager.channels(t)).collect();
    assert!(!manager.on_leave(902, "general", 0));
    assert!(!manager.on_leave(902, "", 0));
    let after: Vec<Vec<u64>> =
        VoiceChannelType::all().into_iter().map(|t| manager.channels(t)).collect();
    assert_eq!(before, after);
}

#[test]
fn leave_keeps_the_other_channels_in_order() {
    let mut manager = bootstrapped();
    let first = manager.channels(VoiceChannelType::Two)[0];
    assert!(manager.record_created(VoiceChannelType::Two, 31));
    assert!(manager.record_created(VoiceChannelType::Two, 32));
    assert!(manager.on_leave(31, "duo 2", 0));
    assert_eq!(manager.channels(VoiceChannelType::Two), vec![first, 32]);
    assert!(manager.on_leave(7777, "duo 2", 0));
    assert_eq!(manager.channels(VoiceChannelType::Two), vec![first, 32]);
}

#[test]
fn two_joins_that_both_saw_no_spare_both_grow_the_tier() {
    let mut manager = bootstrapped();
    let first = manager.channels(VoiceChannelType::Four)[0];
    let (tier_a, _) = probe(&manager, "a 4");
    let (tier_b, _) = probe(&manager, "a 4");
    assert!(needs_spare(&vec![4]));
    assert!(manager.record_created(tier_a, 61));
    assert!(manager.record_created(tier_b, 62));
    assert_eq!(manager.channels(VoiceChannelType::Four), vec![first, 61, 62]);
    assert!(manager.on_leave(61, "a 4", 0));
    assert!(manager.on_leave(62, "a 4", 0));
    assert!(!manager.on_leave(first, "a 4", 0));
    assert_eq!(manager.channels(VoiceChannelType::Four), vec![first]);
}

#[test]
fn sort_is_ascending_and_stable() {
    let unordered = vec![
        Entry { id: 1, limit: 4 },
        Entry { id: 2, limit: 0 },
        Entry { id: 3, limit: 4 },
        Entry { id: 4, limit: 2 },
        Entry { id: 5, limit: 0 },
        Entry { id: 6, limit: 5 },
        Entry { id: 7, limit: 2 },
    ];
    let ordered = sort_entries(&unordered);
    let ids: Vec<u64> = ordered.iter().map(|e| e.id).collect();
    assert_eq!(ids, vec![2, 5, 4, 7, 1, 3, 6]);
    assert!(sort_entries(&Vec::new()).is_empty());
}

#[test]
fn managed_entries_take_the_limit_as_listed() {
    let listing = vec![
        voice(1, "a 4", Some(4)),
        voice(2, "chat", Some(9)),
        voice(3, "b \u{221e}", None),
        voice(4, "c 2", Some(10)),
    ];
    let found = managed_entries(&listing, CATEGORY);
    assert_eq!(
        found,
        vec![Entry { id: 1, limit: 4 }, Entry { id: 3, limit: 0 }, Entry { id: 4, limit: 10 }]
    );
}

#[test]
fn resync_numbers_the_channels_in_display_order() {
    let listing = vec![
        voice(10, "e 5", Some(5)),
        voice(11, "d 4", Some(4)),
        voice(12, "a \u{221e}", None),
        voice(13, "d2 4", Some(4)),
        voice(14, "b 2", Some(2)),
        voice(15, "c 3", Some(3)),
        voice(16, "general", Some(1)),
        ChannelInfo {
            id: 17,
            name: String::from("news 2"),
            voice: false,
            parent: Some(CATEGORY),
            user_limit: None,
        },
    ];
    let manager = VoiceChannelManager::new(CATEGORY);
    let positions = manager.resync(&listing);
    assert_eq!(positions, vec![(12, 0), (14, 1), (15, 2), (11, 3), (13, 4), (10, 5)]);
    assert_eq!(plan_positions(&listing, CATEGORY), positions);
    assert!(plan_positions(&listing, CATEGORY + 1).is_empty());
    assert!(manager.resync(&Vec::new()).is_empty());
}
