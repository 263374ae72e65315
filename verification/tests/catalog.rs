use voice_pool::channel::{channel_request, tier_of, ChannelInfo};
use voice_pool::events::split_update;
use voice_pool::slowmode::{slowmode_change, SlowmodeChange, MAX_SLOWMODE_SECONDS};
use voice_pool::tier::{VoiceChannelType, UNLIMITED_GLYPH};

#[test]
fn identifiers_are_the_tier_glyphs() {
    assert_eq!(VoiceChannelType::Unlimited.identifier(), '\u{221e}');
    assert_eq!(VoiceChannelType::Unlimited.identifier(), UNLIMITED_GLYPH);
    assert_eq!(VoiceChannelType::Two.identifier(), '2');
    assert_eq!(VoiceChannelType::Three.identifier(), '3');
    assert_eq!(VoiceChannelType::Four.identifier(), '4');
    assert_eq!(VoiceChannelType::Five.identifier(), '5');
}

#[test]
fn user_limits_follow_the_tier() {
    assert_eq!(VoiceChannelType::Unlimited.user_limit(), None);
    assert_eq!(VoiceChannelType::Two.user_limit(), Some(2));
    assert_eq!(VoiceChannelType::Three.user_limit(), Some(3));
    assert_eq!(VoiceChannelType::Four.user_limit(), Some(4));
    assert_eq!(VoiceChannelType::Five.user_limit(), Some(5));
}

#[test]
fn by_identifier_finds_each_tier() {
    assert_eq!(VoiceChannelType::by_identifier('\u{221e}'), Some(VoiceChannelType::Unlimited));
    assert_eq!(VoiceChannelType::by_identifier('2'), Some(VoiceChannelType::Two));
    assert_eq!(VoiceChannelType::by_identifier('3'), Some(VoiceChannelType::Three));
    assert_eq!(VoiceChannelType::by_identifier('4'), Some(VoiceChannelType::Four));
    assert_eq!(VoiceChannelType::by_identifier('5'), Some(VoiceChannelType::Five));
}

#[test]
fn by_identifier_rejects_other_characters() {
    assert_eq!(VoiceChannelType::by_identifier('1'), None);
    assert_eq!(VoiceChannelType::by_identifier('6'), None);
    assert_eq!(VoiceChannelType::by_identifier('0'), None);
    assert_eq!(VoiceChannelType::by_identifier('a'), None);
    assert_eq!(VoiceChannelType::by_identifier(' '), None);
    assert_eq!(VoiceChannelType::by_identifier('\0'), None);
}

#[test]
fn identifier_round_trips_for_every_tier() {
    for tier in VoiceChannelType::all() {
        assert_eq!(VoiceChannelType::by_identifier(tier.identifier()), Some(tier));
    }
}

#[test]
fn all_lists_the_five_tiers_in_order() {
    assert_eq!(
        VoiceChannelType::all(),
        vec![
            VoiceChannelType::Unlimited,
            VoiceChannelType::Two,
            VoiceChannelType::Three,
            VoiceChannelType::Four,
            VoiceChannelType::Five,
        ]
    );
}

#[test]
fn tier_of_reads_the_last_character_only() {
    assert_eq!(tier_of("voice 4"), Some(VoiceChannelType::Four));
    assert_eq!(tier_of("4 voice"), None);
    assert_eq!(tier_of("42"), Some(VoiceChannelType::Two));
    assert_eq!(tier_of("lounge \u{221e}"), Some(VoiceChannelType::Unlimited));
    assert_eq!(tier_of("general"), None);
    assert_eq!(tier_of(""), None);
    assert_eq!(tier_of("5"), Some(VoiceChannelType::Five));
    assert_eq!(tier_of("voice 4 "), None);
}

#[test]
fn channel_request_carries_name_parent_and_limit() {
    let request = channel_request(77, VoiceChannelType::Four);
    assert_eq!(request.name, "\u{1f50a}voice 4");
    assert_eq!(request.parent, 77);
    assert_eq!(request.user_limit, Some(4));

    let request = channel_request(9, VoiceChannelType::Unlimited);
    assert_eq!(request.name, "\u{1f50a}voice \u{221e}");
    assert_eq!(request.parent, 9);
    assert_eq!(request.user_limit, None);
}

#[test]
fn requested_names_classify_back_to_their_tier() {
    for tier in VoiceChannelType::all() {
        let request = channel_request(1, tier);
        assert_eq!(tier_of(&request.name), Some(tier));
        assert_eq!(request.user_limit, tier.user_limit());
    }
}

#[test]
fn tier_in_needs_a_voice_channel_of_the_category() {
    let mut channel = ChannelInfo {
        id: 1,
        name: String::from("room 3"),
        voice: true,
        parent: Some(10),
        user_limit: Some(3),
    };
    assert_eq!(channel.tier_in(10), Some(VoiceChannelType::Three));
    assert_eq!(channel.tier_in(11), None);
    channel.voice = false;
    assert_eq!(channel.tier_in(10), None);
    channel.voice = true;
    channel.parent = None;
    assert_eq!(channel.tier_in(10), None);
    channel.parent = Some(10);
    channel.name = String::from("room");
    assert_eq!(channel.tier_in(10), None);
}

#[test]
fn split_update_on_a_plain_join() {
    let events = split_update(None, Some(5));
    assert_eq!(events.joined, Some(5));
    assert_eq!(events.left, None);
}

#[test]
fn split_update_on_a_plain_leave() {
    let events = split_update(Some(5), None);
    assert_eq!(events.joined, None);
    assert_eq!(events.left, Some(5));
}

#[test]
fn split_update_on_a_switch_gives_both_events() {
    let events = split_update(Some(5), Some(6));
    assert_eq!(events.joined, Some(6));
    assert_eq!(events.left, Some(5));
}

#[test]
fn split_update_within_one_channel_is_a_join_only() {
    let events = split_update(Some(5), Some(5));
    assert_eq!(events.joined, Some(5));
    assert_eq!(events.left, None);
    let events = split_update(None, None);
    assert_eq!(events.joined, None);
    assert_eq!(events.left, None);
}

#[test]
fn slowmode_is_capped_at_six_hours() {
    assert_eq!(MAX_SLOWMODE_SECONDS, 21600);
    assert_eq!(slowmode_change(0), SlowmodeChange::Disabled);
    assert_eq!(slowmode_change(1), SlowmodeChange::Seconds(1));
    assert_eq!(slowmode_change(21600), SlowmodeChange::Seconds(21600));
    assert_eq!(slowmode_change(21601), SlowmodeChange::TooLong);
    assert_eq!(slowmode_change(u16::MAX), SlowmodeChange::TooLong);
}
