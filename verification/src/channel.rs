//! What the pool reads of a remote channel, and what it asks for when it
//! needs a new one.

use vstd::prelude::*;
use vstd::string::*;
use crate::tier::VoiceChannelType;

verus! {

/// One channel of a listing, as the remote platform reports it.
#[derive(Debug)]
pub struct ChannelInfo {
    pub id: u64,
    pub name: String,
    /// Whether the channel is a voice channel.
    pub voice: bool,
    /// The container that the channel sits in, if any.
    pub parent: Option<u64>,
    pub user_limit: Option<u32>,
}

/// What to ask of the remote platform for a new channel of a tier.
#[derive(Debug)]
pub struct ChannelRequest {
    pub name: String,
    pub parent: u64,
    pub user_limit: Option<u32>,
}

/// The tier that a channel name ends in: the name's last character, taken as
/// a glyph. A name that is empty or ends otherwise belongs to no tier.
pub open spec fn name_tier(name: Seq<char>) -> Option<VoiceChannelType> {
    if name.len() == 0 {
        None
    } else {
        VoiceChannelType::of_glyph(name.last())
    }
}

/// The name given to a new channel of a tier.
pub open spec fn tier_name(tier: VoiceChannelType) -> Seq<char> {
    seq!['\u{1f50a}', 'v', 'o', 'i', 'c', 'e', ' ', tier.glyph()]
}

impl ChannelInfo {
    /// Whether the channel is a voice channel directly inside `category`.
    pub open spec fn in_category(self, category: u64) -> bool {
        self.voice && self.parent == Some(category)
    }

    /// The tier the pool manages this channel under, if it manages it at all.
    pub open spec fn managed_tier(self, category: u64) -> Option<VoiceChannelType> {
        if self.in_category(category) {
            name_tier(self.name@)
        } else {
            None
        }
    }

    /// The key the channel is ordered by: its member limit, 0 where it has none.
    pub open spec fn limit_key(self) -> u32 {
        match self.user_limit {
            Some(limit) => limit,
            None => 0u32,
        }
    }

    pub fn tier_in(&self, category: u64) -> (tier: Option<VoiceChannelType>)
        ensures
            tier == self.managed_tier(category),
    {
        if !self.voice {
            return None;
        }
        match self.parent {
            Some(parent) => {
                if parent == category {
                    tier_of(self.name.as_str())
                } else {
                    None
                }
            },
            None => None,
        }
    }
}

/// Classifies a channel by its name.
pub fn tier_of(name: &str) -> (tier: Option<VoiceChannelType>)
    ensures
        tier == name_tier(name@),
{
    let n: usize = name.unicode_len();
    if n == 0 {
        None
    } else {
        VoiceChannelType::by_identifier(name.get_char(n - 1))
    }
}

/// Builds the request for a new channel of `tier` inside `category`.
pub fn channel_request(category: u64, tier: VoiceChannelType) -> (request: ChannelRequest)
    ensures
        request.name@ == tier_name(tier),
        request.parent == category,
        request.user_limit == tier.capacity(),
        name_tier(request.name@) == Some(tier),
{
    let name: &str = match tier {
        VoiceChannelType::Unlimited => {
            proof {
                reveal_strlit("\u{1f50a}voice \u{221e}");
            }
            "\u{1f50a}voice \u{221e}"
        },
        VoiceChannelType::Two => {
            proof {
                reveal_strlit("\u{1f50a}voice 2");
            }
            "\u{1f50a}voice 2"
        },
        VoiceChannelType::Three => {
            proof {
                reveal_strlit("\u{1f50a}voice 3");
            }
            "\u{1f50a}voice 3"
        },
        VoiceChannelType::Four => {
            proof {
                reveal_strlit("\u{1f50a}voice 4");
            }
            "\u{1f50a}voice 4"
        },
        VoiceChannelType::Five => {
            proof {
                reveal_strlit("\u{1f50a}voice 5");
            }
            "\u{1f50a}voice 5"
        },
    };
    assert(name@ =~= tier_name(tier));
    ChannelRequest { name: String::from_str(name), parent: category, user_limit: tier.user_limit() }
}

} // verus!
