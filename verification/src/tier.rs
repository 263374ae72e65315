//! The closed catalogue of capacity tiers.

use vstd::prelude::*;

verus! {

/// A capacity class of voice channel.
#[derive(Debug, Clone, Copy, PartialEq, Eq, Hash, Structural)]
pub enum VoiceChannelType {
    Unlimited,
    Two,
    Three,
    Four,
    Five,
}

/// The glyph that marks a channel without a member limit.
pub const UNLIMITED_GLYPH: char = '\u{221e}';

/// Every tier, in catalogue order.
pub open spec fn catalog() -> Seq<VoiceChannelType> {
    seq![
        VoiceChannelType::Unlimited,
        VoiceChannelType::Two,
        VoiceChannelType::Three,
        VoiceChannelType::Four,
        VoiceChannelType::Five,
    ]
}

impl VoiceChannelType {
    /// The glyph that ends the name of every channel of this tier.
    pub open spec fn glyph(self) -> char {
        match self {
            Self::Unlimited => '\u{221e}',
            Self::Two => '2',
            Self::Three => '3',
            Self::Four => '4',
            Self::Five => '5',
        }
    }

    /// The member limit of this tier, `None` where it has none.
    pub open spec fn capacity(self) -> Option<u32> {
        match self {
            Self::Unlimited => None,
            Self::Two => Some(2u32),
            Self::Three => Some(3u32),
            Self::Four => Some(4u32),
            Self::Five => Some(5u32),
        }
    }

    /// The tier that a glyph stands for, `None` for any other character.
    pub open spec fn of_glyph(c: char) -> Option<Self> {
        if c == '\u{221e}' {
            Some(Self::Unlimited)
        } else if c == '2' {
            Some(Self::Two)
        } else if c == '3' {
            Some(Self::Three)
        } else if c == '4' {
            Some(Self::Four)
        } else if c == '5' {
            Some(Self::Five)
        } else {
            None
        }
    }

    /// The glyph of this tier.
    pub fn identifier(&self) -> (c: char)
        ensures
            c == self.glyph(),
    {
        match self {
            Self::Unlimited => '\u{221e}',
            Self::Two => '2',
            Self::Three => '3',
            Self::Four => '4',
            Self::Five => '5',
        }
    }

    /// The member limit of this tier, `None` for the tier without one.
    pub fn user_limit(&self) -> (limit: Option<u32>)
        ensures
            limit == self.capacity(),
    {
        match self {
            Self::Unlimited => None,
            Self::Two => Some(2),
            Self::Three => Some(3),
            Self::Four => Some(4),
            Self::Five => Some(5),
        }
    }

    /// Finds the tier of a glyph. A character that is no tier's glyph gives
    /// `None`: that is how a channel outside the pool is told apart.
    pub fn by_identifier(identifier: char) -> (tier: Option<Self>)
        ensures
            tier == Self::of_glyph(identifier),
    {
        if identifier == '\u{221e}' {
            Some(Self::Unlimited)
        } else if identifier == '2' {
            Some(Self::Two)
        } else if identifier == '3' {
            Some(Self::Three)
        } else if identifier == '4' {
            Some(Self::Four)
        } else if identifier == '5' {
            Some(Self::Five)
        } else {
            None
        }
    }

    /// Every tier, in catalogue order.
    pub fn all() -> (tiers: Vec<Self>)
        ensures
            tiers@ == catalog(),
    {
        let tiers = vec![Self::Unlimited, Self::Two, Self::Three, Self::Four, Self::Five];
        assert(tiers@ =~= catalog());
        tiers
    }
}

/// Looking a tier up by its own glyph finds that tier.
pub proof fn lemma_glyph_round_trip(tier: VoiceChannelType)
    ensures
        VoiceChannelType::of_glyph(tier.glyph()) == Some(tier),
{
}

/// A glyph stands for a tier only if it is that tier's glyph, so no two tiers
/// share one.
pub proof fn lemma_of_glyph_exact(c: char, tier: VoiceChannelType)
    ensures
        VoiceChannelType::of_glyph(c) == Some(tier) <==> c == tier.glyph(),
{
}

/// The catalogue lists every tier exactly once.
pub proof fn lemma_catalog_complete(tier: VoiceChannelType)
    ensures
        catalog().contains(tier),
        catalog().no_duplicates(),
        catalog().len() == 5,
{
    let c = catalog();
    assert(c[0] == VoiceChannelType::Unlimited);
    assert(c[1] == VoiceChannelType::Two);
    assert(c[2] == VoiceChannelType::Three);
    assert(c[3] == VoiceChannelType::Four);
    assert(c[4] == VoiceChannelType::Five);
}

} // verus!
