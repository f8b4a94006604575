use crate::text::{decimal, push_decimal};
use vstd::prelude::*;

verus! {

/// Identity of an individuated unit of consciousness (a soul).
#[derive(Clone, Copy, PartialEq, Eq, Structural, Hash, Debug, Default)]
pub struct IuocId(pub u128);

/// Identity of one bound session (free-will awareness unit).
#[derive(Clone, Copy, PartialEq, Eq, Structural, Hash, Debug, Default)]
pub struct FwauId(pub u128);

#[derive(Clone, Copy, PartialEq, Eq, Structural, Hash, Debug, Default)]
pub struct AvatarId(pub u64);

#[derive(Clone, Copy, PartialEq, Eq, Structural, Hash, Debug, Default)]
pub struct FrameId(pub u32);

#[derive(Clone, Copy, PartialEq, Eq, Structural, Hash, Debug, Default)]
pub struct IslandId(pub u64);

#[derive(Clone, Copy, PartialEq, Eq, Structural, Hash, Debug, Default)]
pub struct PacketId(pub u128);

/// Simulation tick number.
#[derive(Clone, Copy, PartialEq, Eq, Structural, Hash, Debug, Default, PartialOrd, Ord)]
pub struct Tick(pub u64);

/// Generational entity handle.
#[derive(Clone, Copy, PartialEq, Eq, Structural, Hash, Debug)]
pub struct Entity {
    pub index: u32,
    pub generation: u32,
}

impl Entity {
    /// The reserved handle that names no entity.
    pub open spec fn spec_invalid() -> Entity {
        Entity { index: u32::MAX, generation: u32::MAX }
    }

    #[verifier::when_used_as_spec(spec_invalid)]
    pub fn invalid() -> (r: Entity)
        ensures
            r == Entity::spec_invalid(),
    {
        Entity { index: u32::MAX, generation: u32::MAX }
    }

    /// A handle is valid unless its index is the reserved maximum.
    pub fn is_valid(&self) -> (r: bool)
        ensures
            r == (self.index != u32::MAX),
    {
        self.index != u32::MAX
    }

    /// The text form `e{index}:{generation}`.
    pub fn to_display_string(&self) -> (s: String)
        ensures
            s@ == seq!['e'] + decimal(self.index as nat) + seq![':'] + decimal(
                self.generation as nat,
            ),
    {
        let mut s = String::from_str("e");
        proof {
            reveal_strlit("e");
            reveal_strlit(":");
        }
        push_decimal(&mut s, self.index as u128);
        s.append(":");
        push_decimal(&mut s, self.generation as u128);
        s
    }
}

impl Default for Entity {
    fn default() -> (r: Self)
        ensures
            r == Entity::spec_invalid(),
    {
        Entity::invalid()
    }
}

/// Coarse band of the private quality scalar (lower entropy is better).
#[derive(Clone, Copy, PartialEq, Eq, Structural, Debug)]
pub enum QualityBand {
    Turbulent,
    Restless,
    Settled,
    Coherent,
    Quiet,
}

impl QualityBand {
    /// The band's name.
    pub open spec fn label_text(self) -> Seq<char> {
        match self {
            QualityBand::Turbulent => "Turbulent"@,
            QualityBand::Restless => "Restless"@,
            QualityBand::Settled => "Settled"@,
            QualityBand::Coherent => "Coherent"@,
            QualityBand::Quiet => "Quiet"@,
        }
    }

    pub fn label(&self) -> (r: &'static str)
        ensures
            r@ == self.label_text(),
    {
        match self {
            QualityBand::Turbulent => "Turbulent",
            QualityBand::Restless => "Restless",
            QualityBand::Settled => "Settled",
            QualityBand::Coherent => "Coherent",
            QualityBand::Quiet => "Quiet",
        }
    }
}

} // verus!
