//! Enchantment identifiers: the mapping between the enchantment kinds and
//! their textual ids, in both directions.

use vstd::prelude::*;
use vstd::string::StrSliceExecFns;

verus! {

/// An enchantment kind.
#[derive(Clone, Copy, Debug, PartialEq, Eq, Hash, Structural)]
pub enum Enchantment {
    AquaAffinity,
    BlastProtection,
    CurseOfBinding,
    DepthStrider,
    FeatherFalling,
    FireProtection,
    FrostWalker,
    ProjectileProtection,
    Protection,
    Respiration,
    SoulSpeed,
    Thorns,
    SwiftSneak,
    BaneOfArthropods,
    Efficiency,
    FireAspect,
    Looting,
    Impaling,
    Knockback,
    Sharpness,
    Smite,
    SweepingEdge,
    Channeling,
    Flame,
    Infinity,
    Loyalty,
    Riptide,
    Multishot,
    Piercing,
    Power,
    Punch,
    QuickCharge,
    Fortune,
    LuckOftheSea,
    Lure,
    SilkTouch,
}

/// Whether two string slices hold the same characters, compared one
/// character at a time.
fn str_eq(a: &str, b: &str) -> (r: bool)
    ensures
        r == (a@ == b@),
{
    let la = a.unicode_len();
    let lb = b.unicode_len();
    if la != lb {
        proof {
            assert(a@.len() != b@.len());
        }
        return false;
    }
    let mut i: usize = 0;
    while i < la
        invariant
            0 <= i <= la,
            la == a@.len(),
            la == b@.len(),
            forall|j: int| 0 <= j < i ==> a@[j] == b@[j],
        decreases la - i,
    {
        if a.get_char(i) != b.get_char(i) {
            return false;
        }
        i += 1;
    }
    proof {
        assert(a@ =~= b@);
    }
    true
}

impl Enchantment {
    /// The textual id of this enchantment.
    pub open spec fn spec_id(self) -> Seq<char> {
        match self {
            Enchantment::AquaAffinity => "aqua_affinity"@,
            Enchantment::BlastProtection => "blast_protection"@,
            Enchantment::CurseOfBinding => "binding_curse"@,
            Enchantment::DepthStrider => "depth_strider"@,
            Enchantment::FeatherFalling => "feather_falling"@,
            Enchantment::FireProtection => "fire_protection"@,
            Enchantment::FrostWalker => "frost_walker"@,
            Enchantment::ProjectileProtection => "projectile_protection"@,
            Enchantment::Protection => "protection"@,
            Enchantment::Respiration => "respiration"@,
            Enchantment::SoulSpeed => "soul_speed"@,
            Enchantment::Thorns => "thorns"@,
            Enchantment::SwiftSneak => "swift_sneak"@,
            Enchantment::BaneOfArthropods => "bane_of_arthropods"@,
            Enchantment::Efficiency => "efficiency"@,
            Enchantment::FireAspect => "fire_aspect"@,
            Enchantment::Looting => "looting"@,
            Enchantment::Impaling => "impaling"@,
            Enchantment::Knockback => "knockback"@,
            Enchantment::Sharpness => "sharpness"@,
            Enchantment::Smite => "smite"@,
            Enchantment::SweepingEdge => "sweeping"@,
            Enchantment::Channeling => "channeling"@,
            Enchantment::Flame => "flame"@,
            Enchantment::Infinity => "infinity"@,
            Enchantment::Loyalty => "loyalty"@,
            Enchantment::Riptide => "riptide"@,
            Enchantment::Multishot => "multishot"@,
            Enchantment::Piercing => "piercing"@,
            Enchantment::Power => "power"@,
            Enchantment::Punch => "punch"@,
            Enchantment::QuickCharge => "quick_charge"@,
            Enchantment::Fortune => "fortune"@,
            Enchantment::LuckOftheSea => "luck_of_the_sea"@,
            Enchantment::Lure => "lure"@,
            Enchantment::SilkTouch => "silk_touch"@,
        }
    }

    /// The textual id of this enchantment; exactly [`Enchantment::spec_id`].
    pub fn id(&self) -> (r: &'static str)
        ensures
            r@ == self.spec_id(),
    {
        match self {
            Enchantment::AquaAffinity => "aqua_affinity",
            Enchantment::BlastProtection => "blast_protection",
            Enchantment::CurseOfBinding => "binding_curse",
            Enchantment::DepthStrider => "depth_strider",
            Enchantment::FeatherFalling => "feather_falling",
            Enchantment::FireProtection => "fire_protection",
            Enchantment::FrostWalker => "frost_walker",
            Enchantment::ProjectileProtection => "projectile_protection",
            Enchantment::Protection => "protection",
            Enchantment::Respiration => "respiration",
            Enchantment::SoulSpeed => "soul_speed",
            Enchantment::Thorns => "thorns",
            Enchantment::SwiftSneak => "swift_sneak",
            Enchantment::BaneOfArthropods => "bane_of_arthropods",
            Enchantment::Efficiency => "efficiency",
            Enchantment::FireAspect => "fire_aspect",
            Enchantment::Looting => "looting",
            Enchantment::Impaling => "impaling",
            Enchantment::Knockback => "knockback",
            Enchantment::Sharpness => "sharpness",
            Enchantment::Smite => "smite",
            Enchantment::SweepingEdge => "sweeping",
            Enchantment::Channeling => "channeling",
            Enchantment::Flame => "flame",
            Enchantment::Infinity => "infinity",
            Enchantment::Loyalty => "loyalty",
            Enchantment::Riptide => "riptide",
            Enchantment::Multishot => "multishot",
            Enchantment::Piercing => "piercing",
            Enchantment::Power => "power",
            Enchantment::Punch => "punch",
            Enchantment::QuickCharge => "quick_charge",
            Enchantment::Fortune => "fortune",
            Enchantment::LuckOftheSea => "luck_of_the_sea",
            Enchantment::Lure => "lure",
            Enchantment::SilkTouch => "silk_touch",
        }
    }

    /// The enchantment with the given textual id, which may carry the
    /// standard namespace prefix; `None` for an unknown id.
    pub open spec fn spec_from_id(s: Seq<char>) -> Option<Enchantment> {
        if s == "aqua_affinity"@ || s == "minecraft:aqua_affinity"@ {
            Some(Enchantment::AquaAffinity)
        } else         if s == "blast_protection"@ || s == "minecraft:blast_protection"@ {
            Some(Enchantment::BlastProtection)
        } else         if s == "binding_curse"@ || s == "minecraft:binding_curse"@ {
            Some(Enchantment::CurseOfBinding)
        } else         if s == "depth_strider"@ || s == "minecraft:depth_strider"@ {
            Some(Enchantment::DepthStrider)
        } else         if s == "feather_falling"@ || s == "minecraft:feather_falling"@ {
            Some(Enchantment::FeatherFalling)
        } else         if s == "fire_protection"@ || s == "minecraft:fire_protection"@ {
            Some(Enchantment::FireProtection)
        } else         if s == "frost_walker"@ || s == "minecraft:frost_walker"@ {
            Some(Enchantment::FrostWalker)
        } else         if s == "projectile_protection"@ || s == "minecraft:projectile_protection"@ {
            Some(Enchantment::ProjectileProtection)
        } else         if s == "protection"@ || s == "minecraft:protection"@ {
            Some(Enchantment::Protection)
        } else         if s == "respiration"@ || s == "minecraft:respiration"@ {
            Some(Enchantment::Respiration)
        } else         if s == "soul_speed"@ || s == "minecraft:soul_speed"@ {
            Some(Enchantment::SoulSpeed)
        } else         if s == "thorns"@ || s == "minecraft:thorns"@ {
            Some(Enchantment::Thorns)
        } else         if s == "swift_sneak"@ || s == "minecraft:swift_sneak"@ {
            Some(Enchantment::SwiftSneak)
        } else         if s == "bane_of_arthropods"@ || s == "minecraft:bane_of_arthropods"@ {
            Some(Enchantment::BaneOfArthropods)
        } else         if s == "efficiency"@ || s == "minecraft:efficiency"@ {
            Some(Enchantment::Efficiency)
        } else         if s == "fire_aspect"@ || s == "minecraft:fire_aspect"@ {
            Some(Enchantment::FireAspect)
        } else         if s == "looting"@ || s == "minecraft:looting"@ {
            Some(Enchantment::Looting)
        } else         if s == "impaling"@ || s == "minecraft:impaling"@ {
            Some(Enchantment::Impaling)
        } else         if s == "knockback"@ || s == "minecraft:knockback"@ {
            Some(Enchantment::Knockback)
        } else         if s == "sharpness"@ || s == "minecraft:sharpness"@ {
            Some(Enchantment::Sharpness)
        } else         if s == "smite"@ || s == "minecraft:smite"@ {
            Some(Enchantment::Smite)
        } else         if s == "sweeping"@ || s == "minecraft:sweeping"@ {
            Some(Enchantment::SweepingEdge)
        } else         if s == "channeling"@ || s == "minecraft:channeling"@ {
            Some(Enchantment::Channeling)
        } else         if s == "flame"@ || s == "minecraft:flame"@ {
            Some(Enchantment::Flame)
        } else         if s == "infinity"@ || s == "minecraft:infinity"@ {
            Some(Enchantment::Infinity)
        } else         if s == "loyalty"@ || s == "minecraft:loyalty"@ {
            Some(Enchantment::Loyalty)
        } else         if s == "riptide"@ || s == "minecraft:riptide"@ {
            Some(Enchantment::Riptide)
        } else         if s == "multishot"@ || s == "minecraft:multishot"@ {
            Some(Enchantment::Multishot)
        } else         if s == "piercing"@ || s == "minecraft:piercing"@ {
            Some(Enchantment::Piercing)
        } else         if s == "power"@ || s == "minecraft:power"@ {
            Some(Enchantment::Power)
        } else         if s == "punch"@ || s == "minecraft:punch"@ {
            Some(Enchantment::Punch)
        } else         if s == "quick_charge"@ || s == "minecraft:quick_charge"@ {
            Some(Enchantment::QuickCharge)
        } else         if s == "fortune"@ || s == "minecraft:fortune"@ {
            Some(Enchantment::Fortune)
        } else         if s == "luck_of_the_sea"@ || s == "minecraft:luck_of_the_sea"@ {
            Some(Enchantment::LuckOftheSea)
        } else         if s == "lure"@ || s == "minecraft:lure"@ {
            Some(Enchantment::Lure)
        } else         if s == "silk_touch"@ || s == "minecraft:silk_touch"@ {
            Some(Enchantment::SilkTouch)
        } else {
            None
        }
    }

    /// Looks up an enchantment by its textual id; exactly
    /// [`Enchantment::spec_from_id`].
    pub fn from_id(id: &str) -> (r: Option<Enchantment>)
        ensures
            r == Enchantment::spec_from_id(id@),
    {
        if str_eq(id, "aqua_affinity") || str_eq(id, "minecraft:aqua_affinity") {
            Some(Enchantment::AquaAffinity)
        } else         if str_eq(id, "blast_protection") || str_eq(id, "minecraft:blast_protection") {
            Some(Enchantment::BlastProtection)
        } else         if str_eq(id, "binding_curse") || str_eq(id, "minecraft:binding_curse") {
            Some(Enchantment::CurseOfBinding)
        } else         if str_eq(id, "depth_strider") || str_eq(id, "minecraft:depth_strider") {
            Some(Enchantment::DepthStrider)
        } else         if str_eq(id, "feather_falling") || str_eq(id, "minecraft:feather_falling") {
            Some(Enchantment::FeatherFalling)
        } else         if str_eq(id, "fire_protection") || str_eq(id, "minecraft:fire_protection") {
            Some(Enchantment::FireProtection)
        } else         if str_eq(id, "frost_walker") || str_eq(id, "minecraft:frost_walker") {
            Some(Enchantment::FrostWalker)
        } else         if str_eq(id, "projectile_protection") || str_eq(id, "minecraft:projectile_protection") {
            Some(Enchantment::ProjectileProtection)
        } else         if str_eq(id, "protection") || str_eq(id, "minecraft:protection") {
            Some(Enchantment::Protection)
        } else         if str_eq(id, "respiration") || str_eq(id, "minecraft:respiration") {
            Some(Enchantment::Respiration)
        } else         if str_eq(id, "soul_speed") || str_eq(id, "minecraft:soul_speed") {
            Some(Enchantment::SoulSpeed)
        } else         if str_eq(id, "thorns") || str_eq(id, "minecraft:thorns") {
            Some(Enchantment::Thorns)
        } else         if str_eq(id, "swift_sneak") || str_eq(id, "minecraft:swift_sneak") {
            Some(Enchantment::SwiftSneak)
        } else         if str_eq(id, "bane_of_arthropods") || str_eq(id, "minecraft:bane_of_arthropods") {
            Some(Enchantment::BaneOfArthropods)
        } else         if str_eq(id, "efficiency") || str_eq(id, "minecraft:efficiency") {
            Some(Enchantment::Efficiency)
        } else         if str_eq(id, "fire_aspect") || str_eq(id, "minecraft:fire_aspect") {
            Some(Enchantment::FireAspect)
        } else         if str_eq(id, "looting") || str_eq(id, "minecraft:looting") {
            Some(Enchantment::Looting)
        } else         if str_eq(id, "impaling") || str_eq(id, "minecraft:impaling") {
            Some(Enchantment::Impaling)
        } else         if str_eq(id, "knockback") || str_eq(id, "minecraft:knockback") {
            Some(Enchantment::Knockback)
        } else         if str_eq(id, "sharpness") || str_eq(id, "minecraft:sharpness") {
            Some(Enchantment::Sharpness)
        } else         if str_eq(id, "smite") || str_eq(id, "minecraft:smite") {
            Some(Enchantment::Smite)
        } else         if str_eq(id, "sweeping") || str_eq(id, "minecraft:sweeping") {
            Some(Enchantment::SweepingEdge)
        } else         if str_eq(id, "channeling") || str_eq(id, "minecraft:channeling") {
            Some(Enchantment::Channeling)
        } else         if str_eq(id, "flame") || str_eq(id, "minecraft:flame") {
            Some(Enchantment::Flame)
        } else         if str_eq(id, "infinity") || str_eq(id, "minecraft:infinity") {
            Some(Enchantment::Infinity)
        } else         if str_eq(id, "loyalty") || str_eq(id, "minecraft:loyalty") {
            Some(Enchantment::Loyalty)
        } else         if str_eq(id, "riptide") || str_eq(id, "minecraft:riptide") {
            Some(Enchantment::Riptide)
        } else         if str_eq(id, "multishot") || str_eq(id, "minecraft:multishot") {
            Some(Enchantment::Multishot)
        } else         if str_eq(id, "piercing") || str_eq(id, "minecraft:piercing") {
            Some(Enchantment::Piercing)
        } else         if str_eq(id, "power") || str_eq(id, "minecraft:power") {
            Some(Enchantment::Power)
        } else         if str_eq(id, "punch") || str_eq(id, "minecraft:punch") {
            Some(Enchantment::Punch)
        } else         if str_eq(id, "quick_charge") || str_eq(id, "minecraft:quick_charge") {
            Some(Enchantment::QuickCharge)
        } else         if str_eq(id, "fortune") || str_eq(id, "minecraft:fortune") {
            Some(Enchantment::Fortune)
        } else         if str_eq(id, "luck_of_the_sea") || str_eq(id, "minecraft:luck_of_the_sea") {
            Some(Enchantment::LuckOftheSea)
        } else         if str_eq(id, "lure") || str_eq(id, "minecraft:lure") {
            Some(Enchantment::Lure)
        } else         if str_eq(id, "silk_touch") || str_eq(id, "minecraft:silk_touch") {
            Some(Enchantment::SilkTouch)
        } else {
            None
        }
    }
}

} // verus!
