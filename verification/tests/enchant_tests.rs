use voxel_physics::enchant::Enchantment;

fn all_enchantments() -> Vec<Enchantment> {
    vec![
        Enchantment::AquaAffinity,
        Enchantment::BlastProtection,
        Enchantment::CurseOfBinding,
        Enchantment::DepthStrider,
        Enchantment::FeatherFalling,
        Enchantment::FireProtection,
        Enchantment::FrostWalker,
        Enchantment::ProjectileProtection,
        Enchantment::Protection,
        Enchantment::Respiration,
        Enchantment::SoulSpeed,
        Enchantment::Thorns,
        Enchantment::SwiftSneak,
        Enchantment::BaneOfArthropods,
        Enchantment::Efficiency,
        Enchantment::FireAspect,
        Enchantment::Looting,
        Enchantment::Impaling,
        Enchantment::Knockback,
        Enchantment::Sharpness,
        Enchantment::Smite,
        Enchantment::SweepingEdge,
        Enchantment::Channeling,
        Enchantment::Flame,
        Enchantment::Infinity,
        Enchantment::Loyalty,
        Enchantment::Riptide,
        Enchantment::Multishot,
        Enchantment::Piercing,
        Enchantment::Power,
        Enchantment::Punch,
        Enchantment::QuickCharge,
        Enchantment::Fortune,
        Enchantment::LuckOftheSea,
        Enchantment::Lure,
        Enchantment::SilkTouch,
    ]
}

/// Every enchantment's id maps back to the enchantment, bare or with the
/// standard namespace prefix.
#[test]
fn enchantment_ids_round_trip() {
    for e in all_enchantments() {
        assert_eq!(Enchantment::from_id(e.id()), Some(e));
        let prefixed = format!("minecraft:{}", e.id());
        assert_eq!(Enchantment::from_id(&prefixed), Some(e));
    }
}

/// Distinct enchantments carry distinct ids.
#[test]
fn enchantment_ids_are_distinct() {
    let all = all_enchantments();
    for (i, a) in all.iter().enumerate() {
        for b in all.iter().skip(i + 1) {
            assert_ne!(a.id(), b.id());
        }
    }
}

/// A few literal id values, including the irregular ones.
#[test]
fn enchantment_id_values() {
    assert_eq!(Enchantment::Sharpness.id(), "sharpness");
    assert_eq!(Enchantment::CurseOfBinding.id(), "binding_curse");
    assert_eq!(Enchantment::SweepingEdge.id(), "sweeping");
    assert_eq!(Enchantment::LuckOftheSea.id(), "luck_of_the_sea");
}

/// Unknown ids map to nothing.
#[test]
fn unknown_enchantment_id_is_none() {
    assert_eq!(Enchantment::from_id(""), None);
    assert_eq!(Enchantment::from_id("sharpness "), None);
    assert_eq!(Enchantment::from_id("minecraft:"), None);
    assert_eq!(Enchantment::from_id("not_an_enchantment"), None);
}
