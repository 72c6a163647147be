//! One-shot and continuous card effects, as data: what an effect does and
//! to which objects, without any rules execution.

use vstd::prelude::*;

verus! {

/// How many objects an effect targets.
pub enum TargetNumber {
    One,
    AnyNumber,
    Number(usize),
}

/// The objects an effect applies to.
pub enum EffectObject {
    Target(TargetNumber),
    All,
    AnyNumber,
    Choice,
}

/// Where damage comes from.
pub enum DamageSource {
    This,
    Other,
}

/// What damage can be dealt to.
pub enum DamageTargetType {
    Player,
    Creature,
    Planeswalker,
    Battle,
    Any,
}

/// What can be destroyed.
pub enum DestroyTargetType {
    Creature,
    Planeswalker,
    Battle,
    Artifact,
    Enchantment,
    Land,
    Permanent,
    NonLandPermanent,
}

/// A one-shot effect: it happens once and is done.
pub enum OneShotEffectType {
    DealDamage {
        damage: usize,
        source: DamageSource,
        objects: Vec<(EffectObject, DamageTargetType)>,
    },
    Counterspell { objects: Vec<EffectObject> },
    Destroy { objects: Vec<(EffectObject, DestroyTargetType)> },
}

/// An effect: one-shot, continuous, or several together.
pub enum Effect {
    OneShot { effect_type: OneShotEffectType },
    Continuous,
    Multiple(Vec<Effect>),
}

/// Builds a sample board-wipe effect; a placeholder exercise of the
/// effect shapes.
pub fn test() {
    let _wrath = Effect::OneShot {
        effect_type: OneShotEffectType::Destroy {
            objects: vec![(EffectObject::All, DestroyTargetType::Creature)],
        },
    };
}

} // verus!
