//! The codec between a typed card-type list and the flat document shape:
//! `types` and `subtypes` arrays plus hoisted scalar fields. Flattening is
//! total; unflattening resolves each subtype to the first declared type
//! whose vocabulary accepts it and rejects documents with leftovers.

use vstd::prelude::*;

use crate::card_types::{
    card_type_name, card_type_of, card_type_str, mpn_chars, parse_mpn, creature_type_views,
    planeswalker_type_views, type_of_entry, CardType, CardTypeData, MaybePlaceholderNumber,
    TypeDataView,
};
use crate::subtypes::{
    artifact_subtype_name, artifact_subtype_str, battle_type_name, battle_type_str,
    enchantment_type_name, enchantment_type_str, is_creature_type_name, is_planeswalker_type_name,
    land_type_name, land_type_str, parse_artifact_subtype, parse_battle_type,
    parse_enchantment_type, parse_land_type, parse_spell_type, spell_type_name, spell_type_str,
};

verus! {

/// The flat document shape: the combined `types` and `subtypes` arrays and
/// the hoisted per-type scalar fields, each present only when the owning
/// card type is.
#[derive(Clone, Debug, PartialEq, Eq)]
pub struct FlatCardTypeData {
    pub types: Vec<String>,
    pub subtypes: Vec<String>,
    pub power: Option<String>,
    pub toughness: Option<String>,
    pub loyalty: Option<String>,
}

/// The character sequences of a sequence of strings.
pub open spec fn string_views(v: Seq<String>) -> Seq<Seq<char>> {
    v.map_values(|s: String| s@)
}

/// The mathematical shape of a flat document.
pub struct FlatDocView {
    pub types: Seq<Seq<char>>,
    pub subtypes: Seq<Seq<char>>,
    pub power: Option<Seq<char>>,
    pub toughness: Option<Seq<char>>,
    pub loyalty: Option<Seq<char>>,
}

impl View for FlatCardTypeData {
    type V = FlatDocView;

    open spec fn view(&self) -> FlatDocView {
        FlatDocView {
            types: string_views(self.types@),
            subtypes: string_views(self.subtypes@),
            power: match self.power {
                Some(p) => Some(p@),
                None => None,
            },
            toughness: match self.toughness {
                Some(t) => Some(t@),
                None => None,
            },
            loyalty: match self.loyalty {
                Some(l) => Some(l@),
                None => None,
            },
        }
    }
}

/// Why a flat document failed to decode.
#[derive(Clone, Debug, PartialEq, Eq)]
pub enum DecodeError {
    /// A `types` entry names no known card type.
    UnknownType(String),
    /// A declared type's required scalar field is absent; carries the
    /// field's name.
    MissingField(String),
    /// A scalar field's value is neither a number nor `*`; carries the
    /// offending token.
    InvalidField(String),
    /// Subtype entries no declared type's vocabulary claimed, in their
    /// original order.
    UnusedSubtypes(Vec<String>),
}

/// The mathematical shape of a decode error.
pub enum DecodeErrorView {
    UnknownType(Seq<char>),
    MissingField(Seq<char>),
    InvalidField(Seq<char>),
    UnusedSubtypes(Seq<Seq<char>>),
}

impl View for DecodeError {
    type V = DecodeErrorView;

    open spec fn view(&self) -> DecodeErrorView {
        match self {
            DecodeError::UnknownType(s) => DecodeErrorView::UnknownType(s@),
            DecodeError::MissingField(s) => DecodeErrorView::MissingField(s@),
            DecodeError::InvalidField(s) => DecodeErrorView::InvalidField(s@),
            DecodeError::UnusedSubtypes(v) => DecodeErrorView::UnusedSubtypes(string_views(v@)),
        }
    }
}

/// Whether a card type's subtype vocabulary accepts a name. Creatures and
/// tribal cards share the creature vocabulary; instants and sorceries
/// share the spell vocabulary.
#[verifier::opaque]
pub open spec fn in_vocab(t: CardType, s: Seq<char>) -> bool {
    match t {
        CardType::Land => parse_land_type(s) is Some,
        CardType::Creature => is_creature_type_name(s),
        CardType::Instant => parse_spell_type(s) is Some,
        CardType::Sorcery => parse_spell_type(s) is Some,
        CardType::Artifact => parse_artifact_subtype(s) is Some,
        CardType::Enchantment => parse_enchantment_type(s) is Some,
        CardType::Tribal => is_creature_type_name(s),
        CardType::Planeswalker => is_planeswalker_type_name(s),
        CardType::Battle => parse_battle_type(s) is Some,
    }
}

/// The rendered subtype names one card-type fact contributes, in its
/// declaration order.
pub open spec fn entry_subtype_names(d: TypeDataView) -> Seq<Seq<char>> {
    match d {
        TypeDataView::Land { land_types } => land_types.map_values(|t| land_type_name(t)),
        TypeDataView::Creature { creature_types, .. } => creature_types,
        TypeDataView::Instant { spell_types } => spell_types.map_values(|t| spell_type_name(t)),
        TypeDataView::Sorcery { spell_types } => spell_types.map_values(|t| spell_type_name(t)),
        TypeDataView::Artifact { artifact_types } => artifact_types.map_values(
            |t| artifact_subtype_name(t),
        ),
        TypeDataView::Enchantment { enchantment_types } => enchantment_types.map_values(
            |t| enchantment_type_name(t),
        ),
        TypeDataView::Tribal { tribal_types } => tribal_types,
        TypeDataView::Planeswalker { planeswalker_types, .. } => planeswalker_types,
        TypeDataView::Battle { battle_types } => battle_types.map_values(
            |t| battle_type_name(t),
        ),
    }
}

/// The concatenation of every fact's subtype names, in type order.
pub open spec fn flat_subtype_names(l: Seq<TypeDataView>) -> Seq<Seq<char>>
    decreases l.len(),
{
    if l.len() == 0 {
        Seq::empty()
    } else {
        entry_subtype_names(l[0]) + flat_subtype_names(l.drop_first())
    }
}

/// The first creature fact's power and toughness, if any.
pub open spec fn find_power(l: Seq<TypeDataView>) -> Option<
    (MaybePlaceholderNumber, MaybePlaceholderNumber),
>
    decreases l.len(),
{
    if l.len() == 0 {
        None
    } else {
        match l[0] {
            TypeDataView::Creature { power, toughness, .. } => Some((power, toughness)),
            _ => find_power(l.drop_first()),
        }
    }
}

/// The first planeswalker fact's loyalty, if any.
pub open spec fn find_loyalty(l: Seq<TypeDataView>) -> Option<MaybePlaceholderNumber>
    decreases l.len(),
{
    if l.len() == 0 {
        None
    } else {
        match l[0] {
            TypeDataView::Planeswalker { loyalty, .. } => Some(loyalty),
            _ => find_loyalty(l.drop_first()),
        }
    }
}

/// The flat document a typed list flattens to: type names in list order,
/// subtype names concatenated in type order, scalars rendered to text and
/// present exactly when their owning type is.
pub open spec fn flatten_spec(l: Seq<TypeDataView>) -> FlatDocView {
    FlatDocView {
        types: l.map_values(|d| card_type_name(type_of_entry(d))),
        subtypes: flat_subtype_names(l),
        power: match find_power(l) {
            Some(pt) => Some(mpn_chars(pt.0)),
            None => None,
        },
        toughness: match find_power(l) {
            Some(pt) => Some(mpn_chars(pt.1)),
            None => None,
        },
        loyalty: match find_loyalty(l) {
            Some(x) => Some(mpn_chars(x)),
            None => None,
        },
    }
}

/// The views of a typed list's facts.
pub open spec fn views_of(v: Seq<CardTypeData>) -> Seq<TypeDataView> {
    v.map_values(|d: CardTypeData| d@)
}

/// Appending one element to a mapped sequence.
pub proof fn lemma_map_values_push<A, B>(s: Seq<A>, f: spec_fn(A) -> B, x: A)
    ensures
        s.push(x).map_values(f) == s.map_values(f).push(f(x)),
{
    assert(s.push(x).map_values(f) =~= s.map_values(f).push(f(x)));
}

/// Appends one fact's rendered subtype names to `out`.
fn push_entry_subtypes(out: &mut Vec<String>, d: &CardTypeData)
    ensures
        string_views(final(out)@) == string_views(old(out)@) + entry_subtype_names(d@),
{
    let ghost base = string_views(old(out)@);
    match d {
        CardTypeData::Land(data) => {
            let n = data.land_types.len();
            let mut i: usize = 0;
            while i < n
                invariant
                    i <= n,
                    n == data.land_types@.len(),
                    string_views(out@) == base + data.land_types@.take(i as int).map_values(
                        |t| land_type_name(t),
                    ),
                decreases n - i,
            {
                proof {
                    assert(data.land_types@.take(i as int + 1) =~= data.land_types@.take(
                        i as int,
                    ).push(data.land_types@[i as int]));
                    lemma_map_values_push(
                        data.land_types@.take(i as int),
                        |t| land_type_name(t),
                        data.land_types@[i as int],
                    );
                }
                let ghost pre = out@;
                out.push(land_type_str(&data.land_types[i]));
                proof {
                    assert(string_views(out@) =~= string_views(pre).push(
                        land_type_name(data.land_types@[i as int]),
                    ));
                    assert(base + data.land_types@.take(i as int).map_values(
                        |t| land_type_name(t),
                    ).push(land_type_name(data.land_types@[i as int])) =~= base
                        + data.land_types@.take(i as int + 1).map_values(|t| land_type_name(t)));
                }
                i += 1;
            }
            proof {
                assert(data.land_types@.take(n as int) =~= data.land_types@);
            }
        },
        CardTypeData::Creature(data) => {
            let n = data.creature_types.len();
            let mut i: usize = 0;
            while i < n
                invariant
                    i <= n,
                    n == data.creature_types@.len(),
                    string_views(out@) == base + creature_type_views(
                        data.creature_types@.take(i as int),
                    ),
                decreases n - i,
            {
                proof {
                    assert(data.creature_types@.take(i as int + 1) =~= data.creature_types@.take(
                        i as int,
                    ).push(data.creature_types@[i as int]));
                    lemma_map_values_push(
                        data.creature_types@.take(i as int),
                        |c: crate::subtypes::CreatureType| c@,
                        data.creature_types@[i as int],
                    );
                }
                let ghost pre = out@;
                out.push(data.creature_types[i].0.clone());
                proof {
                    assert(string_views(out@) =~= string_views(pre).push(
                        data.creature_types@[i as int]@,
                    ));
                    assert(base + creature_type_views(data.creature_types@.take(i as int)).push(
                        data.creature_types@[i as int]@,
                    ) =~= base + creature_type_views(data.creature_types@.take(i as int + 1)));
                }
                i += 1;
            }
            proof {
                assert(data.creature_types@.take(n as int) =~= data.creature_types@);
            }
        },
        CardTypeData::Instant(data) => {
            let n = data.spell_types.len();
            let mut i: usize = 0;
            while i < n
                invariant
                    i <= n,
                    n == data.spell_types@.len(),
                    string_views(out@) == base + data.spell_types@.take(i as int).map_values(
                        |t| spell_type_name(t),
                    ),
                decreases n - i,
            {
                proof {
                    assert(data.spell_types@.take(i as int + 1) =~= data.spell_types@.take(
                        i as int,
                    ).push(data.spell_types@[i as int]));
                    lemma_map_values_push(
                        data.spell_types@.take(i as int),
                        |t| spell_type_name(t),
                        data.spell_types@[i as int],
                    );
                }
                let ghost pre = out@;
                out.push(spell_type_str(&data.spell_types[i]));
                proof {
                    assert(string_views(out@) =~= string_views(pre).push(
                        spell_type_name(data.spell_types@[i as int]),
                    ));
                    assert(base + data.spell_types@.take(i as int).map_values(
                        |t| spell_type_name(t),
                    ).push(spell_type_name(data.spell_types@[i as int])) =~= base
                        + data.spell_types@.take(i as int + 1).map_values(|t| spell_type_name(t)));
                }
                i += 1;
            }
            proof {
                assert(data.spell_types@.take(n as int) =~= data.spell_types@);
            }
        },
        CardTypeData::Sorcery(data) => {
            let n = data.spell_types.len();
            let mut i: usize = 0;
            while i < n
                invariant
                    i <= n,
                    n == data.spell_types@.len(),
                    string_views(out@) == base + data.spell_types@.take(i as int).map_values(
                        |t| spell_type_name(t),
                    ),
                decreases n - i,
            {
                proof {
                    assert(data.spell_types@.take(i as int + 1) =~= data.spell_types@.take(
                        i as int,
                    ).push(data.spell_types@[i as int]));
                    lemma_map_values_push(
                        data.spell_types@.take(i as int),
                        |t| spell_type_name(t),
                        data.spell_types@[i as int],
                    );
                }
                let ghost pre = out@;
                out.push(spell_type_str(&data.spell_types[i]));
                proof {
                    assert(string_views(out@) =~= string_views(pre).push(
                        spell_type_name(data.spell_types@[i as int]),
                    ));
                    assert(base + data.spell_types@.take(i as int).map_values(
                        |t| spell_type_name(t),
                    ).push(spell_type_name(data.spell_types@[i as int])) =~= base
                        + data.spell_types@.take(i as int + 1).map_values(|t| spell_type_name(t)));
                }
                i += 1;
            }
            proof {
                assert(data.spell_types@.take(n as int) =~= data.spell_types@);
            }
        },
        CardTypeData::Artifact(data) => {
            let n = data.artifact_types.len();
            let mut i: usize = 0;
            while i < n
                invariant
                    i <= n,
                    n == data.artifact_types@.len(),
                    string_views(out@) == base + data.artifact_types@.take(i as int).map_values(
                        |t| artifact_subtype_name(t),
                    ),
                decreases n - i,
            {
                proof {
                    assert(data.artifact_types@.take(i as int + 1) =~= data.artifact_types@.take(
                        i as int,
                    ).push(data.artifact_types@[i as int]));
                    lemma_map_values_push(
                        data.artifact_types@.take(i as int),
                        |t| artifact_subtype_name(t),
                        data.artifact_types@[i as int],
                    );
                }
                let ghost pre = out@;
                out.push(artifact_subtype_str(&data.artifact_types[i]));
                proof {
                    assert(string_views(out@) =~= string_views(pre).push(
                        artifact_subtype_name(data.artifact_types@[i as int]),
                    ));
                    assert(base + data.artifact_types@.take(i as int).map_values(
                        |t| artifact_subtype_name(t),
                    ).push(artifact_subtype_name(data.artifact_types@[i as int])) =~= base
                        + data.artifact_types@.take(i as int + 1).map_values(
                        |t| artifact_subtype_name(t),
                    ));
                }
                i += 1;
            }
            proof {
                assert(data.artifact_types@.take(n as int) =~= data.artifact_types@);
            }
        },
        CardTypeData::Enchantment(data) => {
            let n = data.enchantment_types.len();
            let mut i: usize = 0;
            while i < n
                invariant
                    i <= n,
                    n == data.enchantment_types@.len(),
                    string_views(out@) == base + data.enchantment_types@.take(
                        i as int,
                    ).map_values(|t| enchantment_type_name(t)),
                decreases n - i,
            {
                proof {
                    assert(data.enchantment_types@.take(i as int + 1)
                        =~= data.enchantment_types@.take(i as int).push(
                        data.enchantment_types@[i as int],
                    ));
                    lemma_map_values_push(
                        data.enchantment_types@.take(i as int),
                        |t| enchantment_type_name(t),
                        data.enchantment_types@[i as int],
                    );
                }
                let ghost pre = out@;
                out.push(enchantment_type_str(&data.enchantment_types[i]));
                proof {
                    assert(string_views(out@) =~= string_views(pre).push(
                        enchantment_type_name(data.enchantment_types@[i as int]),
                    ));
                    assert(base + data.enchantment_types@.take(i as int).map_values(
                        |t| enchantment_type_name(t),
                    ).push(enchantment_type_name(data.enchantment_types@[i as int])) =~= base
                        + data.enchantment_types@.take(i as int + 1).map_values(
                        |t| enchantment_type_name(t),
                    ));
                }
                i += 1;
            }
            proof {
                assert(data.enchantment_types@.take(n as int) =~= data.enchantment_types@);
            }
        },
        CardTypeData::Tribal(data) => {
            let n = data.tribal_types.len();
            let mut i: usize = 0;
            while i < n
                invariant
                    i <= n,
                    n == data.tribal_types@.len(),
                    string_views(out@) == base + creature_type_views(
                        data.tribal_types@.take(i as int),
                    ),
                decreases n - i,
            {
                proof {
                    assert(data.tribal_types@.take(i as int + 1) =~= data.tribal_types@.take(
                        i as int,
                    ).push(data.tribal_types@[i as int]));
                    lemma_map_values_push(
                        data.tribal_types@.take(i as int),
                        |c: crate::subtypes::CreatureType| c@,
                        data.tribal_types@[i as int],
                    );
                }
                let ghost pre = out@;
                out.push(data.tribal_types[i].0.clone());
                proof {
                    assert(string_views(out@) =~= string_views(pre).push(
                        data.tribal_types@[i as int]@,
                    ));
                    assert(base + creature_type_views(data.tribal_types@.take(i as int)).push(
                        data.tribal_types@[i as int]@,
                    ) =~= base + creature_type_views(data.tribal_types@.take(i as int + 1)));
                }
                i += 1;
            }
            proof {
                assert(data.tribal_types@.take(n as int) =~= data.tribal_types@);
            }
        },
        CardTypeData::Planeswalker(data) => {
            let n = data.planeswalker_types.len();
            let mut i: usize = 0;
            while i < n
                invariant
                    i <= n,
                    n == data.planeswalker_types@.len(),
                    string_views(out@) == base + planeswalker_type_views(
                        data.planeswalker_types@.take(i as int),
                    ),
                decreases n - i,
            {
                proof {
                    assert(data.planeswalker_types@.take(i as int + 1)
                        =~= data.planeswalker_types@.take(i as int).push(
                        data.planeswalker_types@[i as int],
                    ));
                    lemma_map_values_push(
                        data.planeswalker_types@.take(i as int),
                        |c: crate::subtypes::PlaneswalkerType| c@,
                        data.planeswalker_types@[i as int],
                    );
                }
                let ghost pre = out@;
                out.push(data.planeswalker_types[i].0.clone());
                proof {
                    assert(string_views(out@) =~= string_views(pre).push(
                        data.planeswalker_types@[i as int]@,
                    ));
                    assert(base + planeswalker_type_views(
                        data.planeswalker_types@.take(i as int),
                    ).push(data.planeswalker_types@[i as int]@) =~= base + planeswalker_type_views(
                        data.planeswalker_types@.take(i as int + 1),
                    ));
                }
                i += 1;
            }
            proof {
                assert(data.planeswalker_types@.take(n as int) =~= data.planeswalker_types@);
            }
        },
        CardTypeData::Battle(data) => {
            let n = data.battle_types.len();
            let mut i: usize = 0;
            while i < n
                invariant
                    i <= n,
                    n == data.battle_types@.len(),
                    string_views(out@) == base + data.battle_types@.take(i as int).map_values(
                        |t| battle_type_name(t),
                    ),
                decreases n - i,
            {
                proof {
                    assert(data.battle_types@.take(i as int + 1) =~= data.battle_types@.take(
                        i as int,
                    ).push(data.battle_types@[i as int]));
                    lemma_map_values_push(
                        data.battle_types@.take(i as int),
                        |t| battle_type_name(t),
                        data.battle_types@[i as int],
                    );
                }
                let ghost pre = out@;
                out.push(battle_type_str(&data.battle_types[i]));
                proof {
                    assert(string_views(out@) =~= string_views(pre).push(
                        battle_type_name(data.battle_types@[i as int]),
                    ));
                    assert(base + data.battle_types@.take(i as int).map_values(
                        |t| battle_type_name(t),
                    ).push(battle_type_name(data.battle_types@[i as int])) =~= base
                        + data.battle_types@.take(i as int + 1).map_values(
                        |t| battle_type_name(t),
                    ));
                }
                i += 1;
            }
            proof {
                assert(data.battle_types@.take(n as int) =~= data.battle_types@);
            }
        },
    }
}

/// Concatenated subtype names distribute over list concatenation.
pub proof fn lemma_flat_subtype_names_add(a: Seq<TypeDataView>, b: Seq<TypeDataView>)
    ensures
        flat_subtype_names(a + b) == flat_subtype_names(a) + flat_subtype_names(b),
    decreases a.len(),
{
    if a.len() == 0 {
        assert(a + b =~= b);
        assert(flat_subtype_names(a) + flat_subtype_names(b) =~= flat_subtype_names(b));
    } else {
        assert((a + b).drop_first() =~= a.drop_first() + b);
        lemma_flat_subtype_names_add(a.drop_first(), b);
        assert((a + b)[0] == a[0]);
        assert(entry_subtype_names(a[0]) + (flat_subtype_names(a.drop_first())
            + flat_subtype_names(b)) =~= (entry_subtype_names(a[0]) + flat_subtype_names(
            a.drop_first(),
        )) + flat_subtype_names(b));
    }
}

/// Flattens a typed list to its flat document, in exact agreement with
/// `flatten_spec`; this direction is total.
pub fn flatten(list: &Vec<CardTypeData>) -> (r: FlatCardTypeData)
    ensures
        r@ == flatten_spec(views_of(list@)),
{
    let mut types: Vec<String> = Vec::new();
    let mut subtypes: Vec<String> = Vec::new();
    let mut power: Option<String> = None;
    let mut toughness: Option<String> = None;
    let mut loyalty: Option<String> = None;
    let n = list.len();
    let mut i: usize = 0;
    while i < n
        invariant
            i <= n,
            n == list@.len(),
            string_views(types@) == views_of(list@.take(i as int)).map_values(
                |d| card_type_name(type_of_entry(d)),
            ),
            string_views(subtypes@) == flat_subtype_names(views_of(list@.take(i as int))),
            match find_power(views_of(list@.take(i as int))) {
                Some(pt) => (power matches Some(p) && p@ == mpn_chars(pt.0)) && (
                toughness matches Some(t) && t@ == mpn_chars(pt.1)),
                None => power is None && toughness is None,
            },
            match find_loyalty(views_of(list@.take(i as int))) {
                Some(x) => loyalty matches Some(l) && l@ == mpn_chars(x),
                None => loyalty is None,
            },
        decreases n - i,
    {
        let ghost prefix = views_of(list@.take(i as int));
        let ghost entry_view = list@[i as int]@;
        proof {
            assert(list@.take(i as int + 1) =~= list@.take(i as int).push(list@[i as int]));
            lemma_map_values_push(list@.take(i as int), |d: CardTypeData| d@, list@[i as int]);
            assert(views_of(list@.take(i as int + 1)) =~= prefix.push(entry_view));
            lemma_map_values_push(prefix, |d| card_type_name(type_of_entry(d)), entry_view);
            assert(prefix.push(entry_view) =~= prefix + seq![entry_view]);
            lemma_flat_subtype_names_add(prefix, seq![entry_view]);
            assert(seq![entry_view].drop_first() =~= Seq::<TypeDataView>::empty());
            assert(flat_subtype_names(Seq::<TypeDataView>::empty()) =~= Seq::<Seq<char>>::empty());
            assert(flat_subtype_names(seq![entry_view]) == entry_subtype_names(entry_view)
                + Seq::<Seq<char>>::empty());
            assert(entry_subtype_names(entry_view) + Seq::<Seq<char>>::empty()
                =~= entry_subtype_names(entry_view));
        }
        let entry = &list[i];
        let ghost pre_types = types@;
        types.push(card_type_str(&card_type_of(entry)));
        proof {
            assert(string_views(types@) =~= string_views(pre_types).push(
                card_type_name(type_of_entry(entry_view)),
            ));
        }
        push_entry_subtypes(&mut subtypes, entry);
        match entry {
            CardTypeData::Creature(data) => {
                if power.is_none() {
                    power = Some(data.power.to_text());
                    toughness = Some(data.toughness.to_text());
                }
            },
            CardTypeData::Planeswalker(data) => {
                if loyalty.is_none() {
                    loyalty = Some(data.loyalty.to_text());
                }
            },
            _ => {},
        }
        proof {
            lemma_find_power_step(prefix, entry_view);
            lemma_find_loyalty_step(prefix, entry_view);
        }
        i += 1;
    }
    proof {
        assert(list@.take(n as int) =~= list@);
    }
    FlatCardTypeData { types, subtypes, power, toughness, loyalty }
}

/// Extending a list changes its first creature's scalars only when the
/// list had no creature and the new fact is one.
proof fn lemma_find_power_step(prefix: Seq<TypeDataView>, entry: TypeDataView)
    ensures
        find_power(prefix.push(entry)) == match find_power(prefix) {
            Some(pt) => Some(pt),
            None => match entry {
                TypeDataView::Creature { power, toughness, .. } => Some((power, toughness)),
                _ => None,
            },
        },
    decreases prefix.len(),
{
    let l = prefix.push(entry);
    if prefix.len() == 0 {
        assert(l[0] == entry);
        assert(l.drop_first() =~= Seq::<TypeDataView>::empty());
        assert(find_power(Seq::<TypeDataView>::empty()) is None);
        match entry {
            TypeDataView::Creature { .. } => {},
            TypeDataView::Planeswalker { .. } => {},
            _ => {},
        }
    } else {
        assert(l[0] == prefix[0]);
        assert(l.drop_first() =~= prefix.drop_first().push(entry));
        lemma_find_power_step(prefix.drop_first(), entry);
        match prefix[0] {
            TypeDataView::Creature { .. } => {},
            TypeDataView::Planeswalker { .. } => {},
            _ => {
                assert(find_power(l) == find_power(l.drop_first()));
                assert(find_power(prefix) == find_power(prefix.drop_first()));
            },
        }
    }
}

/// Extending a list changes its first planeswalker's loyalty only when
/// the list had none and the new fact is a planeswalker.
proof fn lemma_find_loyalty_step(prefix: Seq<TypeDataView>, entry: TypeDataView)
    ensures
        find_loyalty(prefix.push(entry)) == match find_loyalty(prefix) {
            Some(x) => Some(x),
            None => match entry {
                TypeDataView::Planeswalker { loyalty, .. } => Some(loyalty),
                _ => None,
            },
        },
    decreases prefix.len(),
{
    let l = prefix.push(entry);
    if prefix.len() == 0 {
        assert(l[0] == entry);
        assert(l.drop_first() =~= Seq::<TypeDataView>::empty());
        assert(find_loyalty(Seq::<TypeDataView>::empty()) is None);
        match entry {
            TypeDataView::Creature { .. } => {},
            TypeDataView::Planeswalker { .. } => {},
            _ => {},
        }
    } else {
        assert(l[0] == prefix[0]);
        assert(l.drop_first() =~= prefix.drop_first().push(entry));
        lemma_find_loyalty_step(prefix.drop_first(), entry);
        match prefix[0] {
            TypeDataView::Creature { .. } => {},
            TypeDataView::Planeswalker { .. } => {},
            _ => {
                assert(find_loyalty(l) == find_loyalty(l.drop_first()));
                assert(find_loyalty(prefix) == find_loyalty(prefix.drop_first()));
            },
        }
    }
}

} // verus!
