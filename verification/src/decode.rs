//! Decoding a flat document back into a typed card-type list: type names
//! are resolved in order and each card type present is processed once, in
//! first-appearance order; each type claims the remaining subtype entries
//! its vocabulary accepts (first declared type wins), scalar fields are
//! parsed, and any unclaimed subtype entry fails the decode.

use vstd::prelude::*;

use crate::card_types::{
    creature_type_views, parse_mpn, planeswalker_type_views, parse_card_type,
    parse_card_type_exec, CardType, CardTypeData, CreatureData, EnchantmentData, InstantData,
    LandData, PlaneswalkerData, SorceryData, TribalData, TypeDataView,
};
use crate::card_types::{ArtifactData, BattleData, MaybePlaceholderNumber};
use crate::flat::{
    in_vocab, string_views, views_of, DecodeError, DecodeErrorView, FlatCardTypeData, FlatDocView,
};
use crate::subtypes::{
    is_creature_type_str, is_planeswalker_type_str, parse_artifact_subtype,
    parse_artifact_subtype_exec, parse_battle_type, parse_battle_type_exec,
    parse_enchantment_type, parse_enchantment_type_exec, parse_land_type, parse_land_type_exec,
    parse_spell_type, parse_spell_type_exec, ArtifactSubtype, BattleType, CreatureType,
    EnchantmentType, LandType, PlaneswalkerType, SpellType,
};

verus! {

/// The subtype entries of `avail` that `t`'s vocabulary accepts, in order.
#[verifier::opaque]
pub open spec fn claim(t: CardType, avail: Seq<Seq<char>>) -> Seq<Seq<char>> {
    avail.filter(|s: Seq<char>| in_vocab(t, s))
}

/// The subtype entries of `avail` that `t`'s vocabulary rejects, in order.
#[verifier::opaque]
pub open spec fn residue(t: CardType, avail: Seq<Seq<char>>) -> Seq<Seq<char>> {
    avail.filter(|s: Seq<char>| !in_vocab(t, s))
}

/// Claim and residue of the empty candidate list.
pub proof fn lemma_claim_empty(t: CardType)
    ensures
        claim(t, Seq::<Seq<char>>::empty()) == Seq::<Seq<char>>::empty(),
        residue(t, Seq::<Seq<char>>::empty()) == Seq::<Seq<char>>::empty(),
{
    reveal(claim);
    reveal(residue);
    reveal(Seq::filter);
}

/// Claim and residue after appending one candidate.
pub proof fn lemma_claim_push(t: CardType, s: Seq<Seq<char>>, x: Seq<char>)
    ensures
        claim(t, s.push(x)) == if in_vocab(t, x) {
            claim(t, s).push(x)
        } else {
            claim(t, s)
        },
        residue(t, s.push(x)) == if in_vocab(t, x) {
            residue(t, s)
        } else {
            residue(t, s).push(x)
        },
{
    reveal(claim);
    reveal(residue);
    reveal(Seq::filter);
    assert(s.push(x).drop_last() =~= s);
    assert(s.push(x).last() == x);
}

/// The type names of a document resolved in order: the declared card
/// types, or the first name that resolves to none.
pub open spec fn resolve_types(names: Seq<Seq<char>>) -> Result<Seq<CardType>, Seq<char>>
    decreases names.len(),
{
    if names.len() == 0 {
        Ok(Seq::empty())
    } else {
        match parse_card_type(names[0]) {
            Some(t) => match resolve_types(names.drop_first()) {
                Ok(rest) => Ok(seq![t] + rest),
                Err(e) => Err(e),
            },
            None => Err(names[0]),
        }
    }
}

/// Claimed land subtype names converted to their typed form.
pub open spec fn land_types_of(names: Seq<Seq<char>>) -> Seq<LandType> {
    names.map_values(|s| parse_land_type(s).unwrap())
}

/// Claimed spell subtype names converted to their typed form.
pub open spec fn spell_types_of(names: Seq<Seq<char>>) -> Seq<SpellType> {
    names.map_values(|s| parse_spell_type(s).unwrap())
}

/// Claimed artifact subtype names converted to their typed form.
pub open spec fn artifact_types_of(names: Seq<Seq<char>>) -> Seq<ArtifactSubtype> {
    names.map_values(|s| parse_artifact_subtype(s).unwrap())
}

/// Claimed enchantment subtype names converted to their typed form.
pub open spec fn enchantment_types_of(names: Seq<Seq<char>>) -> Seq<EnchantmentType> {
    names.map_values(|s| parse_enchantment_type(s).unwrap())
}

/// Claimed battle subtype names converted to their typed form.
pub open spec fn battle_types_of(names: Seq<Seq<char>>) -> Seq<BattleType> {
    names.map_values(|s| parse_battle_type(s).unwrap())
}

/// The declared types with repeats removed: each card type kept at its
/// first appearance, in that order. A document may list the same type
/// name twice; the decode processes each card type present exactly once,
/// so a decoded list never holds two facts of one type.
pub open spec fn dedup_types(ts: Seq<CardType>) -> Seq<CardType>
    decreases ts.len(),
{
    if ts.len() == 0 {
        Seq::empty()
    } else {
        let rest = dedup_types(ts.drop_last());
        if rest.contains(ts.last()) {
            rest
        } else {
            rest.push(ts.last())
        }
    }
}

/// The deduplicated type list holds no card type twice.
pub proof fn lemma_dedup_no_repeat(ts: Seq<CardType>)
    ensures
        forall|i: int, j: int|
            0 <= i < j < dedup_types(ts).len() ==> dedup_types(ts)[i] != dedup_types(ts)[j],
    decreases ts.len(),
{
    if ts.len() > 0 {
        lemma_dedup_no_repeat(ts.drop_last());
        let rest = dedup_types(ts.drop_last());
        if !rest.contains(ts.last()) {
            assert forall|i: int, j: int|
                0 <= i < j < dedup_types(ts).len() implies dedup_types(ts)[i] != dedup_types(
                ts,
            )[j] by {
                if j < rest.len() {
                } else {
                    assert(dedup_types(ts)[i] == rest[i]);
                    assert(dedup_types(ts)[j] == ts.last());
                }
            }
        }
    }
}

/// A list whose card types are pairwise distinct deduplicates to itself.
pub proof fn lemma_dedup_of_distinct(ts: Seq<CardType>)
    requires
        forall|i: int, j: int| 0 <= i < j < ts.len() ==> ts[i] != ts[j],
    ensures
        dedup_types(ts) == ts,
    decreases ts.len(),
{
    if ts.len() == 0 {
        assert(dedup_types(ts) =~= ts);
    } else {
        assert forall|i: int, j: int|
            0 <= i < j < ts.drop_last().len() implies ts.drop_last()[i] != ts.drop_last()[j] by {
            assert(ts.drop_last()[i] == ts[i]);
            assert(ts.drop_last()[j] == ts[j]);
        }
        lemma_dedup_of_distinct(ts.drop_last());
        assert(!ts.drop_last().contains(ts.last())) by {
            if ts.drop_last().contains(ts.last()) {
                let k = choose|k: int|
                    0 <= k < ts.drop_last().len() && ts.drop_last()[k] == ts.last();
                assert(ts[k] == ts[ts.len() - 1]);
            }
        }
        assert(dedup_types(ts) =~= ts);
    }
}

/// One declared type's fact, built from the document's scalar fields and
/// the subtype entries the type claimed. A creature requires `power` and
/// `toughness`; a planeswalker requires `loyalty`; a missing field or an
/// unparseable value fails the decode.
#[verifier::opaque]
pub open spec fn decode_entry(t: CardType, f: FlatDocView, taken: Seq<Seq<char>>) -> Result<
    TypeDataView,
    DecodeErrorView,
> {
    match t {
        CardType::Land => Ok(TypeDataView::Land { land_types: land_types_of(taken) }),
        CardType::Creature => match f.power {
            None => Err(DecodeErrorView::MissingField("power"@)),
            Some(ptext) => match parse_mpn(ptext) {
                None => Err(DecodeErrorView::InvalidField(ptext)),
                Some(p) => match f.toughness {
                    None => Err(DecodeErrorView::MissingField("toughness"@)),
                    Some(ttext) => match parse_mpn(ttext) {
                        None => Err(DecodeErrorView::InvalidField(ttext)),
                        Some(tv) => Ok(
                            TypeDataView::Creature {
                                power: p,
                                toughness: tv,
                                creature_types: taken,
                            },
                        ),
                    },
                },
            },
        },
        CardType::Instant => Ok(TypeDataView::Instant { spell_types: spell_types_of(taken) }),
        CardType::Sorcery => Ok(TypeDataView::Sorcery { spell_types: spell_types_of(taken) }),
        CardType::Artifact => Ok(
            TypeDataView::Artifact { artifact_types: artifact_types_of(taken) },
        ),
        CardType::Enchantment => Ok(
            TypeDataView::Enchantment { enchantment_types: enchantment_types_of(taken) },
        ),
        CardType::Tribal => Ok(TypeDataView::Tribal { tribal_types: taken }),
        CardType::Planeswalker => match f.loyalty {
            None => Err(DecodeErrorView::MissingField("loyalty"@)),
            Some(ltext) => match parse_mpn(ltext) {
                None => Err(DecodeErrorView::InvalidField(ltext)),
                Some(l) => Ok(
                    TypeDataView::Planeswalker { planeswalker_types: taken, loyalty: l },
                ),
            },
        },
        CardType::Battle => Ok(TypeDataView::Battle { battle_types: battle_types_of(taken) }),
    }
}

/// Processes the declared types in order against the remaining subtype
/// candidates: each type claims what its vocabulary accepts, builds its
/// fact, and passes the residue on. Returns the facts and the candidates
/// no type claimed.
pub open spec fn process_types(
    ts: Seq<CardType>,
    f: FlatDocView,
    avail: Seq<Seq<char>>,
) -> Result<(Seq<TypeDataView>, Seq<Seq<char>>), DecodeErrorView>
    decreases ts.len(),
{
    if ts.len() == 0 {
        Ok((Seq::empty(), avail))
    } else {
        match decode_entry(ts[0], f, claim(ts[0], avail)) {
            Err(e) => Err(e),
            Ok(entry) => match process_types(ts.drop_first(), f, residue(ts[0], avail)) {
                Err(e) => Err(e),
                Ok(pair) => Ok((seq![entry] + pair.0, pair.1)),
            },
        }
    }
}

/// The meaning of decoding a flat document: resolve the type names, take
/// each card type present once in first-appearance order, let each claim
/// its subtypes, and fail on the first unknown type, bad scalar field, or
/// any unclaimed subtype entry.
pub open spec fn unflatten_spec(f: FlatDocView) -> Result<Seq<TypeDataView>, DecodeErrorView> {
    match resolve_types(f.types) {
        Err(name) => Err(DecodeErrorView::UnknownType(name)),
        Ok(ts) => match process_types(dedup_types(ts), f, f.subtypes) {
            Err(e) => Err(e),
            Ok(pair) => if pair.1.len() == 0 {
                Ok(pair.0)
            } else {
                Err(DecodeErrorView::UnusedSubtypes(pair.1))
            },
        },
    }
}

/// Splits `avail` into the entries the land vocabulary accepts,
/// converted to their typed form, and the residue, both in original order.
fn partition_land(avail: &Vec<String>) -> (r: (Vec<LandType>, Vec<String>))
    ensures
        r.0@ == land_types_of(claim(CardType::Land, string_views(avail@))),
        string_views(r.1@) == residue(CardType::Land, string_views(avail@)),
{
    let ghost av = string_views(avail@);
    let mut taken: Vec<LandType> = Vec::new();
    let mut left: Vec<String> = Vec::new();
    let n = avail.len();
    let mut i: usize = 0;
    proof {
        assert(av.take(0) =~= Seq::<Seq<char>>::empty());
        lemma_claim_empty(CardType::Land);
        assert(land_types_of(Seq::<Seq<char>>::empty()) =~= Seq::<LandType>::empty());
        assert(string_views(Seq::<String>::empty()) =~= Seq::<Seq<char>>::empty());
    }
    while i < n
        invariant
            i <= n,
            n == avail@.len(),
            av == string_views(avail@),
            taken@ == land_types_of(claim(CardType::Land, av.take(i as int))),
            string_views(left@) == residue(CardType::Land, av.take(i as int)),
        decreases n - i,
    {
        proof {
            assert(av.take(i as int + 1) =~= av.take(i as int).push(av[i as int]));
            assert(av[i as int] == avail@[i as int]@);
            lemma_claim_push(CardType::Land, av.take(i as int), av[i as int]);
        }
        match parse_land_type_exec(avail[i].as_str()) {
            Some(t) => {
                let ghost pre = taken@;
                taken.push(t);
                proof {
                    reveal(crate::flat::in_vocab);
                    assert(in_vocab(CardType::Land, av[i as int]));
                    assert(land_types_of(claim(CardType::Land, av.take(i as int)).push(av[i as int])) =~= land_types_of(
                        claim(CardType::Land, av.take(i as int)),
                    ).push(parse_land_type(av[i as int]).unwrap()));
                }
            },
            None => {
                let ghost pre = left@;
                left.push(avail[i].clone());
                proof {
                    reveal(crate::flat::in_vocab);
                    assert(!in_vocab(CardType::Land, av[i as int]));
                    assert(string_views(left@) =~= string_views(pre).push(av[i as int]));
                }
            },
        }
        i += 1;
    }
    proof {
        assert(av.take(n as int) =~= av);
    }
    (taken, left)
}

/// Splits `avail` into the entries the artifact vocabulary accepts,
/// converted to their typed form, and the residue, both in original order.
fn partition_artifact(avail: &Vec<String>) -> (r: (Vec<ArtifactSubtype>, Vec<String>))
    ensures
        r.0@ == artifact_types_of(claim(CardType::Artifact, string_views(avail@))),
        string_views(r.1@) == residue(CardType::Artifact, string_views(avail@)),
{
    let ghost av = string_views(avail@);
    let mut taken: Vec<ArtifactSubtype> = Vec::new();
    let mut left: Vec<String> = Vec::new();
    let n = avail.len();
    let mut i: usize = 0;
    proof {
        assert(av.take(0) =~= Seq::<Seq<char>>::empty());
        lemma_claim_empty(CardType::Artifact);
        assert(artifact_types_of(Seq::<Seq<char>>::empty()) =~= Seq::<ArtifactSubtype>::empty());
        assert(string_views(Seq::<String>::empty()) =~= Seq::<Seq<char>>::empty());
    }
    while i < n
        invariant
            i <= n,
            n == avail@.len(),
            av == string_views(avail@),
            taken@ == artifact_types_of(claim(CardType::Artifact, av.take(i as int))),
            string_views(left@) == residue(CardType::Artifact, av.take(i as int)),
        decreases n - i,
    {
        proof {
            assert(av.take(i as int + 1) =~= av.take(i as int).push(av[i as int]));
            assert(av[i as int] == avail@[i as int]@);
            lemma_claim_push(CardType::Artifact, av.take(i as int), av[i as int]);
        }
        match parse_artifact_subtype_exec(avail[i].as_str()) {
            Some(t) => {
                let ghost pre = taken@;
                taken.push(t);
                proof {
                    reveal(crate::flat::in_vocab);
                    assert(in_vocab(CardType::Artifact, av[i as int]));
                    assert(artifact_types_of(claim(CardType::Artifact, av.take(i as int)).push(av[i as int])) =~= artifact_types_of(
                        claim(CardType::Artifact, av.take(i as int)),
                    ).push(parse_artifact_subtype(av[i as int]).unwrap()));
                }
            },
            None => {
                let ghost pre = left@;
                left.push(avail[i].clone());
                proof {
                    reveal(crate::flat::in_vocab);
                    assert(!in_vocab(CardType::Artifact, av[i as int]));
                    assert(string_views(left@) =~= string_views(pre).push(av[i as int]));
                }
            },
        }
        i += 1;
    }
    proof {
        assert(av.take(n as int) =~= av);
    }
    (taken, left)
}

/// Splits `avail` into the entries the enchantment vocabulary accepts,
/// converted to their typed form, and the residue, both in original order.
fn partition_enchantment(avail: &Vec<String>) -> (r: (Vec<EnchantmentType>, Vec<String>))
    ensures
        r.0@ == enchantment_types_of(claim(CardType::Enchantment, string_views(avail@))),
        string_views(r.1@) == residue(CardType::Enchantment, string_views(avail@)),
{
    let ghost av = string_views(avail@);
    let mut taken: Vec<EnchantmentType> = Vec::new();
    let mut left: Vec<String> = Vec::new();
    let n = avail.len();
    let mut i: usize = 0;
    proof {
        assert(av.take(0) =~= Seq::<Seq<char>>::empty());
        lemma_claim_empty(CardType::Enchantment);
        assert(enchantment_types_of(Seq::<Seq<char>>::empty()) =~= Seq::<EnchantmentType>::empty());
        assert(string_views(Seq::<String>::empty()) =~= Seq::<Seq<char>>::empty());
    }
    while i < n
        invariant
            i <= n,
            n == avail@.len(),
            av == string_views(avail@),
            taken@ == enchantment_types_of(claim(CardType::Enchantment, av.take(i as int))),
            string_views(left@) == residue(CardType::Enchantment, av.take(i as int)),
        decreases n - i,
    {
        proof {
            assert(av.take(i as int + 1) =~= av.take(i as int).push(av[i as int]));
            assert(av[i as int] == avail@[i as int]@);
            lemma_claim_push(CardType::Enchantment, av.take(i as int), av[i as int]);
        }
        match parse_enchantment_type_exec(avail[i].as_str()) {
            Some(t) => {
                let ghost pre = taken@;
                taken.push(t);
                proof {
                    reveal(crate::flat::in_vocab);
                    assert(in_vocab(CardType::Enchantment, av[i as int]));
                    assert(enchantment_types_of(claim(CardType::Enchantment, av.take(i as int)).push(av[i as int])) =~= enchantment_types_of(
                        claim(CardType::Enchantment, av.take(i as int)),
                    ).push(parse_enchantment_type(av[i as int]).unwrap()));
                }
            },
            None => {
                let ghost pre = left@;
                left.push(avail[i].clone());
                proof {
                    reveal(crate::flat::in_vocab);
                    assert(!in_vocab(CardType::Enchantment, av[i as int]));
                    assert(string_views(left@) =~= string_views(pre).push(av[i as int]));
                }
            },
        }
        i += 1;
    }
    proof {
        assert(av.take(n as int) =~= av);
    }
    (taken, left)
}

/// Splits `avail` into the entries the battle vocabulary accepts,
/// converted to their typed form, and the residue, both in original order.
fn partition_battle(avail: &Vec<String>) -> (r: (Vec<BattleType>, Vec<String>))
    ensures
        r.0@ == battle_types_of(claim(CardType::Battle, string_views(avail@))),
        string_views(r.1@) == residue(CardType::Battle, string_views(avail@)),
{
    let ghost av = string_views(avail@);
    let mut taken: Vec<BattleType> = Vec::new();
    let mut left: Vec<String> = Vec::new();
    let n = avail.len();
    let mut i: usize = 0;
    proof {
        assert(av.take(0) =~= Seq::<Seq<char>>::empty());
        lemma_claim_empty(CardType::Battle);
        assert(battle_types_of(Seq::<Seq<char>>::empty()) =~= Seq::<BattleType>::empty());
        assert(string_views(Seq::<String>::empty()) =~= Seq::<Seq<char>>::empty());
    }
    while i < n
        invariant
            i <= n,
            n == avail@.len(),
            av == string_views(avail@),
            taken@ == battle_types_of(claim(CardType::Battle, av.take(i as int))),
            string_views(left@) == residue(CardType::Battle, av.take(i as int)),
        decreases n - i,
    {
        proof {
            assert(av.take(i as int + 1) =~= av.take(i as int).push(av[i as int]));
            assert(av[i as int] == avail@[i as int]@);
            lemma_claim_push(CardType::Battle, av.take(i as int), av[i as int]);
        }
        match parse_battle_type_exec(avail[i].as_str()) {
            Some(t) => {
                let ghost pre = taken@;
                taken.push(t);
                proof {
                    reveal(crate::flat::in_vocab);
                    assert(in_vocab(CardType::Battle, av[i as int]));
                    assert(battle_types_of(claim(CardType::Battle, av.take(i as int)).push(av[i as int])) =~= battle_types_of(
                        claim(CardType::Battle, av.take(i as int)),
                    ).push(parse_battle_type(av[i as int]).unwrap()));
                }
            },
            None => {
                let ghost pre = left@;
                left.push(avail[i].clone());
                proof {
                    reveal(crate::flat::in_vocab);
                    assert(!in_vocab(CardType::Battle, av[i as int]));
                    assert(string_views(left@) =~= string_views(pre).push(av[i as int]));
                }
            },
        }
        i += 1;
    }
    proof {
        assert(av.take(n as int) =~= av);
    }
    (taken, left)
}

/// Splits `avail` into the entries the shared spell vocabulary accepts,
/// converted to their typed form, and the residue; instants and sorceries
/// use the same vocabulary.
fn partition_spell(t: CardType, avail: &Vec<String>) -> (r: (Vec<SpellType>, Vec<String>))
    requires
        t == CardType::Instant || t == CardType::Sorcery,
    ensures
        r.0@ == spell_types_of(claim(t, string_views(avail@))),
        string_views(r.1@) == residue(t, string_views(avail@)),
{
    let ghost av = string_views(avail@);
    let mut taken: Vec<SpellType> = Vec::new();
    let mut left: Vec<String> = Vec::new();
    let n = avail.len();
    let mut i: usize = 0;
    proof {
        assert(av.take(0) =~= Seq::<Seq<char>>::empty());
        lemma_claim_empty(t);
        assert(spell_types_of(Seq::<Seq<char>>::empty()) =~= Seq::<SpellType>::empty());
        assert(string_views(Seq::<String>::empty()) =~= Seq::<Seq<char>>::empty());
    }
    while i < n
        invariant
            i <= n,
            n == avail@.len(),
            t == CardType::Instant || t == CardType::Sorcery,
            av == string_views(avail@),
            taken@ == spell_types_of(claim(t, av.take(i as int))),
            string_views(left@) == residue(t, av.take(i as int)),
        decreases n - i,
    {
        proof {
            assert(av.take(i as int + 1) =~= av.take(i as int).push(av[i as int]));
            assert(av[i as int] == avail@[i as int]@);
            lemma_claim_push(t, av.take(i as int), av[i as int]);
        }
        match parse_spell_type_exec(avail[i].as_str()) {
            Some(st) => {
                let ghost pre = taken@;
                taken.push(st);
                proof {
                    reveal(crate::flat::in_vocab);
                    assert(in_vocab(t, av[i as int]));
                    assert(spell_types_of(claim(t, av.take(i as int)).push(av[i as int]))
                        =~= spell_types_of(claim(t, av.take(i as int))).push(
                        parse_spell_type(av[i as int]).unwrap(),
                    ));
                }
            },
            None => {
                let ghost pre = left@;
                left.push(avail[i].clone());
                proof {
                    reveal(crate::flat::in_vocab);
                    assert(!in_vocab(t, av[i as int]));
                    assert(string_views(left@) =~= string_views(pre).push(av[i as int]));
                }
            },
        }
        i += 1;
    }
    proof {
        assert(av.take(n as int) =~= av);
    }
    (taken, left)
}

/// Splits `avail` into the entries the creature allow-list accepts and
/// the residue; creatures and tribal cards use the same vocabulary.
fn partition_creature_like(t: CardType, avail: &Vec<String>) -> (r: (
    Vec<CreatureType>,
    Vec<String>,
))
    requires
        t == CardType::Creature || t == CardType::Tribal,
    ensures
        creature_type_views(r.0@) == claim(t, string_views(avail@)),
        string_views(r.1@) == residue(t, string_views(avail@)),
{
    let ghost av = string_views(avail@);
    let mut taken: Vec<CreatureType> = Vec::new();
    let mut left: Vec<String> = Vec::new();
    let n = avail.len();
    let mut i: usize = 0;
    proof {
        assert(av.take(0) =~= Seq::<Seq<char>>::empty());
        lemma_claim_empty(t);
        assert(creature_type_views(Seq::<CreatureType>::empty()) =~= Seq::<Seq<char>>::empty());
        assert(string_views(Seq::<String>::empty()) =~= Seq::<Seq<char>>::empty());
    }
    while i < n
        invariant
            i <= n,
            n == avail@.len(),
            t == CardType::Creature || t == CardType::Tribal,
            av == string_views(avail@),
            creature_type_views(taken@) == claim(t, av.take(i as int)),
            string_views(left@) == residue(t, av.take(i as int)),
        decreases n - i,
    {
        proof {
            assert(av.take(i as int + 1) =~= av.take(i as int).push(av[i as int]));
            assert(av[i as int] == avail@[i as int]@);
            lemma_claim_push(t, av.take(i as int), av[i as int]);
        }
        if is_creature_type_str(avail[i].as_str()) {
            let ghost pre = taken@;
            taken.push(CreatureType(avail[i].clone()));
            proof {
                reveal(crate::flat::in_vocab);
                assert(in_vocab(t, av[i as int]));
                assert(creature_type_views(taken@) =~= creature_type_views(pre).push(
                    av[i as int],
                ));
            }
        } else {
            let ghost pre = left@;
            left.push(avail[i].clone());
            proof {
                reveal(crate::flat::in_vocab);
                assert(!in_vocab(t, av[i as int]));
                assert(string_views(left@) =~= string_views(pre).push(av[i as int]));
            }
        }
        i += 1;
    }
    proof {
        assert(av.take(n as int) =~= av);
    }
    (taken, left)
}

/// Splits `avail` into the entries the planeswalker allow-list accepts
/// and the residue, both in original order.
fn partition_planeswalker(avail: &Vec<String>) -> (r: (Vec<PlaneswalkerType>, Vec<String>))
    ensures
        planeswalker_type_views(r.0@) == claim(CardType::Planeswalker, string_views(avail@)),
        string_views(r.1@) == residue(CardType::Planeswalker, string_views(avail@)),
{
    let ghost av = string_views(avail@);
    let mut taken: Vec<PlaneswalkerType> = Vec::new();
    let mut left: Vec<String> = Vec::new();
    let n = avail.len();
    let mut i: usize = 0;
    proof {
        assert(av.take(0) =~= Seq::<Seq<char>>::empty());
        lemma_claim_empty(CardType::Planeswalker);
        assert(planeswalker_type_views(Seq::<PlaneswalkerType>::empty()) =~= Seq::<
            Seq<char>,
        >::empty());
        assert(string_views(Seq::<String>::empty()) =~= Seq::<Seq<char>>::empty());
    }
    while i < n
        invariant
            i <= n,
            n == avail@.len(),
            av == string_views(avail@),
            planeswalker_type_views(taken@) == claim(CardType::Planeswalker, av.take(i as int)),
            string_views(left@) == residue(CardType::Planeswalker, av.take(i as int)),
        decreases n - i,
    {
        proof {
            assert(av.take(i as int + 1) =~= av.take(i as int).push(av[i as int]));
            assert(av[i as int] == avail@[i as int]@);
            lemma_claim_push(CardType::Planeswalker, av.take(i as int), av[i as int]);
        }
        if is_planeswalker_type_str(avail[i].as_str()) {
            let ghost pre = taken@;
            taken.push(PlaneswalkerType(avail[i].clone()));
            proof {
                reveal(crate::flat::in_vocab);
                assert(in_vocab(CardType::Planeswalker, av[i as int]));
                assert(planeswalker_type_views(taken@) =~= planeswalker_type_views(pre).push(
                    av[i as int],
                ));
            }
        } else {
            let ghost pre = left@;
            left.push(avail[i].clone());
            proof {
                reveal(crate::flat::in_vocab);
                assert(!in_vocab(CardType::Planeswalker, av[i as int]));
                assert(string_views(left@) =~= string_views(pre).push(av[i as int]));
            }
        }
        i += 1;
    }
    proof {
        assert(av.take(n as int) =~= av);
    }
    (taken, left)
}

/// Whether a card type already occurs in a list.
fn contains_type(v: &Vec<CardType>, t: CardType) -> (r: bool)
    ensures
        r == v@.contains(t),
{
    let n = v.len();
    let mut i: usize = 0;
    while i < n
        invariant
            i <= n,
            n == v@.len(),
            forall|k: int| 0 <= k < i ==> v@[k] != t,
        decreases n - i,
    {
        if v[i] == t {
            return true;
        }
        i += 1;
    }
    false
}

/// An element-by-element copy of a string list.
fn clone_strings(v: &Vec<String>) -> (r: Vec<String>)
    ensures
        r@ == v@,
{
    let mut out: Vec<String> = Vec::new();
    let n = v.len();
    let mut i: usize = 0;
    while i < n
        invariant
            i <= n,
            n == v@.len(),
            out@ == v@.take(i as int),
        decreases n - i,
    {
        out.push(v[i].clone());
        proof {
            assert(out@ =~= v@.take(i as int + 1));
        }
        i += 1;
    }
    proof {
        assert(v@.take(n as int) =~= v@);
    }
    out
}


/// Decodes a flat document into its typed card-type list, in exact
/// agreement with `unflatten_spec`: the declared types in document order,
/// each holding the subtype entries it claimed, or the first error.
pub fn unflatten(doc: &FlatCardTypeData) -> (r: Result<Vec<CardTypeData>, DecodeError>)
    ensures
        match r {
            Ok(v) => unflatten_spec(doc@) == Ok::<Seq<TypeDataView>, DecodeErrorView>(
                views_of(v@),
            ),
            Err(e) => unflatten_spec(doc@) == Err::<Seq<TypeDataView>, DecodeErrorView>(e@),
        },
{
    let ghost tv = string_views(doc.types@);
    let mut ts: Vec<CardType> = Vec::new();
    let tn = doc.types.len();
    let mut i: usize = 0;
    proof {
        assert(tv.skip(0) =~= tv);
    }
    while i < tn
        invariant
            i <= tn,
            tn == doc.types@.len(),
            tv == string_views(doc.types@),
            resolve_types(tv) == (match resolve_types(tv.skip(i as int)) {
                Ok(rest) => Ok::<Seq<CardType>, Seq<char>>(ts@ + rest),
                Err(e) => Err::<Seq<CardType>, Seq<char>>(e),
            }),
        decreases tn - i,
    {
        proof {
            assert(tv[i as int] == doc.types@[i as int]@);
            assert(tv.skip(i as int)[0] == tv[i as int]);
            assert(tv.skip(i as int).drop_first() =~= tv.skip(i as int + 1));
        }
        match parse_card_type_exec(doc.types[i].as_str()) {
            Some(t) => {
                proof {
                    match resolve_types(tv.skip(i as int + 1)) {
                        Ok(rest) => {
                            assert(ts@ + (seq![t] + rest) =~= (ts@ + seq![t]) + rest);
                            assert(ts@ + seq![t] =~= ts@.push(t));
                        },
                        Err(_) => {},
                    }
                }
                ts.push(t);
            },
            None => {
                return Err(DecodeError::UnknownType(doc.types[i].clone()));
            },
        }
        i += 1;
    }
    proof {
        assert(tv.skip(tn as int) =~= Seq::<Seq<char>>::empty());
        assert(ts@ + Seq::<CardType>::empty() =~= ts@);
        assert(resolve_types(tv) == Ok::<Seq<CardType>, Seq<char>>(ts@));
    }
    let ghost rts = ts@;
    let mut uts: Vec<CardType> = Vec::new();
    let un = ts.len();
    let mut j: usize = 0;
    proof {
        assert(rts.take(0) =~= Seq::<CardType>::empty());
        assert(dedup_types(Seq::<CardType>::empty()) =~= Seq::<CardType>::empty());
    }
    while j < un
        invariant
            j <= un,
            un == ts@.len(),
            ts@ == rts,
            uts@ == dedup_types(rts.take(j as int)),
        decreases un - j,
    {
        proof {
            assert(rts.take(j as int + 1).drop_last() =~= rts.take(j as int));
            assert(rts.take(j as int + 1).last() == rts[j as int]);
        }
        let t = ts[j];
        if !contains_type(&uts, t) {
            let ghost pre = uts@;
            uts.push(t);
            proof {
                assert(uts@ =~= pre.push(t));
                assert(uts@ == dedup_types(rts.take(j as int + 1)));
            }
        } else {
            proof {
                assert(uts@ == dedup_types(rts.take(j as int + 1)));
            }
        }
        j += 1;
    }
    proof {
        assert(rts.take(un as int) =~= rts);
    }
    let mut avail = clone_strings(&doc.subtypes);
    let mut entries: Vec<CardTypeData> = Vec::new();
    let ghost f = doc@;
    let kn = uts.len();
    let mut k: usize = 0;
    proof {
        assert(uts@.skip(0) =~= uts@);
        assert(views_of(entries@) =~= Seq::<TypeDataView>::empty());
        match process_types(uts@, f, f.subtypes) {
            Ok(pair) => {
                assert(views_of(entries@) + pair.0 =~= pair.0);
            },
            Err(_) => {},
        }
    }
    while k < kn
        invariant
            k <= kn,
            kn == uts@.len(),
            f == doc@,
            resolve_types(f.types) == Ok::<Seq<CardType>, Seq<char>>(rts),
            uts@ == dedup_types(rts),
            process_types(uts@, f, f.subtypes) == (match process_types(
                uts@.skip(k as int),
                f,
                string_views(avail@),
            ) {
                Ok(pair) => Ok::<(Seq<TypeDataView>, Seq<Seq<char>>), DecodeErrorView>(
                    (views_of(entries@) + pair.0, pair.1),
                ),
                Err(e) => Err::<(Seq<TypeDataView>, Seq<Seq<char>>), DecodeErrorView>(e),
            }),
        decreases kn - k,
    {
        let tt = uts[k];
        let ghost avs = string_views(avail@);
        let ghost old_entries = entries@;
        let ghost prev = views_of(entries@);
        proof {
            assert(uts@.skip(k as int)[0] == uts@[k as int]);
            assert(uts@.skip(k as int).drop_first() =~= uts@.skip(k as int + 1));
        }
        match tt {
            CardType::Land => {
                let (taken, left) = partition_land(&avail);
                let ghost entry_v = TypeDataView::Land { land_types: land_types_of(claim(tt, avs)) };
                entries.push(CardTypeData::Land(LandData { land_types: taken }));
                avail = left;
                proof {
                    reveal(decode_entry);
                    assert(entries@ =~= old_entries.push(entries@.last()));
                    assert(views_of(entries@) =~= prev + seq![entry_v]);
                    assert(decode_entry(tt, f, claim(tt, avs)) == Ok::<
                        TypeDataView,
                        DecodeErrorView,
                    >(entry_v));
                    assert(string_views(avail@) == residue(tt, avs));
                    match process_types(uts@.skip(k as int + 1), f, string_views(avail@)) {
                        Ok(pair) => {
                            assert(prev + (seq![entry_v] + pair.0) =~= (prev + seq![entry_v])
                                + pair.0);
                        },
                        Err(_) => {},
                    }
                }
            },
            CardType::Creature => {
                let power = match &doc.power {
                    Some(p) => match MaybePlaceholderNumber::from_str(p.as_str()) {
                        Some(v) => v,
                        None => {
                            proof {
                                reveal(decode_entry);
                            }
                            return Err(DecodeError::InvalidField(p.clone()));
                        },
                    },
                    None => {
                        proof {
                            reveal(decode_entry);
                        }
                        return Err(DecodeError::MissingField("power".to_owned()));
                    },
                };
                let toughness = match &doc.toughness {
                    Some(p) => match MaybePlaceholderNumber::from_str(p.as_str()) {
                        Some(v) => v,
                        None => {
                            proof {
                                reveal(decode_entry);
                            }
                            return Err(DecodeError::InvalidField(p.clone()));
                        },
                    },
                    None => {
                        proof {
                            reveal(decode_entry);
                        }
                        return Err(DecodeError::MissingField("toughness".to_owned()));
                    },
                };
                let (taken, left) = partition_creature_like(CardType::Creature, &avail);
                let ghost entry_v = TypeDataView::Creature {
                    power,
                    toughness,
                    creature_types: claim(tt, avs),
                };
                entries.push(
                    CardTypeData::Creature(CreatureData { power, toughness, creature_types: taken }),
                );
                avail = left;
                proof {
                    reveal(decode_entry);
                    assert(entries@ =~= old_entries.push(entries@.last()));
                    assert(views_of(entries@) =~= prev + seq![entry_v]);
                    assert(decode_entry(tt, f, claim(tt, avs)) == Ok::<
                        TypeDataView,
                        DecodeErrorView,
                    >(entry_v));
                    assert(string_views(avail@) == residue(tt, avs));
                    match process_types(uts@.skip(k as int + 1), f, string_views(avail@)) {
                        Ok(pair) => {
                            assert(prev + (seq![entry_v] + pair.0) =~= (prev + seq![entry_v])
                                + pair.0);
                        },
                        Err(_) => {},
                    }
                }
            },
            CardType::Instant => {
                let (taken, left) = partition_spell(CardType::Instant, &avail);
                let ghost entry_v = TypeDataView::Instant {
                    spell_types: spell_types_of(claim(tt, avs)),
                };
                entries.push(CardTypeData::Instant(InstantData { spell_types: taken }));
                avail = left;
                proof {
                    reveal(decode_entry);
                    assert(entries@ =~= old_entries.push(entries@.last()));
                    assert(views_of(entries@) =~= prev + seq![entry_v]);
                    assert(decode_entry(tt, f, claim(tt, avs)) == Ok::<
                        TypeDataView,
                        DecodeErrorView,
                    >(entry_v));
                    assert(string_views(avail@) == residue(tt, avs));
                    match process_types(uts@.skip(k as int + 1), f, string_views(avail@)) {
                        Ok(pair) => {
                            assert(prev + (seq![entry_v] + pair.0) =~= (prev + seq![entry_v])
                                + pair.0);
                        },
                        Err(_) => {},
                    }
                }
            },
            CardType::Sorcery => {
                let (taken, left) = partition_spell(CardType::Sorcery, &avail);
                let ghost entry_v = TypeDataView::Sorcery {
                    spell_types: spell_types_of(claim(tt, avs)),
                };
                entries.push(CardTypeData::Sorcery(SorceryData { spell_types: taken }));
                avail = left;
                proof {
                    reveal(decode_entry);
                    assert(entries@ =~= old_entries.push(entries@.last()));
                    assert(views_of(entries@) =~= prev + seq![entry_v]);
                    assert(decode_entry(tt, f, claim(tt, avs)) == Ok::<
                        TypeDataView,
                        DecodeErrorView,
                    >(entry_v));
                    assert(string_views(avail@) == residue(tt, avs));
                    match process_types(uts@.skip(k as int + 1), f, string_views(avail@)) {
                        Ok(pair) => {
                            assert(prev + (seq![entry_v] + pair.0) =~= (prev + seq![entry_v])
                                + pair.0);
                        },
                        Err(_) => {},
                    }
                }
            },
            CardType::Artifact => {
                let (taken, left) = partition_artifact(&avail);
                let ghost entry_v = TypeDataView::Artifact {
                    artifact_types: artifact_types_of(claim(tt, avs)),
                };
                entries.push(CardTypeData::Artifact(ArtifactData { artifact_types: taken }));
                avail = left;
                proof {
                    reveal(decode_entry);
                    assert(entries@ =~= old_entries.push(entries@.last()));
                    assert(views_of(entries@) =~= prev + seq![entry_v]);
                    assert(decode_entry(tt, f, claim(tt, avs)) == Ok::<
                        TypeDataView,
                        DecodeErrorView,
                    >(entry_v));
                    assert(string_views(avail@) == residue(tt, avs));
                    match process_types(uts@.skip(k as int + 1), f, string_views(avail@)) {
                        Ok(pair) => {
                            assert(prev + (seq![entry_v] + pair.0) =~= (prev + seq![entry_v])
                                + pair.0);
                        },
                        Err(_) => {},
                    }
                }
            },
            CardType::Enchantment => {
                let (taken, left) = partition_enchantment(&avail);
                let ghost entry_v = TypeDataView::Enchantment {
                    enchantment_types: enchantment_types_of(claim(tt, avs)),
                };
                entries.push(
                    CardTypeData::Enchantment(EnchantmentData { enchantment_types: taken }),
                );
                avail = left;
                proof {
                    reveal(decode_entry);
                    assert(entries@ =~= old_entries.push(entries@.last()));
                    assert(views_of(entries@) =~= prev + seq![entry_v]);
                    assert(decode_entry(tt, f, claim(tt, avs)) == Ok::<
                        TypeDataView,
                        DecodeErrorView,
                    >(entry_v));
                    assert(string_views(avail@) == residue(tt, avs));
                    match process_types(uts@.skip(k as int + 1), f, string_views(avail@)) {
                        Ok(pair) => {
                            assert(prev + (seq![entry_v] + pair.0) =~= (prev + seq![entry_v])
                                + pair.0);
                        },
                        Err(_) => {},
                    }
                }
            },
            CardType::Tribal => {
                let (taken, left) = partition_creature_like(CardType::Tribal, &avail);
                let ghost entry_v = TypeDataView::Tribal { tribal_types: claim(tt, avs) };
                entries.push(CardTypeData::Tribal(TribalData { tribal_types: taken }));
                avail = left;
                proof {
                    reveal(decode_entry);
                    assert(entries@ =~= old_entries.push(entries@.last()));
                    assert(views_of(entries@) =~= prev + seq![entry_v]);
                    assert(decode_entry(tt, f, claim(tt, avs)) == Ok::<
                        TypeDataView,
                        DecodeErrorView,
                    >(entry_v));
                    assert(string_views(avail@) == residue(tt, avs));
                    match process_types(uts@.skip(k as int + 1), f, string_views(avail@)) {
                        Ok(pair) => {
                            assert(prev + (seq![entry_v] + pair.0) =~= (prev + seq![entry_v])
                                + pair.0);
                        },
                        Err(_) => {},
                    }
                }
            },
            CardType::Planeswalker => {
                let loyalty = match &doc.loyalty {
                    Some(p) => match MaybePlaceholderNumber::from_str(p.as_str()) {
                        Some(v) => v,
                        None => {
                            proof {
                                reveal(decode_entry);
                            }
                            return Err(DecodeError::InvalidField(p.clone()));
                        },
                    },
                    None => {
                        proof {
                            reveal(decode_entry);
                        }
                        return Err(DecodeError::MissingField("loyalty".to_owned()));
                    },
                };
                let (taken, left) = partition_planeswalker(&avail);
                let ghost entry_v = TypeDataView::Planeswalker {
                    planeswalker_types: claim(tt, avs),
                    loyalty,
                };
                entries.push(
                    CardTypeData::Planeswalker(
                        PlaneswalkerData { planeswalker_types: taken, loyalty },
                    ),
                );
                avail = left;
                proof {
                    reveal(decode_entry);
                    assert(entries@ =~= old_entries.push(entries@.last()));
                    assert(views_of(entries@) =~= prev + seq![entry_v]);
                    assert(decode_entry(tt, f, claim(tt, avs)) == Ok::<
                        TypeDataView,
                        DecodeErrorView,
                    >(entry_v));
                    assert(string_views(avail@) == residue(tt, avs));
                    match process_types(uts@.skip(k as int + 1), f, string_views(avail@)) {
                        Ok(pair) => {
                            assert(prev + (seq![entry_v] + pair.0) =~= (prev + seq![entry_v])
                                + pair.0);
                        },
                        Err(_) => {},
                    }
                }
            },
            CardType::Battle => {
                let (taken, left) = partition_battle(&avail);
                let ghost entry_v = TypeDataView::Battle {
                    battle_types: battle_types_of(claim(tt, avs)),
                };
                entries.push(CardTypeData::Battle(BattleData { battle_types: taken }));
                avail = left;
                proof {
                    reveal(decode_entry);
                    assert(entries@ =~= old_entries.push(entries@.last()));
                    assert(views_of(entries@) =~= prev + seq![entry_v]);
                    assert(decode_entry(tt, f, claim(tt, avs)) == Ok::<
                        TypeDataView,
                        DecodeErrorView,
                    >(entry_v));
                    assert(string_views(avail@) == residue(tt, avs));
                    match process_types(uts@.skip(k as int + 1), f, string_views(avail@)) {
                        Ok(pair) => {
                            assert(prev + (seq![entry_v] + pair.0) =~= (prev + seq![entry_v])
                                + pair.0);
                        },
                        Err(_) => {},
                    }
                }
            },
        }
        k += 1;
    }
    proof {
        assert(uts@.skip(kn as int) =~= Seq::<CardType>::empty());
        assert(views_of(entries@) + Seq::<TypeDataView>::empty() =~= views_of(entries@));
    }
    if avail.len() == 0 {
        Ok(entries)
    } else {
        Err(DecodeError::UnusedSubtypes(avail))
    }
}

} // verus!
