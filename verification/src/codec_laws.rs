//! Laws of the card-type codec: how a type's vocabulary claims subtype
//! candidates, that a fact rebuilt from its own rendered names is itself,
//! that a decoded list never holds two facts of one card type, and the
//! flatten/unflatten round trip for lists whose vocabularies do not
//! overlap.

use vstd::prelude::*;

use crate::card_types::{
    card_type_name, lemma_card_type_round_trip, lemma_mpn_round_trip, parse_card_type,
    type_of_entry, CardType,
    MaybePlaceholderNumber, TypeDataView,
};
use crate::decode::{
    artifact_types_of, battle_types_of, claim, decode_entry, dedup_types, enchantment_types_of,
    land_types_of, lemma_claim_empty, lemma_claim_push, lemma_dedup_no_repeat,
    lemma_dedup_of_distinct, process_types, residue, resolve_types, spell_types_of,
    unflatten_spec,
};
use crate::flat::{
    entry_subtype_names, find_loyalty, find_power, flat_subtype_names, flatten_spec, in_vocab,
    DecodeErrorView, FlatDocView,
};
use crate::subtypes::{
    is_creature_type_name, is_planeswalker_type_name, lemma_artifact_subtype_round_trip,
    lemma_battle_type_round_trip, lemma_enchantment_type_round_trip, lemma_land_type_round_trip,
    lemma_spell_type_round_trip,
};

verus! {

/// A card-type fact whose open-vocabulary subtype names are on their
/// allow-list; closed vocabularies are valid by construction.
#[verifier::opaque]
pub open spec fn entry_wf(d: TypeDataView) -> bool {
    match d {
        TypeDataView::Creature { creature_types, .. } => forall|i: int|
            0 <= i < creature_types.len() ==> is_creature_type_name(#[trigger] creature_types[i]),
        TypeDataView::Tribal { tribal_types } => forall|i: int|
            0 <= i < tribal_types.len() ==> is_creature_type_name(#[trigger] tribal_types[i]),
        TypeDataView::Planeswalker { planeswalker_types, .. } => forall|i: int|
            0 <= i < planeswalker_types.len() ==> is_planeswalker_type_name(
                #[trigger] planeswalker_types[i],
            ),
        _ => true,
    }
}

/// The power and toughness a fact carries, when it is a creature.
pub open spec fn creature_scalars(d: TypeDataView) -> Option<
    (MaybePlaceholderNumber, MaybePlaceholderNumber),
> {
    match d {
        TypeDataView::Creature { power, toughness, .. } => Some((power, toughness)),
        _ => None,
    }
}

/// The loyalty a fact carries, when it is a planeswalker.
pub open spec fn loyalty_scalar(d: TypeDataView) -> Option<MaybePlaceholderNumber> {
    match d {
        TypeDataView::Planeswalker { loyalty, .. } => Some(loyalty),
        _ => None,
    }
}

/// A well-formed fact's own vocabulary accepts every one of its subtype
/// names.
#[verifier::spinoff_prover]
pub proof fn lemma_entry_names_in_vocab(d: TypeDataView)
    requires
        entry_wf(d),
    ensures
        forall|i: int|
            0 <= i < entry_subtype_names(d).len() ==> in_vocab(
                type_of_entry(d),
                #[trigger] entry_subtype_names(d)[i],
            ),
{
    let names = entry_subtype_names(d);
    let t = type_of_entry(d);
    reveal(in_vocab);
    reveal(entry_wf);
    match d {
        TypeDataView::Land { land_types } => {
            assert forall|i: int| 0 <= i < names.len() implies in_vocab(
                t,
                #[trigger] names[i],
            ) by {
                reveal(in_vocab);
                assert(names[i] == crate::subtypes::land_type_name(land_types[i]));
                lemma_land_type_round_trip(land_types[i]);
            }
        },
        TypeDataView::Creature { creature_types, .. } => {
            assert forall|i: int| 0 <= i < names.len() implies in_vocab(
                t,
                #[trigger] names[i],
            ) by {
                reveal(in_vocab);
                reveal(entry_wf);
                assert(is_creature_type_name(creature_types[i]));
            }
        },
        TypeDataView::Instant { spell_types } => {
            assert forall|i: int| 0 <= i < names.len() implies in_vocab(
                t,
                #[trigger] names[i],
            ) by {
                reveal(in_vocab);
                assert(names[i] == crate::subtypes::spell_type_name(spell_types[i]));
                lemma_spell_type_round_trip(spell_types[i]);
            }
        },
        TypeDataView::Sorcery { spell_types } => {
            assert forall|i: int| 0 <= i < names.len() implies in_vocab(
                t,
                #[trigger] names[i],
            ) by {
                reveal(in_vocab);
                assert(names[i] == crate::subtypes::spell_type_name(spell_types[i]));
                lemma_spell_type_round_trip(spell_types[i]);
            }
        },
        TypeDataView::Artifact { artifact_types } => {
            assert forall|i: int| 0 <= i < names.len() implies in_vocab(
                t,
                #[trigger] names[i],
            ) by {
                reveal(in_vocab);
                assert(names[i] == crate::subtypes::artifact_subtype_name(artifact_types[i]));
                lemma_artifact_subtype_round_trip(artifact_types[i]);
            }
        },
        TypeDataView::Enchantment { enchantment_types } => {
            assert forall|i: int| 0 <= i < names.len() implies in_vocab(
                t,
                #[trigger] names[i],
            ) by {
                reveal(in_vocab);
                assert(names[i] == crate::subtypes::enchantment_type_name(enchantment_types[i]));
                lemma_enchantment_type_round_trip(enchantment_types[i]);
            }
        },
        TypeDataView::Tribal { tribal_types } => {
            assert forall|i: int| 0 <= i < names.len() implies in_vocab(
                t,
                #[trigger] names[i],
            ) by {
                reveal(in_vocab);
                reveal(entry_wf);
                assert(is_creature_type_name(tribal_types[i]));
            }
        },
        TypeDataView::Planeswalker { planeswalker_types, .. } => {
            assert forall|i: int| 0 <= i < names.len() implies in_vocab(
                t,
                #[trigger] names[i],
            ) by {
                reveal(in_vocab);
                reveal(entry_wf);
                assert(is_planeswalker_type_name(planeswalker_types[i]));
            }
        },
        TypeDataView::Battle { battle_types } => {
            assert forall|i: int| 0 <= i < names.len() implies in_vocab(
                t,
                #[trigger] names[i],
            ) by {
                reveal(in_vocab);
                assert(names[i] == crate::subtypes::battle_type_name(battle_types[i]));
                lemma_battle_type_round_trip(battle_types[i]);
            }
        },
    }
}

/// When a vocabulary accepts every candidate, it claims the whole list
/// and leaves nothing.
#[verifier::spinoff_prover]
pub proof fn lemma_claim_all_in(t: CardType, s: Seq<Seq<char>>)
    requires
        forall|i: int| 0 <= i < s.len() ==> in_vocab(t, #[trigger] s[i]),
    ensures
        claim(t, s) == s,
        residue(t, s) == Seq::<Seq<char>>::empty(),
    decreases s.len(),
{
    if s.len() == 0 {
        assert(s =~= Seq::<Seq<char>>::empty());
        lemma_claim_empty(t);
        assert(claim(t, s) =~= s);
    } else {
        assert(s.drop_last().push(s.last()) =~= s);
        assert forall|i: int| 0 <= i < s.drop_last().len() implies in_vocab(
            t,
            #[trigger] s.drop_last()[i],
        ) by {
            assert(s.drop_last()[i] == s[i]);
        }
        lemma_claim_all_in(t, s.drop_last());
        lemma_claim_push(t, s.drop_last(), s.last());
        assert(in_vocab(t, s.last()));
        assert(claim(t, s) == s.drop_last().push(s.last()));
    }
}

/// When a vocabulary accepts no candidate, it claims nothing and leaves
/// the whole list.
#[verifier::spinoff_prover]
pub proof fn lemma_claim_all_out(t: CardType, s: Seq<Seq<char>>)
    requires
        forall|i: int| 0 <= i < s.len() ==> !in_vocab(t, #[trigger] s[i]),
    ensures
        claim(t, s) == Seq::<Seq<char>>::empty(),
        residue(t, s) == s,
    decreases s.len(),
{
    if s.len() == 0 {
        assert(s =~= Seq::<Seq<char>>::empty());
        lemma_claim_empty(t);
        assert(residue(t, s) =~= s);
    } else {
        assert(s.drop_last().push(s.last()) =~= s);
        assert forall|i: int| 0 <= i < s.drop_last().len() implies !in_vocab(
            t,
            #[trigger] s.drop_last()[i],
        ) by {
            assert(s.drop_last()[i] == s[i]);
        }
        lemma_claim_all_out(t, s.drop_last());
        lemma_claim_push(t, s.drop_last(), s.last());
        assert(!in_vocab(t, s.last()));
        assert(residue(t, s) == s.drop_last().push(s.last()));
    }
}

/// Claim and residue distribute over concatenation of candidate lists.
#[verifier::spinoff_prover]
pub proof fn lemma_claim_add(t: CardType, a: Seq<Seq<char>>, b: Seq<Seq<char>>)
    ensures
        claim(t, a + b) == claim(t, a) + claim(t, b),
        residue(t, a + b) == residue(t, a) + residue(t, b),
    decreases b.len(),
{
    if b.len() == 0 {
        assert(a + b =~= a);
        assert(b =~= Seq::<Seq<char>>::empty());
        lemma_claim_empty(t);
        assert(claim(t, a) + claim(t, b) =~= claim(t, a));
        assert(residue(t, a) + residue(t, b) =~= residue(t, a));
    } else {
        assert((a + b.drop_last()).push(b.last()) =~= a + b);
        assert(b.drop_last().push(b.last()) =~= b);
        lemma_claim_add(t, a, b.drop_last());
        lemma_claim_push(t, a + b.drop_last(), b.last());
        lemma_claim_push(t, b.drop_last(), b.last());
        if in_vocab(t, b.last()) {
            assert((claim(t, a) + claim(t, b.drop_last())).push(b.last()) =~= claim(t, a) + claim(
                t,
                b.drop_last(),
            ).push(b.last()));
        } else {
            assert((residue(t, a) + residue(t, b.drop_last())).push(b.last()) =~= residue(t, a)
                + residue(t, b.drop_last()).push(b.last()));
        }
    }
}

/// The document scalar fields a single fact needs: a creature's power
/// and toughness and a planeswalker's loyalty, rendered to text.
#[verifier::opaque]
pub open spec fn head_scalars_ok(d: TypeDataView, f: FlatDocView) -> bool {
    &&& (creature_scalars(d) matches Some(pt) ==> f.power == Some(
        crate::card_types::mpn_chars(pt.0),
    ) && f.toughness == Some(crate::card_types::mpn_chars(pt.1)))
    &&& (loyalty_scalar(d) matches Some(x) ==> f.loyalty == Some(
        crate::card_types::mpn_chars(x),
    ))
}

/// Rebuilding a well-formed fact from its own rendered names and the
/// document scalars that flattening produced yields the fact itself.
#[verifier::spinoff_prover]
pub proof fn lemma_decode_entry_of_names(d: TypeDataView, f: FlatDocView)
    requires
        entry_wf(d),
        head_scalars_ok(d, f),
    ensures
        decode_entry(type_of_entry(d), f, entry_subtype_names(d)) == Ok::<
            TypeDataView,
            DecodeErrorView,
        >(d),
{
    reveal(head_scalars_ok);
    reveal(crate::decode::decode_entry);
    let names = entry_subtype_names(d);
    match d {
        TypeDataView::Land { land_types } => {
            assert(land_types_of(names) =~= land_types) by {
                assert forall|i: int| 0 <= i < land_types.len() implies land_types_of(names)[i]
                    == land_types[i] by {
                    assert(names[i] == crate::subtypes::land_type_name(land_types[i]));
                    lemma_land_type_round_trip(land_types[i]);
                }
            }
        },
        TypeDataView::Creature { power, toughness, creature_types } => {
            lemma_mpn_round_trip(power);
            lemma_mpn_round_trip(toughness);
        },
        TypeDataView::Instant { spell_types } => {
            assert(spell_types_of(names) =~= spell_types) by {
                assert forall|i: int| 0 <= i < spell_types.len() implies spell_types_of(names)[i]
                    == spell_types[i] by {
                    assert(names[i] == crate::subtypes::spell_type_name(spell_types[i]));
                    lemma_spell_type_round_trip(spell_types[i]);
                }
            }
        },
        TypeDataView::Sorcery { spell_types } => {
            assert(spell_types_of(names) =~= spell_types) by {
                assert forall|i: int| 0 <= i < spell_types.len() implies spell_types_of(names)[i]
                    == spell_types[i] by {
                    assert(names[i] == crate::subtypes::spell_type_name(spell_types[i]));
                    lemma_spell_type_round_trip(spell_types[i]);
                }
            }
        },
        TypeDataView::Artifact { artifact_types } => {
            assert(artifact_types_of(names) =~= artifact_types) by {
                assert forall|i: int| 0 <= i < artifact_types.len() implies artifact_types_of(
                    names,
                )[i] == artifact_types[i] by {
                    assert(names[i] == crate::subtypes::artifact_subtype_name(artifact_types[i]));
                    lemma_artifact_subtype_round_trip(artifact_types[i]);
                }
            }
        },
        TypeDataView::Enchantment { enchantment_types } => {
            assert(enchantment_types_of(names) =~= enchantment_types) by {
                assert forall|i: int| 0 <= i < enchantment_types.len() implies enchantment_types_of(
                    names,
                )[i] == enchantment_types[i] by {
                    assert(names[i] == crate::subtypes::enchantment_type_name(
                        enchantment_types[i],
                    ));
                    lemma_enchantment_type_round_trip(enchantment_types[i]);
                }
            }
        },
        TypeDataView::Tribal { .. } => {
        },
        TypeDataView::Planeswalker { planeswalker_types, loyalty } => {
            lemma_mpn_round_trip(loyalty);
        },
        TypeDataView::Battle { battle_types } => {
            assert(battle_types_of(names) =~= battle_types) by {
                assert forall|i: int| 0 <= i < battle_types.len() implies battle_types_of(
                    names,
                )[i] == battle_types[i] by {
                    assert(names[i] == crate::subtypes::battle_type_name(battle_types[i]));
                    lemma_battle_type_round_trip(battle_types[i]);
                }
            }
        },
    }
}

/// The card types of a list of facts, in list order.
spec fn types_of_entries(l: Seq<TypeDataView>) -> Seq<CardType> {
    l.map_values(|d: TypeDataView| type_of_entry(d))
}

/// A fact a declared type builds belongs to that type.
proof fn lemma_decode_entry_type(t: CardType, f: FlatDocView, taken: Seq<Seq<char>>)
    ensures
        decode_entry(t, f, taken) matches Ok(d) ==> type_of_entry(d) == t,
{
    reveal(crate::decode::decode_entry);
    match t {
        CardType::Land => {},
        CardType::Creature => {},
        CardType::Instant => {},
        CardType::Sorcery => {},
        CardType::Artifact => {},
        CardType::Enchantment => {},
        CardType::Tribal => {},
        CardType::Planeswalker => {},
        CardType::Battle => {},
    }
}

/// Each fact a successful processing pass builds belongs to the declared
/// type at the same position.
proof fn lemma_process_entry_types(ts: Seq<CardType>, f: FlatDocView, avail: Seq<Seq<char>>)
    ensures
        process_types(ts, f, avail) matches Ok(pair) ==> pair.0.len() == ts.len() && forall|i: int|
            0 <= i < ts.len() ==> type_of_entry(#[trigger] pair.0[i]) == ts[i],
    decreases ts.len(),
{
    if ts.len() > 0 {
        lemma_decode_entry_type(ts[0], f, claim(ts[0], avail));
        lemma_process_entry_types(ts.drop_first(), f, residue(ts[0], avail));
        match decode_entry(ts[0], f, claim(ts[0], avail)) {
            Err(_) => {},
            Ok(entry) => {
                match process_types(ts.drop_first(), f, residue(ts[0], avail)) {
                    Err(_) => {},
                    Ok(pair) => {
                        let built = seq![entry] + pair.0;
                        assert forall|i: int| 0 <= i < ts.len() implies type_of_entry(
                            #[trigger] built[i],
                        ) == ts[i] by {
                            if i == 0 {
                                assert(built[0] == entry);
                            } else {
                                assert(built[i] == pair.0[i - 1]);
                                assert(ts.drop_first()[i - 1] == ts[i]);
                            }
                        }
                    },
                }
            },
        }
    }
}

/// A decoded list carries at most one fact per card type: no two entries
/// of a successful decode belong to the same card type.
pub proof fn lemma_decoded_types_unique(f: FlatDocView, entries: Seq<TypeDataView>)
    requires
        unflatten_spec(f) == Ok::<Seq<TypeDataView>, DecodeErrorView>(entries),
    ensures
        forall|i: int, j: int|
            0 <= i < j < entries.len() ==> type_of_entry(#[trigger] entries[i]) != type_of_entry(
                #[trigger] entries[j],
            ),
{
    match resolve_types(f.types) {
        Err(_) => {},
        Ok(ts) => {
            let dts = dedup_types(ts);
            lemma_dedup_no_repeat(ts);
            lemma_process_entry_types(dts, f, f.subtypes);
            match process_types(dts, f, f.subtypes) {
                Err(_) => {},
                Ok(pair) => {
                    assert forall|i: int, j: int|
                        0 <= i < j < entries.len() implies type_of_entry(#[trigger] entries[i])
                        != type_of_entry(#[trigger] entries[j]) by {
                        assert(type_of_entry(entries[i]) == dts[i]);
                        assert(type_of_entry(entries[j]) == dts[j]);
                    }
                },
            }
        },
    }
}

/// Two card types whose subtype vocabularies share no name.
#[verifier::opaque]
pub open spec fn disjoint_vocabs(t1: CardType, t2: CardType) -> bool {
    forall|s: Seq<char>|
        #![trigger in_vocab(t1, s)]
        #![trigger in_vocab(t2, s)]
        !(in_vocab(t1, s) && in_vocab(t2, s))
}

/// The flattened type names resolve back to the facts' own types.
proof fn lemma_resolve_flat_types(l: Seq<TypeDataView>)
    ensures
        resolve_types(flatten_spec(l).types) == Ok::<Seq<CardType>, Seq<char>>(
            types_of_entries(l),
        ),
    decreases l.len(),
{
    let names = flatten_spec(l).types;
    if l.len() == 0 {
        assert(names =~= Seq::<Seq<char>>::empty());
        assert(types_of_entries(l) =~= Seq::<CardType>::empty());
    } else {
        let t0 = type_of_entry(l[0]);
        lemma_card_type_round_trip(t0);
        assert(names[0] == card_type_name(t0));
        assert(parse_card_type(names[0]) == Some(t0));
        lemma_resolve_flat_types(l.drop_first());
        assert(names.drop_first() =~= flatten_spec(l.drop_first()).types) by {
            assert forall|i: int| 0 <= i < l.len() - 1 implies names.drop_first()[i]
                == flatten_spec(l.drop_first()).types[i] by {
                assert(names.drop_first()[i] == names[i + 1]);
                assert(l.drop_first()[i] == l[i + 1]);
            }
        }
        assert(seq![t0] + types_of_entries(l.drop_first()) =~= types_of_entries(l)) by {
            assert forall|i: int| 0 <= i < l.len() implies (seq![t0] + types_of_entries(
                l.drop_first(),
            ))[i] == types_of_entries(l)[i] by {
                if i > 0 {
                    assert(l.drop_first()[i - 1] == l[i]);
                }
            }
        }
    }
}

/// The scalars a flat document carries come from the list's first
/// creature; when only one entry is a creature, they are its own.
proof fn lemma_find_power_at(l: Seq<TypeDataView>, i: int)
    requires
        0 <= i < l.len(),
        l[i] is Creature,
        forall|j: int| 0 <= j < i ==> !((#[trigger] l[j]) is Creature),
    ensures
        find_power(l) == creature_scalars(l[i]),
    decreases i,
{
    if i == 0 {
    } else {
        assert(!(l[0] is Creature));
        assert forall|j: int| 0 <= j < i - 1 implies !((#[trigger] l.drop_first()[j])
            is Creature) by {
            assert(l.drop_first()[j] == l[j + 1]);
        }
        assert(l.drop_first()[i - 1] == l[i]);
        lemma_find_power_at(l.drop_first(), i - 1);
    }
}

/// The loyalty a flat document carries comes from the list's first
/// planeswalker; when only one entry is one, it is its own.
proof fn lemma_find_loyalty_at(l: Seq<TypeDataView>, i: int)
    requires
        0 <= i < l.len(),
        l[i] is Planeswalker,
        forall|j: int| 0 <= j < i ==> !((#[trigger] l[j]) is Planeswalker),
    ensures
        find_loyalty(l) == loyalty_scalar(l[i]),
    decreases i,
{
    if i == 0 {
    } else {
        assert(!(l[0] is Planeswalker));
        assert forall|j: int| 0 <= j < i - 1 implies !((#[trigger] l.drop_first()[j])
            is Planeswalker) by {
            assert(l.drop_first()[j] == l[j + 1]);
        }
        assert(l.drop_first()[i - 1] == l[i]);
        lemma_find_loyalty_at(l.drop_first(), i - 1);
    }
}

/// Every concatenated subtype name of a list of well-formed facts is in
/// the vocabulary of one of the list's types.
proof fn lemma_flat_names_in_some_vocab(l: Seq<TypeDataView>, m: int)
    requires
        forall|i: int| 0 <= i < l.len() ==> entry_wf(#[trigger] l[i]),
        0 <= m < flat_subtype_names(l).len(),
    ensures
        exists|i: int|
            0 <= i < l.len() && in_vocab(
                type_of_entry(#[trigger] l[i]),
                flat_subtype_names(l)[m],
            ),
    decreases l.len(),
{
    let names0 = entry_subtype_names(l[0]);
    if m < names0.len() {
        lemma_entry_names_in_vocab(l[0]);
        assert(flat_subtype_names(l)[m] == names0[m]);
        assert(in_vocab(type_of_entry(l[0]), names0[m]));
    } else {
        let rest = l.drop_first();
        assert forall|i: int| 0 <= i < rest.len() implies entry_wf(#[trigger] rest[i]) by {
            assert(rest[i] == l[i + 1]);
        }
        lemma_flat_names_in_some_vocab(rest, m - names0.len());
        let i = choose|i: int|
            0 <= i < rest.len() && in_vocab(
                type_of_entry(#[trigger] rest[i]),
                flat_subtype_names(rest)[m - names0.len()],
            );
        assert(rest[i] == l[i + 1]);
        assert(flat_subtype_names(l)[m] == flat_subtype_names(rest)[m - names0.len()]);
        assert(in_vocab(type_of_entry(l[i + 1]), flat_subtype_names(l)[m]));
    }
}

/// A fact whose card type no other entry shares finds its own scalars in
/// the flattened document.
#[verifier::spinoff_prover]
proof fn lemma_flat_scalars_at(l: Seq<TypeDataView>, i: int)
    requires
        0 <= i < l.len(),
        forall|j: int|
            0 <= j < l.len() && j != i ==> type_of_entry(#[trigger] l[j]) != type_of_entry(l[i]),
    ensures
        head_scalars_ok(l[i], flatten_spec(l)),
{
    reveal(head_scalars_ok);
    let f = flatten_spec(l);
    match l[i] {
        TypeDataView::Creature { power, toughness, .. } => {
            assert forall|j: int| 0 <= j < i implies !((#[trigger] l[j]) is Creature) by {
                assert(type_of_entry(l[j]) != type_of_entry(l[i]));
            }
            lemma_find_power_at(l, i);
            assert(creature_scalars(l[i]) == Some((power, toughness)));
        },
        TypeDataView::Planeswalker { loyalty, .. } => {
            assert forall|j: int| 0 <= j < i implies !((#[trigger] l[j]) is Planeswalker) by {
                assert(type_of_entry(l[j]) != type_of_entry(l[i]));
            }
            lemma_find_loyalty_at(l, i);
            assert(loyalty_scalar(l[i]) == Some(loyalty));
        },
        _ => {},
    }
}

/// No subtype name of the later facts is in the head fact's vocabulary,
/// when the head's vocabulary is disjoint from every later one.
#[verifier::spinoff_prover]
proof fn lemma_later_names_not_in_head(l: Seq<TypeDataView>)
    requires
        l.len() > 0,
        forall|i: int| 0 <= i < l.len() ==> entry_wf(#[trigger] l[i]),
        forall|j: int|
            1 <= j < l.len() ==> disjoint_vocabs(
                type_of_entry(l[0]),
                type_of_entry(#[trigger] l[j]),
            ),
    ensures
        forall|m: int|
            0 <= m < flat_subtype_names(l.drop_first()).len() ==> !in_vocab(
                type_of_entry(l[0]),
                #[trigger] flat_subtype_names(l.drop_first())[m],
            ),
{
    let t0 = type_of_entry(l[0]);
    let rest = l.drop_first();
    let rest_names = flat_subtype_names(rest);
    assert forall|i: int| 0 <= i < rest.len() implies entry_wf(#[trigger] rest[i]) by {
        assert(rest[i] == l[i + 1]);
    }
    assert forall|m: int| 0 <= m < rest_names.len() implies !in_vocab(
        t0,
        #[trigger] rest_names[m],
    ) by {
        lemma_flat_names_in_some_vocab(rest, m);
        let i = choose|i: int|
            0 <= i < rest.len() && in_vocab(
                type_of_entry(#[trigger] rest[i]),
                flat_subtype_names(rest)[m],
            );
        assert(rest[i] == l[i + 1]);
        assert(disjoint_vocabs(type_of_entry(l[0]), type_of_entry(l[i + 1])));
        reveal(disjoint_vocabs);
        assert(in_vocab(type_of_entry(l[i + 1]), rest_names[m]));
    }
}


/// The head type of a vocabulary-disjoint list claims exactly its own
/// names from the concatenated subtype list and leaves the rest.
#[verifier::spinoff_prover]
proof fn lemma_head_claim(l: Seq<TypeDataView>)
    requires
        l.len() > 0,
        forall|i: int| 0 <= i < l.len() ==> entry_wf(#[trigger] l[i]),
        forall|j: int|
            1 <= j < l.len() ==> disjoint_vocabs(
                type_of_entry(l[0]),
                type_of_entry(#[trigger] l[j]),
            ),
    ensures
        claim(type_of_entry(l[0]), flat_subtype_names(l)) == entry_subtype_names(l[0]),
        residue(type_of_entry(l[0]), flat_subtype_names(l)) == flat_subtype_names(
            l.drop_first(),
        ),
{
    let d0 = l[0];
    let t0 = type_of_entry(d0);
    let names0 = entry_subtype_names(d0);
    let rest_names = flat_subtype_names(l.drop_first());
    assert(flat_subtype_names(l) == names0 + rest_names);
    lemma_entry_names_in_vocab(d0);
    lemma_claim_all_in(t0, names0);
    lemma_later_names_not_in_head(l);
    lemma_claim_all_out(t0, rest_names);
    lemma_claim_add(t0, names0, rest_names);
    assert(claim(t0, names0 + rest_names) =~= names0);
    assert(residue(t0, names0 + rest_names) =~= rest_names);
}

/// One processing step: with the head's claim, fact, and the processed
/// tail in hand, the whole list processes to itself with nothing left.
#[verifier::spinoff_prover]
proof fn lemma_process_step(l: Seq<TypeDataView>, f: FlatDocView)
    requires
        l.len() > 0,
        claim(type_of_entry(l[0]), flat_subtype_names(l)) == entry_subtype_names(l[0]),
        residue(type_of_entry(l[0]), flat_subtype_names(l)) == flat_subtype_names(
            l.drop_first(),
        ),
        decode_entry(type_of_entry(l[0]), f, entry_subtype_names(l[0])) == Ok::<
            TypeDataView,
            DecodeErrorView,
        >(l[0]),
        process_types(
            types_of_entries(l.drop_first()),
            f,
            flat_subtype_names(l.drop_first()),
        ) == Ok::<(Seq<TypeDataView>, Seq<Seq<char>>), DecodeErrorView>(
            (l.drop_first(), Seq::<Seq<char>>::empty()),
        ),
    ensures
        process_types(types_of_entries(l), f, flat_subtype_names(l)) == Ok::<
            (Seq<TypeDataView>, Seq<Seq<char>>),
            DecodeErrorView,
        >((l, Seq::<Seq<char>>::empty())),
{
    let ts = types_of_entries(l);
    let rest = l.drop_first();
    assert(ts[0] == type_of_entry(l[0]));
    assert(ts.drop_first() =~= types_of_entries(rest)) by {
        assert forall|i: int| 0 <= i < rest.len() implies ts.drop_first()[i]
            == types_of_entries(rest)[i] by {
            assert(ts.drop_first()[i] == ts[i + 1]);
            assert(rest[i] == l[i + 1]);
        }
    }
    assert(seq![l[0]] + rest =~= l);
}


/// Processing a vocabulary-disjoint list of well-formed facts against its
/// own concatenated subtype names rebuilds the list and leaves nothing.
#[verifier::spinoff_prover]
proof fn lemma_process_disjoint(l: Seq<TypeDataView>, f: FlatDocView)
    requires
        forall|i: int| 0 <= i < l.len() ==> entry_wf(#[trigger] l[i]),
        forall|i: int| 0 <= i < l.len() ==> head_scalars_ok(#[trigger] l[i], f),
        forall|i: int, j: int|
            0 <= i < j < l.len() ==> disjoint_vocabs(
                type_of_entry(#[trigger] l[i]),
                type_of_entry(#[trigger] l[j]),
            ),
    ensures
        process_types(types_of_entries(l), f, flat_subtype_names(l)) == Ok::<
            (Seq<TypeDataView>, Seq<Seq<char>>),
            DecodeErrorView,
        >((l, Seq::<Seq<char>>::empty())),
    decreases l.len(),
{
    if l.len() == 0 {
        assert(l =~= Seq::<TypeDataView>::empty());
        assert(types_of_entries(l) =~= Seq::<CardType>::empty());
        assert(flat_subtype_names(l) =~= Seq::<Seq<char>>::empty());
    } else {
        let rest = l.drop_first();
        lemma_head_claim(l);
        lemma_decode_entry_of_names(l[0], f);
        assert forall|i: int| 0 <= i < rest.len() implies entry_wf(#[trigger] rest[i]) by {
            assert(rest[i] == l[i + 1]);
        }
        assert forall|i: int| 0 <= i < rest.len() implies head_scalars_ok(
            #[trigger] rest[i],
            f,
        ) by {
            assert(rest[i] == l[i + 1]);
        }
        assert forall|i: int, j: int| 0 <= i < j < rest.len() implies disjoint_vocabs(
            type_of_entry(#[trigger] rest[i]),
            type_of_entry(#[trigger] rest[j]),
        ) by {
            assert(rest[i] == l[i + 1]);
            assert(rest[j] == l[j + 1]);
        }
        lemma_process_disjoint(rest, f);
        lemma_process_step(l, f);
    }
}

/// Round trip of the codec: a list of well-formed facts with pairwise
/// distinct card types whose subtype vocabularies share no name flattens
/// to a document that decodes back to exactly that list, subtype order
/// included. When two declared types share a vocabulary (a creature and a
/// tribal fact, or an instant and a sorcery), the decode instead hands
/// every shared name to the first declared type, so the law leaves such
/// lists out.
#[verifier::spinoff_prover]
pub proof fn lemma_codec_round_trip(l: Seq<TypeDataView>)
    requires
        forall|i: int| 0 <= i < l.len() ==> entry_wf(#[trigger] l[i]),
        forall|i: int, j: int|
            0 <= i < j < l.len() ==> type_of_entry(#[trigger] l[i]) != type_of_entry(
                #[trigger] l[j],
            ),
        forall|i: int, j: int|
            0 <= i < j < l.len() ==> disjoint_vocabs(
                type_of_entry(#[trigger] l[i]),
                type_of_entry(#[trigger] l[j]),
            ),
    ensures
        unflatten_spec(flatten_spec(l)) == Ok::<Seq<TypeDataView>, DecodeErrorView>(l),
{
    let f = flatten_spec(l);
    let ts = types_of_entries(l);
    lemma_resolve_flat_types(l);
    assert forall|i: int, j: int| 0 <= i < j < ts.len() implies ts[i] != ts[j] by {
        assert(ts[i] == type_of_entry(l[i]));
        assert(ts[j] == type_of_entry(l[j]));
    }
    lemma_dedup_of_distinct(ts);
    assert forall|i: int| 0 <= i < l.len() implies head_scalars_ok(#[trigger] l[i], f) by {
        assert forall|j: int| 0 <= j < l.len() && j != i implies type_of_entry(#[trigger] l[j])
            != type_of_entry(l[i]) by {
            if j < i {
                assert(type_of_entry(l[j]) != type_of_entry(l[i]));
            }
        }
        lemma_flat_scalars_at(l, i);
    }
    lemma_process_disjoint(l, f);
    assert(f.subtypes == flat_subtype_names(l));
}

/// Round trip of the codec for a card with a single card type: a
/// well-formed fact flattens to a document that decodes back to exactly
/// that fact.
pub proof fn lemma_single_fact_round_trip(d: TypeDataView)
    requires
        entry_wf(d),
    ensures
        unflatten_spec(flatten_spec(seq![d])) == Ok::<Seq<TypeDataView>, DecodeErrorView>(
            seq![d],
        ),
{
    let l = seq![d];
    assert(l[0] == d);
    lemma_codec_round_trip(l);
}

} // verus!
