//! The card record: name, optional mana cost, supertypes, and the typed
//! card-type list, with decoding from and encoding to the flat document.

use vstd::prelude::*;

use crate::card_types::{
    card_supertype_name, card_supertype_str, parse_card_supertype, parse_card_supertype_exec,
    CardSupertype, CardTypeData,
};
use crate::decode::{unflatten, unflatten_spec};
use crate::flat::{flatten, flatten_spec, string_views, views_of, DecodeError, DecodeErrorView,
    FlatCardTypeData};
use crate::mana::{cost_chars, ManaCost};
use crate::mana_parse::spec_parse_cost;
use crate::mana::ParseError;

verus! {

/// A complete card: its name, its mana cost if it has one, its
/// supertypes, and one fact per card type it has.
#[derive(Clone, Debug, PartialEq)]
pub struct CardData {
    pub name: String,
    pub mana_cost: Option<ManaCost>,
    pub supertypes: Vec<CardSupertype>,
    pub type_data: Vec<CardTypeData>,
}

/// The wire shape of a card: the plain fields beside the flat type data.
#[derive(Clone, Debug, PartialEq)]
pub struct CardDocument {
    pub name: String,
    pub mana_cost: Option<String>,
    pub supertypes: Vec<String>,
    pub type_data: FlatCardTypeData,
}

/// Why a card document failed to decode.
#[derive(Clone, Debug, PartialEq)]
pub enum CardError {
    /// The mana-cost text failed to parse.
    Mana(ParseError),
    /// A supertype entry names no known supertype; carries the token.
    UnknownSupertype(String),
    /// The flat type data failed to decode.
    Decode(DecodeError),
}

/// The supertypes a name list denotes, or the first unknown name.
pub open spec fn resolve_supertypes(names: Seq<Seq<char>>) -> Result<Seq<CardSupertype>, Seq<char>>
    decreases names.len(),
{
    if names.len() == 0 {
        Ok(Seq::empty())
    } else {
        match parse_card_supertype(names[0]) {
            Some(t) => match resolve_supertypes(names.drop_first()) {
                Ok(rest) => Ok(seq![t] + rest),
                Err(e) => Err(e),
            },
            None => Err(names[0]),
        }
    }
}

/// Decodes a card document: the mana cost is parsed when present, the
/// supertypes are resolved, and the flat type data is unflattened. The
/// decode is all-or-nothing; the first failure is returned.
pub fn decode_card(doc: &CardDocument) -> (r: Result<CardData, CardError>)
    ensures
        match r {
            Ok(card) => {
                &&& card.name@ == doc.name@
                &&& match (card.mana_cost, doc.mana_cost) {
                    (Some(c), Some(text)) => spec_parse_cost(text@) == Some(c@),
                    (None, None) => true,
                    _ => false,
                }
                &&& resolve_supertypes(string_views(doc.supertypes@)) == Ok::<
                    Seq<CardSupertype>,
                    Seq<char>,
                >(card.supertypes@)
                &&& unflatten_spec(doc.type_data@) == Ok::<_, DecodeErrorView>(
                    views_of(card.type_data@),
                )
            },
            Err(e) => match e {
                CardError::Mana(_) => doc.mana_cost matches Some(text) && spec_parse_cost(text@)
                    is None,
                CardError::UnknownSupertype(s) => resolve_supertypes(string_views(doc.supertypes@))
                    == Err::<Seq<CardSupertype>, Seq<char>>(s@),
                CardError::Decode(de) => unflatten_spec(doc.type_data@) == Err::<
                    Seq<crate::card_types::TypeDataView>,
                    DecodeErrorView,
                >(de@),
            },
        },
{
    let mana_cost = match &doc.mana_cost {
        Some(text) => match ManaCost::from_str(text.as_str()) {
            Ok(c) => Some(c),
            Err(e) => {
                return Err(CardError::Mana(e));
            },
        },
        None => None,
    };
    let ghost sv = string_views(doc.supertypes@);
    let mut supertypes: Vec<CardSupertype> = Vec::new();
    let n = doc.supertypes.len();
    let mut i: usize = 0;
    proof {
        assert(sv.skip(0) =~= sv);
    }
    while i < n
        invariant
            i <= n,
            n == doc.supertypes@.len(),
            sv == string_views(doc.supertypes@),
            resolve_supertypes(sv) == (match resolve_supertypes(sv.skip(i as int)) {
                Ok(rest) => Ok::<Seq<CardSupertype>, Seq<char>>(supertypes@ + rest),
                Err(e) => Err::<Seq<CardSupertype>, Seq<char>>(e),
            }),
        decreases n - i,
    {
        proof {
            assert(sv[i as int] == doc.supertypes@[i as int]@);
            assert(sv.skip(i as int)[0] == sv[i as int]);
            assert(sv.skip(i as int).drop_first() =~= sv.skip(i as int + 1));
        }
        match parse_card_supertype_exec(doc.supertypes[i].as_str()) {
            Some(t) => {
                proof {
                    match resolve_supertypes(sv.skip(i as int + 1)) {
                        Ok(rest) => {
                            assert(supertypes@ + (seq![t] + rest) =~= (supertypes@ + seq![t])
                                + rest);
                            assert(supertypes@ + seq![t] =~= supertypes@.push(t));
                        },
                        Err(_) => {},
                    }
                }
                supertypes.push(t);
            },
            None => {
                return Err(CardError::UnknownSupertype(doc.supertypes[i].clone()));
            },
        }
        i += 1;
    }
    proof {
        assert(sv.skip(n as int) =~= Seq::<Seq<char>>::empty());
        assert(supertypes@ + Seq::<CardSupertype>::empty() =~= supertypes@);
    }
    let type_data = match unflatten(&doc.type_data) {
        Ok(v) => v,
        Err(e) => {
            return Err(CardError::Decode(e));
        },
    };
    Ok(CardData { name: doc.name.clone(), mana_cost, supertypes, type_data })
}

/// Encodes a card back to its wire shape: the mana cost rendered to its
/// canonical text, the supertypes to their names, and the typed list
/// flattened. Encoding is total.
pub fn encode_card(card: &CardData) -> (r: CardDocument)
    ensures
        r.name@ == card.name@,
        match (card.mana_cost, r.mana_cost) {
            (Some(c), Some(text)) => text@ == cost_chars(c@),
            (None, None) => true,
            _ => false,
        },
        string_views(r.supertypes@) == card.supertypes@.map_values(|t| card_supertype_name(t)),
        r.type_data@ == flatten_spec(views_of(card.type_data@)),
{
    let mana_cost = match &card.mana_cost {
        Some(c) => Some(c.to_text()),
        None => None,
    };
    let mut supertypes: Vec<String> = Vec::new();
    let n = card.supertypes.len();
    let mut i: usize = 0;
    while i < n
        invariant
            i <= n,
            n == card.supertypes@.len(),
            string_views(supertypes@) == card.supertypes@.take(i as int).map_values(
                |t| card_supertype_name(t),
            ),
        decreases n - i,
    {
        proof {
            assert(card.supertypes@.take(i as int + 1) =~= card.supertypes@.take(i as int).push(
                card.supertypes@[i as int],
            ));
            crate::flat::lemma_map_values_push(
                card.supertypes@.take(i as int),
                |t| card_supertype_name(t),
                card.supertypes@[i as int],
            );
        }
        let ghost pre = supertypes@;
        supertypes.push(card_supertype_str(&card.supertypes[i]));
        proof {
            assert(string_views(supertypes@) =~= string_views(pre).push(
                card_supertype_name(card.supertypes@[i as int]),
            ));
        }
        i += 1;
    }
    proof {
        assert(card.supertypes@.take(n as int) =~= card.supertypes@);
    }
    let type_data = flatten(&card.type_data);
    CardDocument { name: card.name.clone(), mana_cost, supertypes, type_data }
}

} // verus!
