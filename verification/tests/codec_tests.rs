use mtg_cards::card::{decode_card, encode_card, CardDocument};
use mtg_cards::card_types::{
    CardTypeData, CreatureData, LandData, MaybePlaceholderNumber, PlaneswalkerData,
};
use mtg_cards::decode::unflatten;
use mtg_cards::flat::{flatten, DecodeError, FlatCardTypeData};
use mtg_cards::mana::{ManaCost, ManaValue};
use mtg_cards::subtypes::{BasicLandType, CreatureType, LandType, PlaneswalkerType};

fn strings(names: &[&str]) -> Vec<String> {
    names.iter().map(|s| s.to_string()).collect()
}

#[test]
fn reconfigure() {
    let doc = CardDocument {
        name: "Rabbit Battery".to_string(),
        mana_cost: Some("{R}".to_string()),
        supertypes: strings(&[]),
        type_data: FlatCardTypeData {
            types: strings(&["Artifact", "Creature"]),
            subtypes: strings(&["Rabbit", "Equipment"]),
            power: Some("1".to_string()),
            toughness: Some("1".to_string()),
            loyalty: None,
        },
    };
    let card = decode_card(&doc).unwrap();
    assert_eq!(card.name, "Rabbit Battery");
    assert_eq!(card.type_data.len(), 2);
    match &card.type_data[1] {
        CardTypeData::Creature(data) => {
            assert_eq!(data.power, MaybePlaceholderNumber::Number(1));
            assert_eq!(data.toughness, MaybePlaceholderNumber::Number(1));
            assert_eq!(data.creature_types, vec![CreatureType("Rabbit".to_string())]);
        }
        other => panic!("expected a creature fact, got {:?}", other),
    }
}

#[test]
fn grizzly_bears_end_to_end() {
    let doc = CardDocument {
        name: "Grizzly Bears".to_string(),
        mana_cost: Some("{1}{G}".to_string()),
        supertypes: strings(&[]),
        type_data: FlatCardTypeData {
            types: strings(&["Creature"]),
            subtypes: strings(&["Bear"]),
            power: Some("2".to_string()),
            toughness: Some("2".to_string()),
            loyalty: None,
        },
    };
    let card = decode_card(&doc).unwrap();
    assert_eq!(
        card.type_data,
        vec![CardTypeData::Creature(CreatureData {
            power: MaybePlaceholderNumber::Number(2),
            toughness: MaybePlaceholderNumber::Number(2),
            creature_types: vec![CreatureType("Bear".to_string())],
        })]
    );
    assert_eq!(
        ManaValue::from_cost(card.mana_cost.as_ref().unwrap()),
        ManaValue(2)
    );
    let back = encode_card(&card);
    assert_eq!(back, doc);
}

#[test]
fn dryad_arbor_multi_type() {
    // "Dryad" must go to the creature fact and "Forest" to the land fact,
    // in either subtype order and either type order.
    for subtypes in [["Forest", "Dryad"], ["Dryad", "Forest"]] {
        for types in [["Creature", "Land"], ["Land", "Creature"]] {
            let doc = CardDocument {
                name: "Dryad Arbor".to_string(),
                mana_cost: None,
                supertypes: strings(&[]),
                type_data: FlatCardTypeData {
                    types: strings(&types),
                    subtypes: strings(&subtypes),
                    power: Some("1".to_string()),
                    toughness: Some("1".to_string()),
                    loyalty: None,
                },
            };
            let card = decode_card(&doc).unwrap();
            assert_eq!(card.mana_cost, None);
            assert_eq!(card.type_data.len(), 2);
            for fact in &card.type_data {
                match fact {
                    CardTypeData::Creature(data) => {
                        assert_eq!(data.creature_types, vec![CreatureType("Dryad".to_string())]);
                    }
                    CardTypeData::Land(data) => {
                        assert_eq!(
                            data.land_types,
                            vec![LandType::Basic(BasicLandType::Forest)]
                        );
                    }
                    other => panic!("unexpected fact {:?}", other),
                }
            }
        }
    }
}

#[test]
fn unused_subtype_is_an_error() {
    let doc = FlatCardTypeData {
        types: strings(&["Creature"]),
        subtypes: strings(&["Bear", "NotARealType"]),
        power: Some("2".to_string()),
        toughness: Some("2".to_string()),
        loyalty: None,
    };
    assert_eq!(
        unflatten(&doc),
        Err(DecodeError::UnusedSubtypes(strings(&["NotARealType"])))
    );
}

#[test]
fn unknown_type_is_an_error() {
    let doc = FlatCardTypeData {
        types: strings(&["Creature", "Sliver"]),
        subtypes: strings(&[]),
        power: Some("2".to_string()),
        toughness: Some("2".to_string()),
        loyalty: None,
    };
    assert_eq!(unflatten(&doc), Err(DecodeError::UnknownType("Sliver".to_string())));
}

#[test]
fn missing_and_invalid_scalar_fields() {
    let missing = FlatCardTypeData {
        types: strings(&["Creature"]),
        subtypes: strings(&[]),
        power: None,
        toughness: Some("2".to_string()),
        loyalty: None,
    };
    assert_eq!(
        unflatten(&missing),
        Err(DecodeError::MissingField("power".to_string()))
    );
    let invalid = FlatCardTypeData {
        types: strings(&["Planeswalker"]),
        subtypes: strings(&["Ajani"]),
        power: None,
        toughness: None,
        loyalty: Some("high".to_string()),
    };
    assert_eq!(
        unflatten(&invalid),
        Err(DecodeError::InvalidField("high".to_string()))
    );
}

#[test]
fn placeholder_scalars_round_trip() {
    let list = vec![CardTypeData::Creature(CreatureData {
        power: MaybePlaceholderNumber::Placeholder,
        toughness: MaybePlaceholderNumber::Number(-1),
        creature_types: vec![CreatureType("Ooze".to_string())],
    })];
    let doc = flatten(&list);
    assert_eq!(doc.power, Some("*".to_string()));
    assert_eq!(doc.toughness, Some("-1".to_string()));
    assert_eq!(unflatten(&doc).unwrap(), list);
}

#[test]
fn planeswalker_round_trip() {
    let list = vec![CardTypeData::Planeswalker(PlaneswalkerData {
        planeswalker_types: vec![PlaneswalkerType("Ajani".to_string())],
        loyalty: MaybePlaceholderNumber::Number(4),
    })];
    let doc = flatten(&list);
    assert_eq!(doc.types, strings(&["Planeswalker"]));
    assert_eq!(doc.subtypes, strings(&["Ajani"]));
    assert_eq!(doc.loyalty, Some("4".to_string()));
    assert_eq!(unflatten(&doc).unwrap(), list);
}

#[test]
fn validated_subtype_constructors() {
    assert!(CreatureType::new_validated("Bear").is_some());
    assert!(CreatureType::new_validated("NotARealType").is_none());
    assert!(PlaneswalkerType::new_validated("Jace").is_some());
    assert!(PlaneswalkerType::new_validated("Bear").is_none());
}

#[test]
fn unknown_supertype_is_an_error() {
    let doc = CardDocument {
        name: "Island".to_string(),
        mana_cost: None,
        supertypes: strings(&["Basic", "Shiny"]),
        type_data: FlatCardTypeData {
            types: strings(&["Land"]),
            subtypes: strings(&["Island"]),
            power: None,
            toughness: None,
            loyalty: None,
        },
    };
    match decode_card(&doc) {
        Err(mtg_cards::card::CardError::UnknownSupertype(s)) => assert_eq!(s, "Shiny"),
        other => panic!("expected an unknown-supertype error, got {:?}", other),
    }
}

#[test]
fn duplicate_declared_type_decodes_once() {
    // A document may repeat a type name; the decode processes each card
    // type present once, so the card never holds two facts of one type.
    let doc = FlatCardTypeData {
        types: strings(&["Creature", "Creature"]),
        subtypes: strings(&["Bear"]),
        power: Some("2".to_string()),
        toughness: Some("2".to_string()),
        loyalty: None,
    };
    let facts = unflatten(&doc).unwrap();
    assert_eq!(
        facts,
        vec![CardTypeData::Creature(CreatureData {
            power: MaybePlaceholderNumber::Number(2),
            toughness: MaybePlaceholderNumber::Number(2),
            creature_types: vec![CreatureType("Bear".to_string())],
        })]
    );
}

#[test]
fn multi_type_flatten_round_trip() {
    // Two facts with disjoint vocabularies survive the round trip intact.
    let list = vec![
        CardTypeData::Creature(CreatureData {
            power: MaybePlaceholderNumber::Number(1),
            toughness: MaybePlaceholderNumber::Number(1),
            creature_types: vec![CreatureType("Dryad".to_string())],
        }),
        CardTypeData::Land(LandData {
            land_types: vec![LandType::Basic(BasicLandType::Forest)],
        }),
    ];
    let flat = flatten(&list);
    assert_eq!(unflatten(&flat).unwrap(), list);
}
