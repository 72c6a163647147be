use mtg_cards::mana::{Color, ManaCost, ManaSymbol, ManaValue, ParseError};

#[test]
fn test_mana_costs() {
    // Ajani, Sleeper Agent
    assert_eq!(
        ManaCost::from_str("{1}{G}{G/W/P}{W}").unwrap(),
        ManaCost(vec![
            ManaSymbol::Generic(1),
            ManaSymbol::Colored(Color::Green),
            ManaSymbol::PhyrexianHybrid(Color::Green, Color::White),
            ManaSymbol::Colored(Color::White),
        ])
    );
    // Altered Ego
    assert_eq!(
        ManaCost::from_str("{X}{2}{G}{U}").unwrap(),
        ManaCost(vec![
            ManaSymbol::Placeholder('X'),
            ManaSymbol::Generic(2),
            ManaSymbol::Colored(Color::Green),
            ManaSymbol::Colored(Color::Blue),
        ])
    );
}

#[test]
fn converts_mana_value() {
    // Ajani, Sleeper Agent
    assert_eq!(
        ManaValue::from_cost(&ManaCost(vec![
            ManaSymbol::Generic(1),
            ManaSymbol::Colored(Color::Green),
            ManaSymbol::PhyrexianHybrid(Color::Green, Color::White),
            ManaSymbol::Colored(Color::White),
        ])),
        ManaValue(4)
    );
    // Altered Ego
    assert_eq!(
        ManaValue::from_cost(&ManaCost(vec![
            ManaSymbol::Placeholder('X'),
            ManaSymbol::Generic(2),
            ManaSymbol::Colored(Color::Green),
            ManaSymbol::Colored(Color::Blue),
        ])),
        ManaValue(4)
    );
    // Advice from the Fae
    assert_eq!(
        ManaValue::from_cost(&ManaCost(vec![
            ManaSymbol::HybridGeneric(Color::Blue, 2),
            ManaSymbol::HybridGeneric(Color::Blue, 2),
            ManaSymbol::HybridGeneric(Color::Blue, 2),
        ])),
        ManaValue(6)
    );
}

#[test]
fn renders_and_reparses() {
    let texts = [
        "{1}{G}{G/W/P}{W}",
        "{X}{2}{G}{U}",
        "{U/2}{U/2}{U/2}",
        "{C}{S}{W/U}{B/P}{R/C}{15}{0}",
    ];
    for text in texts {
        let cost = ManaCost::from_str(text).unwrap();
        assert_eq!(cost.to_text(), text);
        assert_eq!(ManaCost::from_str(&cost.to_text()).unwrap(), cost);
    }
}

#[test]
fn rejects_bad_costs() {
    assert_eq!(ManaCost::from_str(""), Err(ParseError::Empty));
    assert_eq!(ManaCost::from_str("{1}{"), Err(ParseError::BadSymbol { at: 3 }));
    assert_eq!(ManaCost::from_str("{W/X}"), Err(ParseError::BadSymbol { at: 0 }));
    assert_eq!(ManaCost::from_str("{01}"), Err(ParseError::BadSymbol { at: 0 }));
    assert_eq!(ManaCost::from_str("{}"), Err(ParseError::BadSymbol { at: 0 }));
    assert_eq!(ManaCost::from_str("W"), Err(ParseError::BadSymbol { at: 0 }));
}

#[test]
fn empty_symbol_list_is_rejected() {
    assert!(ManaCost::try_from_symbols(vec![]).is_err());
    assert!(ManaCost::try_from_symbols(vec![ManaSymbol::Snow]).is_ok());
}

#[test]
fn collects_colors() {
    let cost = ManaCost::from_str("{1}{G}{G/W/P}{W}{C}{X}").unwrap();
    assert_eq!(
        cost.get_colors(),
        vec![Color::Green, Color::Green, Color::White, Color::White]
    );
}

#[test]
fn hybrid_generic_counts_at_least_one() {
    let cost = ManaCost(vec![ManaSymbol::HybridGeneric(Color::Red, 0)]);
    assert_eq!(ManaValue::from_cost(&cost), ManaValue(1));
    assert_eq!(cost.to_text(), "{R/0}");
}
