//! The per-card-type data model: the closed set of card types, the
//! number-or-placeholder scalars they carry, and the typed payload each
//! card type owns.

use vstd::prelude::*;

use crate::digits::{all_digits, dec_digits, digits_val, is_dec_digit, lemma_dec_digits};
use crate::digits::{digit_val_exec, is_dec_digit_exec};
use crate::strutil::str_eq;
use crate::subtypes::{
    ArtifactSubtype, BattleType, CreatureType, EnchantmentType, LandType, PlaneswalkerType,
    SpellType,
};

verus! {

/// The closed set of card types a card can have.
#[derive(Clone, Copy, Debug, PartialEq, Eq, Structural)]
pub enum CardType {
    Land,
    Creature,
    Instant,
    Sorcery,
    Artifact,
    Enchantment,
    Tribal,
    Planeswalker,
    Battle,
}

/// A supertype: a modifier orthogonal to the card types.
#[derive(Clone, Copy, Debug, PartialEq, Eq, Structural)]
pub enum CardSupertype {
    Basic,
    Legendary,
    Snow,
}

/// The canonical name of a `CardType`.
pub open spec fn card_type_name(t: CardType) -> Seq<char> {
    match t {
        CardType::Land => "Land"@,
        CardType::Creature => "Creature"@,
        CardType::Instant => "Instant"@,
        CardType::Sorcery => "Sorcery"@,
        CardType::Artifact => "Artifact"@,
        CardType::Enchantment => "Enchantment"@,
        CardType::Tribal => "Tribal"@,
        CardType::Planeswalker => "Planeswalker"@,
        CardType::Battle => "Battle"@,
    }
}

/// The `CardType` a name denotes, if any.
pub open spec fn parse_card_type(s: Seq<char>) -> Option<CardType> {
    if s == "Land"@ {
        Some(CardType::Land)
    } else if s == "Creature"@ {
        Some(CardType::Creature)
    } else if s == "Instant"@ {
        Some(CardType::Instant)
    } else if s == "Sorcery"@ {
        Some(CardType::Sorcery)
    } else if s == "Artifact"@ {
        Some(CardType::Artifact)
    } else if s == "Enchantment"@ {
        Some(CardType::Enchantment)
    } else if s == "Tribal"@ {
        Some(CardType::Tribal)
    } else if s == "Planeswalker"@ {
        Some(CardType::Planeswalker)
    } else if s == "Battle"@ {
        Some(CardType::Battle)
    } else {
        None
    }
}

/// The canonical name of a `CardType`, executable form.
pub fn card_type_str(t: &CardType) -> (r: String)
    ensures
        r@ == card_type_name(*t),
{
    match t {
        CardType::Land => "Land".to_owned(),
        CardType::Creature => "Creature".to_owned(),
        CardType::Instant => "Instant".to_owned(),
        CardType::Sorcery => "Sorcery".to_owned(),
        CardType::Artifact => "Artifact".to_owned(),
        CardType::Enchantment => "Enchantment".to_owned(),
        CardType::Tribal => "Tribal".to_owned(),
        CardType::Planeswalker => "Planeswalker".to_owned(),
        CardType::Battle => "Battle".to_owned(),
    }
}

/// The `CardType` a name denotes, executable form.
pub fn parse_card_type_exec(s: &str) -> (r: Option<CardType>)
    ensures
        r == parse_card_type(s@),
{
    if str_eq(s, "Land") {
        Some(CardType::Land)
    } else if str_eq(s, "Creature") {
        Some(CardType::Creature)
    } else if str_eq(s, "Instant") {
        Some(CardType::Instant)
    } else if str_eq(s, "Sorcery") {
        Some(CardType::Sorcery)
    } else if str_eq(s, "Artifact") {
        Some(CardType::Artifact)
    } else if str_eq(s, "Enchantment") {
        Some(CardType::Enchantment)
    } else if str_eq(s, "Tribal") {
        Some(CardType::Tribal)
    } else if str_eq(s, "Planeswalker") {
        Some(CardType::Planeswalker)
    } else if str_eq(s, "Battle") {
        Some(CardType::Battle)
    } else {
        None
    }
}

/// Every `CardType` name parses back to the value it names.
pub proof fn lemma_card_type_round_trip(t: CardType)
    ensures
        parse_card_type(card_type_name(t)) == Some(t),
{
    reveal_strlit("Land");
    reveal_strlit("Creature");
    reveal_strlit("Instant");
    reveal_strlit("Sorcery");
    reveal_strlit("Artifact");
    reveal_strlit("Enchantment");
    reveal_strlit("Tribal");
    reveal_strlit("Planeswalker");
    reveal_strlit("Battle");
    assert("Land"@ =~= seq!['L', 'a', 'n', 'd']);
    assert("Creature"@ =~= seq!['C', 'r', 'e', 'a', 't', 'u', 'r', 'e']);
    assert("Instant"@ =~= seq!['I', 'n', 's', 't', 'a', 'n', 't']);
    assert("Sorcery"@ =~= seq!['S', 'o', 'r', 'c', 'e', 'r', 'y']);
    assert("Artifact"@ =~= seq!['A', 'r', 't', 'i', 'f', 'a', 'c', 't']);
    assert("Enchantment"@ =~= seq!['E', 'n', 'c', 'h', 'a', 'n', 't', 'm', 'e', 'n', 't']);
    assert("Tribal"@ =~= seq!['T', 'r', 'i', 'b', 'a', 'l']);
    assert("Planeswalker"@ =~= seq!['P', 'l', 'a', 'n', 'e', 's', 'w', 'a', 'l', 'k', 'e', 'r']);
    assert("Battle"@ =~= seq!['B', 'a', 't', 't', 'l', 'e']);
    match t {
        CardType::Land => {
            assert(parse_card_type(card_type_name(t)) == Some(t));
        },
        CardType::Creature => {
            assert(parse_card_type(card_type_name(t)) == Some(t));
        },
        CardType::Instant => {
            assert(parse_card_type(card_type_name(t)) == Some(t));
        },
        CardType::Sorcery => {
            assert(parse_card_type(card_type_name(t)) == Some(t));
        },
        CardType::Artifact => {
            assert(parse_card_type(card_type_name(t)) == Some(t));
        },
        CardType::Enchantment => {
            assert(parse_card_type(card_type_name(t)) == Some(t));
        },
        CardType::Tribal => {
            assert(parse_card_type(card_type_name(t)) == Some(t));
        },
        CardType::Planeswalker => {
            assert(parse_card_type(card_type_name(t)) == Some(t));
        },
        CardType::Battle => {
            assert(parse_card_type(card_type_name(t)) == Some(t));
        },
    }
}

/// A name that parses as a `CardType` is that value's canonical name.
pub proof fn lemma_card_type_name_of_parse(s: Seq<char>)
    ensures
        parse_card_type(s) matches Some(t) ==> card_type_name(t) == s,
{
}
/// The canonical name of a `CardSupertype`.
pub open spec fn card_supertype_name(t: CardSupertype) -> Seq<char> {
    match t {
        CardSupertype::Basic => "Basic"@,
        CardSupertype::Legendary => "Legendary"@,
        CardSupertype::Snow => "Snow"@,
    }
}

/// The `CardSupertype` a name denotes, if any.
pub open spec fn parse_card_supertype(s: Seq<char>) -> Option<CardSupertype> {
    if s == "Basic"@ {
        Some(CardSupertype::Basic)
    } else if s == "Legendary"@ {
        Some(CardSupertype::Legendary)
    } else if s == "Snow"@ {
        Some(CardSupertype::Snow)
    } else {
        None
    }
}

/// The canonical name of a `CardSupertype`, executable form.
pub fn card_supertype_str(t: &CardSupertype) -> (r: String)
    ensures
        r@ == card_supertype_name(*t),
{
    match t {
        CardSupertype::Basic => "Basic".to_owned(),
        CardSupertype::Legendary => "Legendary".to_owned(),
        CardSupertype::Snow => "Snow".to_owned(),
    }
}

/// The `CardSupertype` a name denotes, executable form.
pub fn parse_card_supertype_exec(s: &str) -> (r: Option<CardSupertype>)
    ensures
        r == parse_card_supertype(s@),
{
    if str_eq(s, "Basic") {
        Some(CardSupertype::Basic)
    } else if str_eq(s, "Legendary") {
        Some(CardSupertype::Legendary)
    } else if str_eq(s, "Snow") {
        Some(CardSupertype::Snow)
    } else {
        None
    }
}

/// Every `CardSupertype` name parses back to the value it names.
pub proof fn lemma_card_supertype_round_trip(t: CardSupertype)
    ensures
        parse_card_supertype(card_supertype_name(t)) == Some(t),
{
    reveal_strlit("Basic");
    reveal_strlit("Legendary");
    reveal_strlit("Snow");
    assert("Basic"@ =~= seq!['B', 'a', 's', 'i', 'c']);
    assert("Legendary"@ =~= seq!['L', 'e', 'g', 'e', 'n', 'd', 'a', 'r', 'y']);
    assert("Snow"@ =~= seq!['S', 'n', 'o', 'w']);
    match t {
        CardSupertype::Basic => {
            assert(parse_card_supertype(card_supertype_name(t)) == Some(t));
        },
        CardSupertype::Legendary => {
            assert(parse_card_supertype(card_supertype_name(t)) == Some(t));
        },
        CardSupertype::Snow => {
            assert(parse_card_supertype(card_supertype_name(t)) == Some(t));
        },
    }
}

/// A name that parses as a `CardSupertype` is that value's canonical name.
pub proof fn lemma_card_supertype_name_of_parse(s: Seq<char>)
    ensures
        parse_card_supertype(s) matches Some(t) ==> card_supertype_name(t) == s,
{
}
/// A number-valued card field that may instead hold the placeholder `*`.
#[derive(Clone, Copy, Debug, PartialEq, Eq, Structural, PartialOrd, Ord)]
pub enum MaybePlaceholderNumber {
    Placeholder,
    Number(i32),
}

impl Default for MaybePlaceholderNumber {
    /// The default is the number zero.
    fn default() -> (r: Self)
        ensures
            r == MaybePlaceholderNumber::Number(0),
    {
        MaybePlaceholderNumber::Number(0)
    }
}

/// The canonical decimal rendering of a signed number.
pub open spec fn int_chars(i: int) -> Seq<char> {
    if i < 0 {
        seq!['-'] + dec_digits((-i) as nat)
    } else {
        dec_digits(i as nat)
    }
}

/// The canonical text of a number-or-placeholder value.
#[verifier::opaque]
pub open spec fn mpn_chars(m: MaybePlaceholderNumber) -> Seq<char> {
    match m {
        MaybePlaceholderNumber::Placeholder => seq!['*'],
        MaybePlaceholderNumber::Number(i) => int_chars(i as int),
    }
}

/// The signed number a text denotes: an optional sign followed by one or
/// more digits, with no range restriction.
pub open spec fn parse_int(s: Seq<char>) -> Option<int> {
    let neg = s.len() > 0 && s[0] == '-';
    let signed = s.len() > 0 && (s[0] == '-' || s[0] == '+');
    let ds = if signed {
        s.drop_first()
    } else {
        s
    };
    if ds.len() >= 1 && all_digits(ds) {
        if neg {
            Some(-(digits_val(ds) as int))
        } else {
            Some(digits_val(ds) as int)
        }
    } else {
        None
    }
}

/// The number-or-placeholder value a text denotes: the placeholder `*`,
/// or a signed number that fits the field's machine range.
#[verifier::opaque]
pub open spec fn parse_mpn(s: Seq<char>) -> Option<MaybePlaceholderNumber> {
    if s == seq!['*'] {
        Some(MaybePlaceholderNumber::Placeholder)
    } else {
        match parse_int(s) {
            Some(v) => if i32::MIN <= v <= i32::MAX {
                Some(MaybePlaceholderNumber::Number(v as i32))
            } else {
                None
            },
            None => None,
        }
    }
}

/// The canonical text of every number-or-placeholder value parses back to
/// that value.
pub proof fn lemma_mpn_round_trip(m: MaybePlaceholderNumber)
    ensures
        parse_mpn(mpn_chars(m)) == Some(m),
{
    reveal(mpn_chars);
    reveal(parse_mpn);
    match m {
        MaybePlaceholderNumber::Placeholder => {
        },
        MaybePlaceholderNumber::Number(i) => {
            if i >= 0 {
                lemma_dec_digits(i as nat);
                let ds = dec_digits(i as nat);
                assert(ds[0] != '-' && ds[0] != '+' && ds[0] != '*');
                assert(ds != seq!['*']);
                assert(parse_int(ds) == Some(i as int));
            } else {
                lemma_dec_digits((-i) as nat);
                let ds = dec_digits((-i) as nat);
                let s = seq!['-'] + ds;
                assert(s[0] == '-');
                assert(s != seq!['*']);
                assert(s.drop_first() =~= ds);
                assert(parse_int(s) == Some(i as int));
            }
        },
    }
}

impl MaybePlaceholderNumber {
    /// Parses a number-or-placeholder field value, in exact agreement with
    /// `parse_mpn`.
    pub fn from_str(s: &str) -> (r: Option<MaybePlaceholderNumber>)
        ensures
            r == parse_mpn(s@),
    {
        proof {
            reveal(parse_mpn);
        }
        if str_eq(s, "*") {
            proof {
                reveal_strlit("*");
                assert("*"@ =~= seq!['*']);
            }
            return Some(MaybePlaceholderNumber::Placeholder);
        }
        proof {
            reveal_strlit("*");
            assert("*"@ =~= seq!['*']);
        }
        let len = s.unicode_len();
        if len == 0 {
            proof {
                reveal(parse_mpn);
            }
            return None;
        }
        let c0 = s.get_char(0);
        let neg = c0 == '-';
        let signed = c0 == '-' || c0 == '+';
        let start: usize = if signed {
            1
        } else {
            0
        };
        let ghost ds = if signed {
            s@.drop_first()
        } else {
            s@
        };
        proof {
            assert(ds =~= s@.subrange(start as int, len as int));
        }
        if start == len {
            proof {
                reveal(parse_mpn);
                assert(signed);
                assert(len == 1);
                assert(s@.drop_first().len() == 0);
                assert(parse_int(s@) is None);
            }
            return None;
        }
        let bound: u64 = 0x8000_0000;
        let mut j = start;
        let mut val: Option<u64> = Some(0);
        proof {
            assert(ds.subrange(0, 0) =~= Seq::<char>::empty());
        }
        while j < len
            invariant
                len == s@.len(),
                start <= j <= len,
                start < len,
                bound == 0x8000_0000,
                s@ != seq!['*'],
                neg == (s@[0] == '-'),
                signed == (s@[0] == '-' || s@[0] == '+'),
                start == if signed {
                    1int
                } else {
                    0int
                },
                ds == s@.subrange(start as int, len as int),
                forall|k: int| start <= k < j ==> is_dec_digit(#[trigger] s@[k]),
                match val {
                    Some(v) => v == digits_val(ds.subrange(0, j - start)) && v <= bound,
                    None => digits_val(ds.subrange(0, j - start)) > bound,
                },
            decreases len - j,
        {
            let c = s.get_char(j);
            if !is_dec_digit_exec(c) {
                proof {
                    reveal(parse_mpn);
                    assert(ds[j - start] == s@[j as int]);
                    assert(!all_digits(ds));
                }
                return None;
            }
            let d = digit_val_exec(c) as u64;
            proof {
                assert(ds.subrange(0, j - start + 1) =~= ds.subrange(0, j - start).push(
                    s@[j as int],
                ));
                crate::digits::lemma_digits_val_push(ds.subrange(0, j - start), s@[j as int]);
            }
            val = match val {
                Some(v) => {
                    let nv = v * 10 + d;
                    if nv > bound {
                        None
                    } else {
                        Some(nv)
                    }
                },
                None => {
                    proof {
                        let pre = digits_val(ds.subrange(0, j - start));
                        assert(pre * 10 >= pre) by (nonlinear_arith);
                    }
                    None
                },
            };
            j += 1;
        }
        proof {
            assert(ds.subrange(0, len - start) =~= ds);
            assert(ds.len() >= 1);
            assert(all_digits(ds)) by {
                assert forall|k: int| 0 <= k < ds.len() implies is_dec_digit(
                    #[trigger] ds[k],
                ) by {
                    assert(ds[k] == s@[k + start]);
                }
            }
        }
        match val {
            Some(v) => {
                if neg {
                    let value: i64 = -(v as i64);
                    proof {
                        reveal(parse_mpn);
                        assert(parse_int(s@) == Some(-(digits_val(ds) as int)));
                        assert(i32::MIN <= value <= i32::MAX);
                    }
                    Some(MaybePlaceholderNumber::Number(value as i32))
                } else {
                    if v == bound {
                        proof {
                            reveal(parse_mpn);
                            assert(parse_int(s@) == Some(digits_val(ds) as int));
                        }
                        None
                    } else {
                        proof {
                            reveal(parse_mpn);
                            assert(parse_int(s@) == Some(digits_val(ds) as int));
                        }
                        Some(MaybePlaceholderNumber::Number(v as i32))
                    }
                }
            },
            None => {
                proof {
                    reveal(parse_mpn);
                    if neg {
                        assert(parse_int(s@) == Some(-(digits_val(ds) as int)));
                        assert(-(digits_val(ds) as int) < i32::MIN);
                    } else {
                        assert(parse_int(s@) == Some(digits_val(ds) as int));
                        assert(digits_val(ds) as int > i32::MAX);
                    }
                }
                None
            },
        }
    }

    /// Renders the value to its canonical text: `*` for the placeholder,
    /// the decimal number otherwise.
    pub fn to_text(&self) -> (r: String)
        ensures
            r@ == mpn_chars(*self),
    {
        proof {
            reveal(mpn_chars);
        }
        let mut out = String::new();
        match self {
            MaybePlaceholderNumber::Placeholder => {
                crate::strutil::push_char(&mut out, '*');
                proof {
                    assert(out@ =~= seq!['*']);
                }
            },
            MaybePlaceholderNumber::Number(i) => {
                let v = *i;
                if v < 0 {
                    crate::strutil::push_char(&mut out, '-');
                    let mag = (-(v as i64)) as u64;
                    crate::digits::push_decimal(&mut out, mag as usize);
                    proof {
                        assert(Seq::<char>::empty().push('-') =~= seq!['-']);
                        assert(out@ =~= seq!['-'] + dec_digits((-(v as int)) as nat));
                    }
                } else {
                    crate::digits::push_decimal(&mut out, v as usize);
                    proof {
                        assert(Seq::<char>::empty() + dec_digits(v as nat) =~= dec_digits(
                            v as nat,
                        ));
                    }
                }
            },
        }
        out
    }
}

/// The payload of a land card: its land subtypes, in declaration order.
#[derive(Clone, Debug, PartialEq, Eq)]
pub struct LandData {
    pub land_types: Vec<LandType>,
}

/// The payload of a creature card: its printed power and toughness and its
/// creature subtypes.
#[derive(Clone, Debug, PartialEq, Eq)]
pub struct CreatureData {
    pub power: MaybePlaceholderNumber,
    pub toughness: MaybePlaceholderNumber,
    pub creature_types: Vec<CreatureType>,
}

/// The payload of an instant card: its spell subtypes.
#[derive(Clone, Debug, PartialEq, Eq)]
pub struct InstantData {
    pub spell_types: Vec<SpellType>,
}

/// The payload of a sorcery card: its spell subtypes.
#[derive(Clone, Debug, PartialEq, Eq)]
pub struct SorceryData {
    pub spell_types: Vec<SpellType>,
}

/// The payload of an artifact card: its artifact subtypes.
#[derive(Clone, Debug, PartialEq, Eq)]
pub struct ArtifactData {
    pub artifact_types: Vec<ArtifactSubtype>,
}

/// The payload of an enchantment card: its enchantment subtypes.
#[derive(Clone, Debug, PartialEq, Eq)]
pub struct EnchantmentData {
    pub enchantment_types: Vec<EnchantmentType>,
}

/// The payload of a tribal card: creature subtypes, from the same
/// vocabulary creatures use.
#[derive(Clone, Debug, PartialEq, Eq)]
pub struct TribalData {
    pub tribal_types: Vec<CreatureType>,
}

/// The payload of a planeswalker card: its subtypes and printed loyalty.
#[derive(Clone, Debug, PartialEq, Eq)]
pub struct PlaneswalkerData {
    pub planeswalker_types: Vec<PlaneswalkerType>,
    pub loyalty: MaybePlaceholderNumber,
}

/// The payload of a battle card: its battle subtypes.
#[derive(Clone, Debug, PartialEq, Eq)]
pub struct BattleData {
    pub battle_types: Vec<BattleType>,
}

/// One card-type fact of a card: the type together with its payload.
#[derive(Clone, Debug, PartialEq, Eq)]
pub enum CardTypeData {
    Land(LandData),
    Creature(CreatureData),
    Instant(InstantData),
    Sorcery(SorceryData),
    Artifact(ArtifactData),
    Enchantment(EnchantmentData),
    Tribal(TribalData),
    Planeswalker(PlaneswalkerData),
    Battle(BattleData),
}

/// The character sequences of a sequence of creature subtypes.
pub open spec fn creature_type_views(v: Seq<CreatureType>) -> Seq<Seq<char>> {
    v.map_values(|c: CreatureType| c@)
}

/// The character sequences of a sequence of planeswalker subtypes.
pub open spec fn planeswalker_type_views(v: Seq<PlaneswalkerType>) -> Seq<Seq<char>> {
    v.map_values(|c: PlaneswalkerType| c@)
}

/// The mathematical shape of one card-type fact: payload collections as
/// sequences, open-vocabulary subtypes as their character sequences.
pub enum TypeDataView {
    Land { land_types: Seq<LandType> },
    Creature {
        power: MaybePlaceholderNumber,
        toughness: MaybePlaceholderNumber,
        creature_types: Seq<Seq<char>>,
    },
    Instant { spell_types: Seq<SpellType> },
    Sorcery { spell_types: Seq<SpellType> },
    Artifact { artifact_types: Seq<ArtifactSubtype> },
    Enchantment { enchantment_types: Seq<EnchantmentType> },
    Tribal { tribal_types: Seq<Seq<char>> },
    Planeswalker { planeswalker_types: Seq<Seq<char>>, loyalty: MaybePlaceholderNumber },
    Battle { battle_types: Seq<BattleType> },
}

impl View for CardTypeData {
    type V = TypeDataView;

    open spec fn view(&self) -> TypeDataView {
        match self {
            CardTypeData::Land(d) => TypeDataView::Land { land_types: d.land_types@ },
            CardTypeData::Creature(d) => TypeDataView::Creature {
                power: d.power,
                toughness: d.toughness,
                creature_types: creature_type_views(d.creature_types@),
            },
            CardTypeData::Instant(d) => TypeDataView::Instant { spell_types: d.spell_types@ },
            CardTypeData::Sorcery(d) => TypeDataView::Sorcery { spell_types: d.spell_types@ },
            CardTypeData::Artifact(d) => TypeDataView::Artifact {
                artifact_types: d.artifact_types@,
            },
            CardTypeData::Enchantment(d) => TypeDataView::Enchantment {
                enchantment_types: d.enchantment_types@,
            },
            CardTypeData::Tribal(d) => TypeDataView::Tribal {
                tribal_types: creature_type_views(d.tribal_types@),
            },
            CardTypeData::Planeswalker(d) => TypeDataView::Planeswalker {
                planeswalker_types: planeswalker_type_views(d.planeswalker_types@),
                loyalty: d.loyalty,
            },
            CardTypeData::Battle(d) => TypeDataView::Battle { battle_types: d.battle_types@ },
        }
    }
}

/// The card type a fact belongs to.
pub open spec fn type_of_entry(d: TypeDataView) -> CardType {
    match d {
        TypeDataView::Land { .. } => CardType::Land,
        TypeDataView::Creature { .. } => CardType::Creature,
        TypeDataView::Instant { .. } => CardType::Instant,
        TypeDataView::Sorcery { .. } => CardType::Sorcery,
        TypeDataView::Artifact { .. } => CardType::Artifact,
        TypeDataView::Enchantment { .. } => CardType::Enchantment,
        TypeDataView::Tribal { .. } => CardType::Tribal,
        TypeDataView::Planeswalker { .. } => CardType::Planeswalker,
        TypeDataView::Battle { .. } => CardType::Battle,
    }
}

/// The card type a fact belongs to, executable form.
pub fn card_type_of(d: &CardTypeData) -> (r: CardType)
    ensures
        r == type_of_entry(d@),
{
    match d {
        CardTypeData::Land(..) => CardType::Land,
        CardTypeData::Creature(..) => CardType::Creature,
        CardTypeData::Instant(..) => CardType::Instant,
        CardTypeData::Sorcery(..) => CardType::Sorcery,
        CardTypeData::Artifact(..) => CardType::Artifact,
        CardTypeData::Enchantment(..) => CardType::Enchantment,
        CardTypeData::Tribal(..) => CardType::Tribal,
        CardTypeData::Planeswalker(..) => CardType::Planeswalker,
        CardTypeData::Battle(..) => CardType::Battle,
    }
}

} // verus!
