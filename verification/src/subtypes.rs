//! Subtype vocabularies, one per card type: the closed enumerations with
//! their canonical names, and the allow-lists behind the open creature and
//! planeswalker vocabularies.

use vstd::prelude::*;

use crate::strutil::str_eq;

verus! {

/// The five basic land subtypes.
#[derive(Clone, Copy, Debug, PartialEq, Eq, Structural)]
pub enum BasicLandType {
    Plains,
    Island,
    Swamp,
    Mountain,
    Forest,
}

/// The canonical name of a `BasicLandType`.
pub open spec fn basic_land_type_name(t: BasicLandType) -> Seq<char> {
    match t {
        BasicLandType::Plains => "Plains"@,
        BasicLandType::Island => "Island"@,
        BasicLandType::Swamp => "Swamp"@,
        BasicLandType::Mountain => "Mountain"@,
        BasicLandType::Forest => "Forest"@,
    }
}

/// The `BasicLandType` a name denotes, if any.
pub open spec fn parse_basic_land_type(s: Seq<char>) -> Option<BasicLandType> {
    if s == "Plains"@ {
        Some(BasicLandType::Plains)
    } else if s == "Island"@ {
        Some(BasicLandType::Island)
    } else if s == "Swamp"@ {
        Some(BasicLandType::Swamp)
    } else if s == "Mountain"@ {
        Some(BasicLandType::Mountain)
    } else if s == "Forest"@ {
        Some(BasicLandType::Forest)
    } else {
        None
    }
}

/// The canonical name of a `BasicLandType`, executable form.
pub fn basic_land_type_str(t: &BasicLandType) -> (r: String)
    ensures
        r@ == basic_land_type_name(*t),
{
    match t {
        BasicLandType::Plains => "Plains".to_owned(),
        BasicLandType::Island => "Island".to_owned(),
        BasicLandType::Swamp => "Swamp".to_owned(),
        BasicLandType::Mountain => "Mountain".to_owned(),
        BasicLandType::Forest => "Forest".to_owned(),
    }
}

/// The `BasicLandType` a name denotes, executable form.
pub fn parse_basic_land_type_exec(s: &str) -> (r: Option<BasicLandType>)
    ensures
        r == parse_basic_land_type(s@),
{
    if str_eq(s, "Plains") {
        Some(BasicLandType::Plains)
    } else if str_eq(s, "Island") {
        Some(BasicLandType::Island)
    } else if str_eq(s, "Swamp") {
        Some(BasicLandType::Swamp)
    } else if str_eq(s, "Mountain") {
        Some(BasicLandType::Mountain)
    } else if str_eq(s, "Forest") {
        Some(BasicLandType::Forest)
    } else {
        None
    }
}

/// Every `BasicLandType` name parses back to the value it names.
pub proof fn lemma_basic_land_type_round_trip(t: BasicLandType)
    ensures
        parse_basic_land_type(basic_land_type_name(t)) == Some(t),
{
    reveal_strlit("Plains");
    reveal_strlit("Island");
    reveal_strlit("Swamp");
    reveal_strlit("Mountain");
    reveal_strlit("Forest");
    assert("Plains"@ =~= seq!['P', 'l', 'a', 'i', 'n', 's']);
    assert("Island"@ =~= seq!['I', 's', 'l', 'a', 'n', 'd']);
    assert("Swamp"@ =~= seq!['S', 'w', 'a', 'm', 'p']);
    assert("Mountain"@ =~= seq!['M', 'o', 'u', 'n', 't', 'a', 'i', 'n']);
    assert("Forest"@ =~= seq!['F', 'o', 'r', 'e', 's', 't']);
    match t {
        BasicLandType::Plains => {
            assert(parse_basic_land_type(basic_land_type_name(t)) == Some(t));
        },
        BasicLandType::Island => {
            assert(parse_basic_land_type(basic_land_type_name(t)) == Some(t));
        },
        BasicLandType::Swamp => {
            assert(parse_basic_land_type(basic_land_type_name(t)) == Some(t));
        },
        BasicLandType::Mountain => {
            assert(parse_basic_land_type(basic_land_type_name(t)) == Some(t));
        },
        BasicLandType::Forest => {
            assert(parse_basic_land_type(basic_land_type_name(t)) == Some(t));
        },
    }
}

/// A name that parses as a `BasicLandType` is that value's canonical name.
pub proof fn lemma_basic_land_type_name_of_parse(s: Seq<char>)
    ensures
        parse_basic_land_type(s) matches Some(t) ==> basic_land_type_name(t) == s,
{
}

/// The recognized non-basic land subtypes.
#[derive(Clone, Copy, Debug, PartialEq, Eq, Structural)]
pub enum NonBasicLandType {
    Cave,
    Desert,
    Gate,
    Lair,
    Locus,
    Sphere,
    Urzas,
}

/// The canonical name of a `NonBasicLandType`.
pub open spec fn non_basic_land_type_name(t: NonBasicLandType) -> Seq<char> {
    match t {
        NonBasicLandType::Cave => "Cave"@,
        NonBasicLandType::Desert => "Desert"@,
        NonBasicLandType::Gate => "Gate"@,
        NonBasicLandType::Lair => "Lair"@,
        NonBasicLandType::Locus => "Locus"@,
        NonBasicLandType::Sphere => "Sphere"@,
        NonBasicLandType::Urzas => "Urzas"@,
    }
}

/// The `NonBasicLandType` a name denotes, if any.
pub open spec fn parse_non_basic_land_type(s: Seq<char>) -> Option<NonBasicLandType> {
    if s == "Cave"@ {
        Some(NonBasicLandType::Cave)
    } else if s == "Desert"@ {
        Some(NonBasicLandType::Desert)
    } else if s == "Gate"@ {
        Some(NonBasicLandType::Gate)
    } else if s == "Lair"@ {
        Some(NonBasicLandType::Lair)
    } else if s == "Locus"@ {
        Some(NonBasicLandType::Locus)
    } else if s == "Sphere"@ {
        Some(NonBasicLandType::Sphere)
    } else if s == "Urzas"@ {
        Some(NonBasicLandType::Urzas)
    } else {
        None
    }
}

/// The canonical name of a `NonBasicLandType`, executable form.
pub fn non_basic_land_type_str(t: &NonBasicLandType) -> (r: String)
    ensures
        r@ == non_basic_land_type_name(*t),
{
    match t {
        NonBasicLandType::Cave => "Cave".to_owned(),
        NonBasicLandType::Desert => "Desert".to_owned(),
        NonBasicLandType::Gate => "Gate".to_owned(),
        NonBasicLandType::Lair => "Lair".to_owned(),
        NonBasicLandType::Locus => "Locus".to_owned(),
        NonBasicLandType::Sphere => "Sphere".to_owned(),
        NonBasicLandType::Urzas => "Urzas".to_owned(),
    }
}

/// The `NonBasicLandType` a name denotes, executable form.
pub fn parse_non_basic_land_type_exec(s: &str) -> (r: Option<NonBasicLandType>)
    ensures
        r == parse_non_basic_land_type(s@),
{
    if str_eq(s, "Cave") {
        Some(NonBasicLandType::Cave)
    } else if str_eq(s, "Desert") {
        Some(NonBasicLandType::Desert)
    } else if str_eq(s, "Gate") {
        Some(NonBasicLandType::Gate)
    } else if str_eq(s, "Lair") {
        Some(NonBasicLandType::Lair)
    } else if str_eq(s, "Locus") {
        Some(NonBasicLandType::Locus)
    } else if str_eq(s, "Sphere") {
        Some(NonBasicLandType::Sphere)
    } else if str_eq(s, "Urzas") {
        Some(NonBasicLandType::Urzas)
    } else {
        None
    }
}

/// Every `NonBasicLandType` name parses back to the value it names.
pub proof fn lemma_non_basic_land_type_round_trip(t: NonBasicLandType)
    ensures
        parse_non_basic_land_type(non_basic_land_type_name(t)) == Some(t),
{
    reveal_strlit("Cave");
    reveal_strlit("Desert");
    reveal_strlit("Gate");
    reveal_strlit("Lair");
    reveal_strlit("Locus");
    reveal_strlit("Sphere");
    reveal_strlit("Urzas");
    assert("Cave"@ =~= seq!['C', 'a', 'v', 'e']);
    assert("Desert"@ =~= seq!['D', 'e', 's', 'e', 'r', 't']);
    assert("Gate"@ =~= seq!['G', 'a', 't', 'e']);
    assert("Lair"@ =~= seq!['L', 'a', 'i', 'r']);
    assert("Locus"@ =~= seq!['L', 'o', 'c', 'u', 's']);
    assert("Sphere"@ =~= seq!['S', 'p', 'h', 'e', 'r', 'e']);
    assert("Urzas"@ =~= seq!['U', 'r', 'z', 'a', 's']);
    match t {
        NonBasicLandType::Cave => {
            assert(parse_non_basic_land_type(non_basic_land_type_name(t)) == Some(t));
        },
        NonBasicLandType::Desert => {
            assert(parse_non_basic_land_type(non_basic_land_type_name(t)) == Some(t));
        },
        NonBasicLandType::Gate => {
            assert(parse_non_basic_land_type(non_basic_land_type_name(t)) == Some(t));
        },
        NonBasicLandType::Lair => {
            assert(parse_non_basic_land_type(non_basic_land_type_name(t)) == Some(t));
        },
        NonBasicLandType::Locus => {
            assert(parse_non_basic_land_type(non_basic_land_type_name(t)) == Some(t));
        },
        NonBasicLandType::Sphere => {
            assert(parse_non_basic_land_type(non_basic_land_type_name(t)) == Some(t));
        },
        NonBasicLandType::Urzas => {
            assert(parse_non_basic_land_type(non_basic_land_type_name(t)) == Some(t));
        },
    }
}

/// A name that parses as a `NonBasicLandType` is that value's canonical name.
pub proof fn lemma_non_basic_land_type_name_of_parse(s: Seq<char>)
    ensures
        parse_non_basic_land_type(s) matches Some(t) ==> non_basic_land_type_name(t) == s,
{
}

/// The artifact subtypes.
#[derive(Clone, Copy, Debug, PartialEq, Eq, Structural)]
pub enum ArtifactSubtype {
    Equipment,
    Fortification,
    Blood,
    Clue,
    Food,
    Gold,
    Incubator,
    MapArtifact,
    Treasure,
    Powerstone,
    Vehicle,
}

/// The canonical name of a `ArtifactSubtype`.
pub open spec fn artifact_subtype_name(t: ArtifactSubtype) -> Seq<char> {
    match t {
        ArtifactSubtype::Equipment => "Equipment"@,
        ArtifactSubtype::Fortification => "Fortification"@,
        ArtifactSubtype::Blood => "Blood"@,
        ArtifactSubtype::Clue => "Clue"@,
        ArtifactSubtype::Food => "Food"@,
        ArtifactSubtype::Gold => "Gold"@,
        ArtifactSubtype::Incubator => "Incubator"@,
        ArtifactSubtype::MapArtifact => "Map"@,
        ArtifactSubtype::Treasure => "Treasure"@,
        ArtifactSubtype::Powerstone => "Powerstone"@,
        ArtifactSubtype::Vehicle => "Vehicle"@,
    }
}

/// The `ArtifactSubtype` a name denotes, if any.
pub open spec fn parse_artifact_subtype(s: Seq<char>) -> Option<ArtifactSubtype> {
    if s == "Equipment"@ {
        Some(ArtifactSubtype::Equipment)
    } else if s == "Fortification"@ {
        Some(ArtifactSubtype::Fortification)
    } else if s == "Blood"@ {
        Some(ArtifactSubtype::Blood)
    } else if s == "Clue"@ {
        Some(ArtifactSubtype::Clue)
    } else if s == "Food"@ {
        Some(ArtifactSubtype::Food)
    } else if s == "Gold"@ {
        Some(ArtifactSubtype::Gold)
    } else if s == "Incubator"@ {
        Some(ArtifactSubtype::Incubator)
    } else if s == "Map"@ {
        Some(ArtifactSubtype::MapArtifact)
    } else if s == "Treasure"@ {
        Some(ArtifactSubtype::Treasure)
    } else if s == "Powerstone"@ {
        Some(ArtifactSubtype::Powerstone)
    } else if s == "Vehicle"@ {
        Some(ArtifactSubtype::Vehicle)
    } else {
        None
    }
}

/// The canonical name of a `ArtifactSubtype`, executable form.
pub fn artifact_subtype_str(t: &ArtifactSubtype) -> (r: String)
    ensures
        r@ == artifact_subtype_name(*t),
{
    match t {
        ArtifactSubtype::Equipment => "Equipment".to_owned(),
        ArtifactSubtype::Fortification => "Fortification".to_owned(),
        ArtifactSubtype::Blood => "Blood".to_owned(),
        ArtifactSubtype::Clue => "Clue".to_owned(),
        ArtifactSubtype::Food => "Food".to_owned(),
        ArtifactSubtype::Gold => "Gold".to_owned(),
        ArtifactSubtype::Incubator => "Incubator".to_owned(),
        ArtifactSubtype::MapArtifact => "Map".to_owned(),
        ArtifactSubtype::Treasure => "Treasure".to_owned(),
        ArtifactSubtype::Powerstone => "Powerstone".to_owned(),
        ArtifactSubtype::Vehicle => "Vehicle".to_owned(),
    }
}

/// The `ArtifactSubtype` a name denotes, executable form.
pub fn parse_artifact_subtype_exec(s: &str) -> (r: Option<ArtifactSubtype>)
    ensures
        r == parse_artifact_subtype(s@),
{
    if str_eq(s, "Equipment") {
        Some(ArtifactSubtype::Equipment)
    } else if str_eq(s, "Fortification") {
        Some(ArtifactSubtype::Fortification)
    } else if str_eq(s, "Blood") {
        Some(ArtifactSubtype::Blood)
    } else if str_eq(s, "Clue") {
        Some(ArtifactSubtype::Clue)
    } else if str_eq(s, "Food") {
        Some(ArtifactSubtype::Food)
    } else if str_eq(s, "Gold") {
        Some(ArtifactSubtype::Gold)
    } else if str_eq(s, "Incubator") {
        Some(ArtifactSubtype::Incubator)
    } else if str_eq(s, "Map") {
        Some(ArtifactSubtype::MapArtifact)
    } else if str_eq(s, "Treasure") {
        Some(ArtifactSubtype::Treasure)
    } else if str_eq(s, "Powerstone") {
        Some(ArtifactSubtype::Powerstone)
    } else if str_eq(s, "Vehicle") {
        Some(ArtifactSubtype::Vehicle)
    } else {
        None
    }
}

/// Every `ArtifactSubtype` name parses back to the value it names.
pub proof fn lemma_artifact_subtype_round_trip(t: ArtifactSubtype)
    ensures
        parse_artifact_subtype(artifact_subtype_name(t)) == Some(t),
{
    reveal_strlit("Equipment");
    reveal_strlit("Fortification");
    reveal_strlit("Blood");
    reveal_strlit("Clue");
    reveal_strlit("Food");
    reveal_strlit("Gold");
    reveal_strlit("Incubator");
    reveal_strlit("Map");
    reveal_strlit("Treasure");
    reveal_strlit("Powerstone");
    reveal_strlit("Vehicle");
    assert("Equipment"@ =~= seq!['E', 'q', 'u', 'i', 'p', 'm', 'e', 'n', 't']);
    assert("Fortification"@ =~= seq!['F', 'o', 'r', 't', 'i', 'f', 'i', 'c', 'a', 't', 'i', 'o', 'n']);
    assert("Blood"@ =~= seq!['B', 'l', 'o', 'o', 'd']);
    assert("Clue"@ =~= seq!['C', 'l', 'u', 'e']);
    assert("Food"@ =~= seq!['F', 'o', 'o', 'd']);
    assert("Gold"@ =~= seq!['G', 'o', 'l', 'd']);
    assert("Incubator"@ =~= seq!['I', 'n', 'c', 'u', 'b', 'a', 't', 'o', 'r']);
    assert("Map"@ =~= seq!['M', 'a', 'p']);
    assert("Treasure"@ =~= seq!['T', 'r', 'e', 'a', 's', 'u', 'r', 'e']);
    assert("Powerstone"@ =~= seq!['P', 'o', 'w', 'e', 'r', 's', 't', 'o', 'n', 'e']);
    assert("Vehicle"@ =~= seq!['V', 'e', 'h', 'i', 'c', 'l', 'e']);
    match t {
        ArtifactSubtype::Equipment => {
            assert(parse_artifact_subtype(artifact_subtype_name(t)) == Some(t));
        },
        ArtifactSubtype::Fortification => {
            assert(parse_artifact_subtype(artifact_subtype_name(t)) == Some(t));
        },
        ArtifactSubtype::Blood => {
            assert(parse_artifact_subtype(artifact_subtype_name(t)) == Some(t));
        },
        ArtifactSubtype::Clue => {
            assert(parse_artifact_subtype(artifact_subtype_name(t)) == Some(t));
        },
        ArtifactSubtype::Food => {
            assert(parse_artifact_subtype(artifact_subtype_name(t)) == Some(t));
        },
        ArtifactSubtype::Gold => {
            assert(parse_artifact_subtype(artifact_subtype_name(t)) == Some(t));
        },
        ArtifactSubtype::Incubator => {
            assert(parse_artifact_subtype(artifact_subtype_name(t)) == Some(t));
        },
        ArtifactSubtype::MapArtifact => {
            assert(parse_artifact_subtype(artifact_subtype_name(t)) == Some(t));
        },
        ArtifactSubtype::Treasure => {
            assert(parse_artifact_subtype(artifact_subtype_name(t)) == Some(t));
        },
        ArtifactSubtype::Powerstone => {
            assert(parse_artifact_subtype(artifact_subtype_name(t)) == Some(t));
        },
        ArtifactSubtype::Vehicle => {
            assert(parse_artifact_subtype(artifact_subtype_name(t)) == Some(t));
        },
    }
}

/// A name that parses as a `ArtifactSubtype` is that value's canonical name.
pub proof fn lemma_artifact_subtype_name_of_parse(s: Seq<char>)
    ensures
        parse_artifact_subtype(s) matches Some(t) ==> artifact_subtype_name(t) == s,
{
}

/// The enchantment subtypes.
#[derive(Clone, Copy, Debug, PartialEq, Eq, Structural)]
pub enum EnchantmentType {
    Aura,
    Background,
    Cartouche,
    Case,
    Class,
    Curse,
    Role,
    Room,
    Rune,
    Saga,
    Shard,
    Shrine,
}

/// The canonical name of a `EnchantmentType`.
pub open spec fn enchantment_type_name(t: EnchantmentType) -> Seq<char> {
    match t {
        EnchantmentType::Aura => "Aura"@,
        EnchantmentType::Background => "Background"@,
        EnchantmentType::Cartouche => "Cartouche"@,
        EnchantmentType::Case => "Case"@,
        EnchantmentType::Class => "Class"@,
        EnchantmentType::Curse => "Curse"@,
        EnchantmentType::Role => "Role"@,
        EnchantmentType::Room => "Room"@,
        EnchantmentType::Rune => "Rune"@,
        EnchantmentType::Saga => "Saga"@,
        EnchantmentType::Shard => "Shard"@,
        EnchantmentType::Shrine => "Shrine"@,
    }
}

/// The `EnchantmentType` a name denotes, if any.
pub open spec fn parse_enchantment_type(s: Seq<char>) -> Option<EnchantmentType> {
    if s == "Aura"@ {
        Some(EnchantmentType::Aura)
    } else if s == "Background"@ {
        Some(EnchantmentType::Background)
    } else if s == "Cartouche"@ {
        Some(EnchantmentType::Cartouche)
    } else if s == "Case"@ {
        Some(EnchantmentType::Case)
    } else if s == "Class"@ {
        Some(EnchantmentType::Class)
    } else if s == "Curse"@ {
        Some(EnchantmentType::Curse)
    } else if s == "Role"@ {
        Some(EnchantmentType::Role)
    } else if s == "Room"@ {
        Some(EnchantmentType::Room)
    } else if s == "Rune"@ {
        Some(EnchantmentType::Rune)
    } else if s == "Saga"@ {
        Some(EnchantmentType::Saga)
    } else if s == "Shard"@ {
        Some(EnchantmentType::Shard)
    } else if s == "Shrine"@ {
        Some(EnchantmentType::Shrine)
    } else {
        None
    }
}

/// The canonical name of a `EnchantmentType`, executable form.
pub fn enchantment_type_str(t: &EnchantmentType) -> (r: String)
    ensures
        r@ == enchantment_type_name(*t),
{
    match t {
        EnchantmentType::Aura => "Aura".to_owned(),
        EnchantmentType::Background => "Background".to_owned(),
        EnchantmentType::Cartouche => "Cartouche".to_owned(),
        EnchantmentType::Case => "Case".to_owned(),
        EnchantmentType::Class => "Class".to_owned(),
        EnchantmentType::Curse => "Curse".to_owned(),
        EnchantmentType::Role => "Role".to_owned(),
        EnchantmentType::Room => "Room".to_owned(),
        EnchantmentType::Rune => "Rune".to_owned(),
        EnchantmentType::Saga => "Saga".to_owned(),
        EnchantmentType::Shard => "Shard".to_owned(),
        EnchantmentType::Shrine => "Shrine".to_owned(),
    }
}

/// The `EnchantmentType` a name denotes, executable form.
pub fn parse_enchantment_type_exec(s: &str) -> (r: Option<EnchantmentType>)
    ensures
        r == parse_enchantment_type(s@),
{
    if str_eq(s, "Aura") {
        Some(EnchantmentType::Aura)
    } else if str_eq(s, "Background") {
        Some(EnchantmentType::Background)
    } else if str_eq(s, "Cartouche") {
        Some(EnchantmentType::Cartouche)
    } else if str_eq(s, "Case") {
        Some(EnchantmentType::Case)
    } else if str_eq(s, "Class") {
        Some(EnchantmentType::Class)
    } else if str_eq(s, "Curse") {
        Some(EnchantmentType::Curse)
    } else if str_eq(s, "Role") {
        Some(EnchantmentType::Role)
    } else if str_eq(s, "Room") {
        Some(EnchantmentType::Room)
    } else if str_eq(s, "Rune") {
        Some(EnchantmentType::Rune)
    } else if str_eq(s, "Saga") {
        Some(EnchantmentType::Saga)
    } else if str_eq(s, "Shard") {
        Some(EnchantmentType::Shard)
    } else if str_eq(s, "Shrine") {
        Some(EnchantmentType::Shrine)
    } else {
        None
    }
}

/// Every `EnchantmentType` name parses back to the value it names.
pub proof fn lemma_enchantment_type_round_trip(t: EnchantmentType)
    ensures
        parse_enchantment_type(enchantment_type_name(t)) == Some(t),
{
    reveal_strlit("Aura");
    reveal_strlit("Background");
    reveal_strlit("Cartouche");
    reveal_strlit("Case");
    reveal_strlit("Class");
    reveal_strlit("Curse");
    reveal_strlit("Role");
    reveal_strlit("Room");
    reveal_strlit("Rune");
    reveal_strlit("Saga");
    reveal_strlit("Shard");
    reveal_strlit("Shrine");
    assert("Aura"@ =~= seq!['A', 'u', 'r', 'a']);
    assert("Background"@ =~= seq!['B', 'a', 'c', 'k', 'g', 'r', 'o', 'u', 'n', 'd']);
    assert("Cartouche"@ =~= seq!['C', 'a', 'r', 't', 'o', 'u', 'c', 'h', 'e']);
    assert("Case"@ =~= seq!['C', 'a', 's', 'e']);
    assert("Class"@ =~= seq!['C', 'l', 'a', 's', 's']);
    assert("Curse"@ =~= seq!['C', 'u', 'r', 's', 'e']);
    assert("Role"@ =~= seq!['R', 'o', 'l', 'e']);
    assert("Room"@ =~= seq!['R', 'o', 'o', 'm']);
    assert("Rune"@ =~= seq!['R', 'u', 'n', 'e']);
    assert("Saga"@ =~= seq!['S', 'a', 'g', 'a']);
    assert("Shard"@ =~= seq!['S', 'h', 'a', 'r', 'd']);
    assert("Shrine"@ =~= seq!['S', 'h', 'r', 'i', 'n', 'e']);
    match t {
        EnchantmentType::Aura => {
            assert(parse_enchantment_type(enchantment_type_name(t)) == Some(t));
        },
        EnchantmentType::Background => {
            assert(parse_enchantment_type(enchantment_type_name(t)) == Some(t));
        },
        EnchantmentType::Cartouche => {
            assert(parse_enchantment_type(enchantment_type_name(t)) == Some(t));
        },
        EnchantmentType::Case => {
            assert(parse_enchantment_type(enchantment_type_name(t)) == Some(t));
        },
        EnchantmentType::Class => {
            assert(parse_enchantment_type(enchantment_type_name(t)) == Some(t));
        },
        EnchantmentType::Curse => {
            assert(parse_enchantment_type(enchantment_type_name(t)) == Some(t));
        },
        EnchantmentType::Role => {
            assert(parse_enchantment_type(enchantment_type_name(t)) == Some(t));
        },
        EnchantmentType::Room => {
            assert(parse_enchantment_type(enchantment_type_name(t)) == Some(t));
        },
        EnchantmentType::Rune => {
            assert(parse_enchantment_type(enchantment_type_name(t)) == Some(t));
        },
        EnchantmentType::Saga => {
            assert(parse_enchantment_type(enchantment_type_name(t)) == Some(t));
        },
        EnchantmentType::Shard => {
            assert(parse_enchantment_type(enchantment_type_name(t)) == Some(t));
        },
        EnchantmentType::Shrine => {
            assert(parse_enchantment_type(enchantment_type_name(t)) == Some(t));
        },
    }
}

/// A name that parses as a `EnchantmentType` is that value's canonical name.
pub proof fn lemma_enchantment_type_name_of_parse(s: Seq<char>)
    ensures
        parse_enchantment_type(s) matches Some(t) ==> enchantment_type_name(t) == s,
{
}

/// The spell subtypes shared by instants and sorceries.
#[derive(Clone, Copy, Debug, PartialEq, Eq, Structural)]
pub enum SpellType {
    Adventure,
    Arcane,
    Lesson,
    Trap,
}

/// The canonical name of a `SpellType`.
pub open spec fn spell_type_name(t: SpellType) -> Seq<char> {
    match t {
        SpellType::Adventure => "Adventure"@,
        SpellType::Arcane => "Arcane"@,
        SpellType::Lesson => "Lesson"@,
        SpellType::Trap => "Trap"@,
    }
}

/// The `SpellType` a name denotes, if any.
pub open spec fn parse_spell_type(s: Seq<char>) -> Option<SpellType> {
    if s == "Adventure"@ {
        Some(SpellType::Adventure)
    } else if s == "Arcane"@ {
        Some(SpellType::Arcane)
    } else if s == "Lesson"@ {
        Some(SpellType::Lesson)
    } else if s == "Trap"@ {
        Some(SpellType::Trap)
    } else {
        None
    }
}

/// The canonical name of a `SpellType`, executable form.
pub fn spell_type_str(t: &SpellType) -> (r: String)
    ensures
        r@ == spell_type_name(*t),
{
    match t {
        SpellType::Adventure => "Adventure".to_owned(),
        SpellType::Arcane => "Arcane".to_owned(),
        SpellType::Lesson => "Lesson".to_owned(),
        SpellType::Trap => "Trap".to_owned(),
    }
}

/// The `SpellType` a name denotes, executable form.
pub fn parse_spell_type_exec(s: &str) -> (r: Option<SpellType>)
    ensures
        r == parse_spell_type(s@),
{
    if str_eq(s, "Adventure") {
        Some(SpellType::Adventure)
    } else if str_eq(s, "Arcane") {
        Some(SpellType::Arcane)
    } else if str_eq(s, "Lesson") {
        Some(SpellType::Lesson)
    } else if str_eq(s, "Trap") {
        Some(SpellType::Trap)
    } else {
        None
    }
}

/// Every `SpellType` name parses back to the value it names.
pub proof fn lemma_spell_type_round_trip(t: SpellType)
    ensures
        parse_spell_type(spell_type_name(t)) == Some(t),
{
    reveal_strlit("Adventure");
    reveal_strlit("Arcane");
    reveal_strlit("Lesson");
    reveal_strlit("Trap");
    assert("Adventure"@ =~= seq!['A', 'd', 'v', 'e', 'n', 't', 'u', 'r', 'e']);
    assert("Arcane"@ =~= seq!['A', 'r', 'c', 'a', 'n', 'e']);
    assert("Lesson"@ =~= seq!['L', 'e', 's', 's', 'o', 'n']);
    assert("Trap"@ =~= seq!['T', 'r', 'a', 'p']);
    match t {
        SpellType::Adventure => {
            assert(parse_spell_type(spell_type_name(t)) == Some(t));
        },
        SpellType::Arcane => {
            assert(parse_spell_type(spell_type_name(t)) == Some(t));
        },
        SpellType::Lesson => {
            assert(parse_spell_type(spell_type_name(t)) == Some(t));
        },
        SpellType::Trap => {
            assert(parse_spell_type(spell_type_name(t)) == Some(t));
        },
    }
}

/// A name that parses as a `SpellType` is that value's canonical name.
pub proof fn lemma_spell_type_name_of_parse(s: Seq<char>)
    ensures
        parse_spell_type(s) matches Some(t) ==> spell_type_name(t) == s,
{
}

/// The battle subtypes.
#[derive(Clone, Copy, Debug, PartialEq, Eq, Structural)]
pub enum BattleType {
    Siege,
}

/// The canonical name of a `BattleType`.
pub open spec fn battle_type_name(t: BattleType) -> Seq<char> {
    match t {
        BattleType::Siege => "Siege"@,
    }
}

/// The `BattleType` a name denotes, if any.
pub open spec fn parse_battle_type(s: Seq<char>) -> Option<BattleType> {
    if s == "Siege"@ {
        Some(BattleType::Siege)
    } else {
        None
    }
}

/// The canonical name of a `BattleType`, executable form.
pub fn battle_type_str(t: &BattleType) -> (r: String)
    ensures
        r@ == battle_type_name(*t),
{
    match t {
        BattleType::Siege => "Siege".to_owned(),
    }
}

/// The `BattleType` a name denotes, executable form.
pub fn parse_battle_type_exec(s: &str) -> (r: Option<BattleType>)
    ensures
        r == parse_battle_type(s@),
{
    if str_eq(s, "Siege") {
        Some(BattleType::Siege)
    } else {
        None
    }
}

/// Every `BattleType` name parses back to the value it names.
pub proof fn lemma_battle_type_round_trip(t: BattleType)
    ensures
        parse_battle_type(battle_type_name(t)) == Some(t),
{
    reveal_strlit("Siege");
    assert("Siege"@ =~= seq!['S', 'i', 'e', 'g', 'e']);
    match t {
        BattleType::Siege => {
            assert(parse_battle_type(battle_type_name(t)) == Some(t));
        },
    }
}

/// A name that parses as a `BattleType` is that value's canonical name.
pub proof fn lemma_battle_type_name_of_parse(s: Seq<char>)
    ensures
        parse_battle_type(s) matches Some(t) ==> battle_type_name(t) == s,
{
}

/// A land subtype: one of the basic lands or a recognized non-basic one.
#[derive(Clone, Copy, Debug, PartialEq, Eq, Structural)]
pub enum LandType {
    Basic(BasicLandType),
    NonBasic(NonBasicLandType),
}

/// The canonical name of a `LandType`.
pub open spec fn land_type_name(t: LandType) -> Seq<char> {
    match t {
        LandType::Basic(b) => basic_land_type_name(b),
        LandType::NonBasic(n) => non_basic_land_type_name(n),
    }
}

/// The `LandType` a name denotes: non-basic names are tried first, then
/// the basic ones.
pub open spec fn parse_land_type(s: Seq<char>) -> Option<LandType> {
    match parse_non_basic_land_type(s) {
        Some(n) => Some(LandType::NonBasic(n)),
        None => match parse_basic_land_type(s) {
            Some(b) => Some(LandType::Basic(b)),
            None => None,
        },
    }
}

/// The canonical name of a `LandType`, executable form.
pub fn land_type_str(t: &LandType) -> (r: String)
    ensures
        r@ == land_type_name(*t),
{
    match t {
        LandType::Basic(b) => basic_land_type_str(b),
        LandType::NonBasic(n) => non_basic_land_type_str(n),
    }
}

/// The `LandType` a name denotes, executable form.
pub fn parse_land_type_exec(s: &str) -> (r: Option<LandType>)
    ensures
        r == parse_land_type(s@),
{
    match parse_non_basic_land_type_exec(s) {
        Some(n) => Some(LandType::NonBasic(n)),
        None => match parse_basic_land_type_exec(s) {
            Some(b) => Some(LandType::Basic(b)),
            None => None,
        },
    }
}

/// Every `LandType` name parses back to the value it names.
pub proof fn lemma_land_type_round_trip(t: LandType)
    ensures
        parse_land_type(land_type_name(t)) == Some(t),
{
    reveal_strlit("Plains");
    reveal_strlit("Island");
    reveal_strlit("Swamp");
    reveal_strlit("Mountain");
    reveal_strlit("Forest");
    reveal_strlit("Cave");
    reveal_strlit("Desert");
    reveal_strlit("Gate");
    reveal_strlit("Lair");
    reveal_strlit("Locus");
    reveal_strlit("Sphere");
    reveal_strlit("Urzas");
    assert("Plains"@ =~= seq!['P', 'l', 'a', 'i', 'n', 's']);
    assert("Island"@ =~= seq!['I', 's', 'l', 'a', 'n', 'd']);
    assert("Swamp"@ =~= seq!['S', 'w', 'a', 'm', 'p']);
    assert("Mountain"@ =~= seq!['M', 'o', 'u', 'n', 't', 'a', 'i', 'n']);
    assert("Forest"@ =~= seq!['F', 'o', 'r', 'e', 's', 't']);
    assert("Cave"@ =~= seq!['C', 'a', 'v', 'e']);
    assert("Desert"@ =~= seq!['D', 'e', 's', 'e', 'r', 't']);
    assert("Gate"@ =~= seq!['G', 'a', 't', 'e']);
    assert("Lair"@ =~= seq!['L', 'a', 'i', 'r']);
    assert("Locus"@ =~= seq!['L', 'o', 'c', 'u', 's']);
    assert("Sphere"@ =~= seq!['S', 'p', 'h', 'e', 'r', 'e']);
    assert("Urzas"@ =~= seq!['U', 'r', 'z', 'a', 's']);
    match t {
        LandType::Basic(b) => {
            lemma_basic_land_type_round_trip(b);
        },
        LandType::NonBasic(n) => {
            lemma_non_basic_land_type_round_trip(n);
        },
    }
}

/// A name that parses as a `LandType` is that value's canonical name.
pub proof fn lemma_land_type_name_of_parse(s: Seq<char>)
    ensures
        parse_land_type(s) matches Some(t) ==> land_type_name(t) == s,
{
    lemma_non_basic_land_type_name_of_parse(s);
    lemma_basic_land_type_name_of_parse(s);
}

/// The creature-type allow-list, shared by creatures and tribal cards.
#[verifier::opaque]
pub open spec fn is_creature_type_name(s: Seq<char>) -> bool {
    s == "Advisor"@
        || s == "Angel"@
        || s == "Archer"@
        || s == "Assassin"@
        || s == "Bat"@
        || s == "Bear"@
        || s == "Beast"@
        || s == "Bird"@
        || s == "Cat"@
        || s == "Cleric"@
        || s == "Construct"@
        || s == "Demon"@
        || s == "Dinosaur"@
        || s == "Dragon"@
        || s == "Drake"@
        || s == "Druid"@
        || s == "Dryad"@
        || s == "Dwarf"@
        || s == "Elemental"@
        || s == "Elephant"@
        || s == "Elf"@
        || s == "Faerie"@
        || s == "Fish"@
        || s == "Fox"@
        || s == "Frog"@
        || s == "Giant"@
        || s == "Goblin"@
        || s == "Golem"@
        || s == "Griffin"@
        || s == "Horror"@
        || s == "Horse"@
        || s == "Human"@
        || s == "Hydra"@
        || s == "Illusion"@
        || s == "Imp"@
        || s == "Insect"@
        || s == "Knight"@
        || s == "Merfolk"@
        || s == "Minotaur"@
        || s == "Monk"@
        || s == "Mouse"@
        || s == "Ninja"@
        || s == "Ogre"@
        || s == "Ooze"@
        || s == "Orc"@
        || s == "Phoenix"@
        || s == "Pirate"@
        || s == "Rabbit"@
        || s == "Rat"@
        || s == "Rogue"@
        || s == "Samurai"@
        || s == "Scout"@
        || s == "Serpent"@
        || s == "Shaman"@
        || s == "Skeleton"@
        || s == "Snake"@
        || s == "Soldier"@
        || s == "Sphinx"@
        || s == "Spider"@
        || s == "Spirit"@
        || s == "Treefolk"@
        || s == "Troll"@
        || s == "Turtle"@
        || s == "Vampire"@
        || s == "Warrior"@
        || s == "Werewolf"@
        || s == "Wizard"@
        || s == "Wolf"@
        || s == "Wurm"@
        || s == "Zombie"@
}

/// Membership in the creature-type allow-list, executable form.
pub fn is_creature_type_str(s: &str) -> (r: bool)
    ensures
        r == is_creature_type_name(s@),
{
    proof {
        reveal(is_creature_type_name);
    }
    str_eq(s, "Advisor")
        || str_eq(s, "Angel")
        || str_eq(s, "Archer")
        || str_eq(s, "Assassin")
        || str_eq(s, "Bat")
        || str_eq(s, "Bear")
        || str_eq(s, "Beast")
        || str_eq(s, "Bird")
        || str_eq(s, "Cat")
        || str_eq(s, "Cleric")
        || str_eq(s, "Construct")
        || str_eq(s, "Demon")
        || str_eq(s, "Dinosaur")
        || str_eq(s, "Dragon")
        || str_eq(s, "Drake")
        || str_eq(s, "Druid")
        || str_eq(s, "Dryad")
        || str_eq(s, "Dwarf")
        || str_eq(s, "Elemental")
        || str_eq(s, "Elephant")
        || str_eq(s, "Elf")
        || str_eq(s, "Faerie")
        || str_eq(s, "Fish")
        || str_eq(s, "Fox")
        || str_eq(s, "Frog")
        || str_eq(s, "Giant")
        || str_eq(s, "Goblin")
        || str_eq(s, "Golem")
        || str_eq(s, "Griffin")
        || str_eq(s, "Horror")
        || str_eq(s, "Horse")
        || str_eq(s, "Human")
        || str_eq(s, "Hydra")
        || str_eq(s, "Illusion")
        || str_eq(s, "Imp")
        || str_eq(s, "Insect")
        || str_eq(s, "Knight")
        || str_eq(s, "Merfolk")
        || str_eq(s, "Minotaur")
        || str_eq(s, "Monk")
        || str_eq(s, "Mouse")
        || str_eq(s, "Ninja")
        || str_eq(s, "Ogre")
        || str_eq(s, "Ooze")
        || str_eq(s, "Orc")
        || str_eq(s, "Phoenix")
        || str_eq(s, "Pirate")
        || str_eq(s, "Rabbit")
        || str_eq(s, "Rat")
        || str_eq(s, "Rogue")
        || str_eq(s, "Samurai")
        || str_eq(s, "Scout")
        || str_eq(s, "Serpent")
        || str_eq(s, "Shaman")
        || str_eq(s, "Skeleton")
        || str_eq(s, "Snake")
        || str_eq(s, "Soldier")
        || str_eq(s, "Sphinx")
        || str_eq(s, "Spider")
        || str_eq(s, "Spirit")
        || str_eq(s, "Treefolk")
        || str_eq(s, "Troll")
        || str_eq(s, "Turtle")
        || str_eq(s, "Vampire")
        || str_eq(s, "Warrior")
        || str_eq(s, "Werewolf")
        || str_eq(s, "Wizard")
        || str_eq(s, "Wolf")
        || str_eq(s, "Wurm")
        || str_eq(s, "Zombie")
}

/// A creature subtype: an open vocabulary, validated on construction
/// against the creature-type allow-list.
#[derive(Clone, Debug, PartialEq, Eq)]
pub struct CreatureType(pub String);

impl View for CreatureType {
    type V = Seq<char>;

    open spec fn view(&self) -> Seq<char> {
        self.0@
    }
}

impl CreatureType {
    /// Accepts exactly the names on the creature-type allow-list.
    pub fn new_validated(input: &str) -> (r: Option<CreatureType>)
        ensures
            match r {
                Some(c) => is_creature_type_name(input@) && c@ == input@,
                None => !is_creature_type_name(input@),
            },
    {
        if is_creature_type_str(input) {
            Some(CreatureType(input.to_owned()))
        } else {
            None
        }
    }
}

/// The planeswalker-type allow-list.
#[verifier::opaque]
pub open spec fn is_planeswalker_type_name(s: Seq<char>) -> bool {
    s == "Ajani"@
        || s == "Angrath"@
        || s == "Ashiok"@
        || s == "Bolas"@
        || s == "Chandra"@
        || s == "Domri"@
        || s == "Dovin"@
        || s == "Elspeth"@
        || s == "Garruk"@
        || s == "Gideon"@
        || s == "Huatli"@
        || s == "Jace"@
        || s == "Jaya"@
        || s == "Karn"@
        || s == "Kaya"@
        || s == "Kiora"@
        || s == "Koth"@
        || s == "Liliana"@
        || s == "Nahiri"@
        || s == "Narset"@
        || s == "Nissa"@
        || s == "Oko"@
        || s == "Ral"@
        || s == "Saheeli"@
        || s == "Samut"@
        || s == "Sarkhan"@
        || s == "Sorin"@
        || s == "Tamiyo"@
        || s == "Teferi"@
        || s == "Tezzeret"@
        || s == "Tibalt"@
        || s == "Ugin"@
        || s == "Venser"@
        || s == "Vivien"@
        || s == "Vraska"@
        || s == "Xenagos"@
}

/// Membership in the planeswalker-type allow-list, executable form.
pub fn is_planeswalker_type_str(s: &str) -> (r: bool)
    ensures
        r == is_planeswalker_type_name(s@),
{
    proof {
        reveal(is_planeswalker_type_name);
    }
    str_eq(s, "Ajani")
        || str_eq(s, "Angrath")
        || str_eq(s, "Ashiok")
        || str_eq(s, "Bolas")
        || str_eq(s, "Chandra")
        || str_eq(s, "Domri")
        || str_eq(s, "Dovin")
        || str_eq(s, "Elspeth")
        || str_eq(s, "Garruk")
        || str_eq(s, "Gideon")
        || str_eq(s, "Huatli")
        || str_eq(s, "Jace")
        || str_eq(s, "Jaya")
        || str_eq(s, "Karn")
        || str_eq(s, "Kaya")
        || str_eq(s, "Kiora")
        || str_eq(s, "Koth")
        || str_eq(s, "Liliana")
        || str_eq(s, "Nahiri")
        || str_eq(s, "Narset")
        || str_eq(s, "Nissa")
        || str_eq(s, "Oko")
        || str_eq(s, "Ral")
        || str_eq(s, "Saheeli")
        || str_eq(s, "Samut")
        || str_eq(s, "Sarkhan")
        || str_eq(s, "Sorin")
        || str_eq(s, "Tamiyo")
        || str_eq(s, "Teferi")
        || str_eq(s, "Tezzeret")
        || str_eq(s, "Tibalt")
        || str_eq(s, "Ugin")
        || str_eq(s, "Venser")
        || str_eq(s, "Vivien")
        || str_eq(s, "Vraska")
        || str_eq(s, "Xenagos")
}

/// A planeswalker subtype: an open vocabulary, validated on construction
/// against the planeswalker-type allow-list.
#[derive(Clone, Debug, PartialEq, Eq)]
pub struct PlaneswalkerType(pub String);

impl View for PlaneswalkerType {
    type V = Seq<char>;

    open spec fn view(&self) -> Seq<char> {
        self.0@
    }
}

impl PlaneswalkerType {
    /// Accepts exactly the names on the planeswalker-type allow-list.
    pub fn new_validated(input: &str) -> (r: Option<PlaneswalkerType>)
        ensures
            match r {
                Some(c) => is_planeswalker_type_name(input@) && c@ == input@,
                None => !is_planeswalker_type_name(input@),
            },
    {
        if is_planeswalker_type_str(input) {
            Some(PlaneswalkerType(input.to_owned()))
        } else {
            None
        }
    }
}

} // verus!
