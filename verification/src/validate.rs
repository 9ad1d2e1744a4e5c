//! Field-level validation of candidate records, invoked by the host per
//! category.
use crate::num::is_digit;
use crate::text::{chars_of, ends_with_seq, starts_with_seq, str_ends_with, str_eq, str_starts_with};
use crate::types::{Beacon, BeaconV, Color, ColorV, Creature, CreatureV, Engram, EngramV, Item, ItemV};
use vstd::prelude::*;

verus! {

/// A candidate record, one variant per validatable category.
pub enum EntryData {
    Creature(Creature),
    Item(Item),
    Engram(Engram),
    Beacon(Beacon),
    Color(Color),
}

/// A blueprint reference in the expected shape.
pub open spec fn valid_blueprint(bp: Seq<char>) -> bool {
    starts_with_seq(bp, "Blueprint'/Game/"@)
}

/// A class or entity identifier in the expected shape.
pub open spec fn valid_class_id(s: Seq<char>) -> bool {
    ends_with_seq(s, "_C"@)
}

/// A hexadecimal digit.
pub open spec fn is_hex_digit(c: char) -> bool {
    is_digit(c) || c == 'a' || c == 'b' || c == 'c' || c == 'd' || c == 'e' || c == 'f' || c == 'A'
        || c == 'B' || c == 'C' || c == 'D' || c == 'E' || c == 'F'
}

/// A hex color code: a hash sign and six hexadecimal digits.
pub open spec fn valid_hex_code(s: Seq<char>) -> bool {
    s.len() == 7 && s[0] == '#' && forall|i: int| 1 <= i < 7 ==> is_hex_digit(s[i])
}

/// Checks the hex color shape.
pub fn is_valid_hex_code(s: &str) -> (r: bool)
    ensures
        r == valid_hex_code(s@),
{
    let v = chars_of(s);
    if v.len() != 7 {
        return false;
    }
    if v[0] != '#' {
        return false;
    }
    let mut i: usize = 1;
    while i < 7
        invariant
            1 <= i <= 7,
            v@ == s@,
            v@.len() == 7,
            v@[0] == '#',
            forall|j: int| 1 <= j < i ==> is_hex_digit(v@[j]),
        decreases 7 - i,
    {
        let c = v[i];
        let hex = c == '0' || c == '1' || c == '2' || c == '3' || c == '4' || c == '5' || c == '6'
            || c == '7' || c == '8' || c == '9' || c == 'a' || c == 'b' || c == 'c' || c == 'd'
            || c == 'e' || c == 'f' || c == 'A' || c == 'B' || c == 'C' || c == 'D' || c == 'E'
            || c == 'F';
        if !hex {
            proof {
                assert(!is_hex_digit(v@[i as int]));
            }
            return false;
        }
        i += 1;
    }
    true
}

/// What creature validation answers: the blueprint shape first, then the
/// entity identifier shape.
pub open spec fn creature_check(c: CreatureV) -> Result<bool, Seq<char>> {
    if !valid_blueprint(c.blueprint) {
        Err("Invalid blueprint format"@)
    } else if !valid_class_id(c.entity_id) {
        Err("Invalid entity ID format"@)
    } else {
        Ok(true)
    }
}

/// What item validation answers: the class-name shape first, then the
/// blueprint shape.
pub open spec fn item_check(it: ItemV) -> Result<bool, Seq<char>> {
    if !valid_class_id(it.class_name) {
        Err("Invalid class name format"@)
    } else if !valid_blueprint(it.blueprint) {
        Err("Invalid blueprint format"@)
    } else {
        Ok(true)
    }
}

/// What engram validation answers: the blueprint shape.
pub open spec fn engram_check(e: EngramV) -> Result<bool, Seq<char>> {
    if !valid_blueprint(e.blueprint) {
        Err("Invalid blueprint format"@)
    } else {
        Ok(true)
    }
}

/// What beacon validation answers: the class-name shape.
pub open spec fn beacon_check(b: BeaconV) -> Result<bool, Seq<char>> {
    if !valid_class_id(b.class_name) {
        Err("Invalid class name format"@)
    } else {
        Ok(true)
    }
}

/// What color validation answers: the hex-code shape.
pub open spec fn color_check(c: ColorV) -> Result<bool, Seq<char>> {
    if !valid_hex_code(c.hex_code) {
        Err("Invalid hex code format"@)
    } else {
        Ok(true)
    }
}

/// The executable result agrees with the specified one.
pub open spec fn result_agrees(r: Result<bool, String>, s: Result<bool, Seq<char>>) -> bool {
    match r {
        Ok(a) => s matches Ok(b) && a == b,
        Err(e) => s matches Err(m) && e@ == m,
    }
}

/// Validates a creature record.
pub fn validate_creature(c: &Creature) -> (r: Result<bool, String>)
    ensures
        result_agrees(r, creature_check(c@)),
{
    if !str_starts_with(c.blueprint.as_str(), "Blueprint'/Game/") {
        Err("Invalid blueprint format".to_owned())
    } else if !str_ends_with(c.entity_id.as_str(), "_C") {
        Err("Invalid entity ID format".to_owned())
    } else {
        Ok(true)
    }
}

/// Validates an item record.
pub fn validate_item(it: &Item) -> (r: Result<bool, String>)
    ensures
        result_agrees(r, item_check(it@)),
{
    if !str_ends_with(it.class_name.as_str(), "_C") {
        Err("Invalid class name format".to_owned())
    } else if !str_starts_with(it.blueprint.as_str(), "Blueprint'/Game/") {
        Err("Invalid blueprint format".to_owned())
    } else {
        Ok(true)
    }
}

/// Validates an engram record.
pub fn validate_engram(e: &Engram) -> (r: Result<bool, String>)
    ensures
        result_agrees(r, engram_check(e@)),
{
    if !str_starts_with(e.blueprint.as_str(), "Blueprint'/Game/") {
        Err("Invalid blueprint format".to_owned())
    } else {
        Ok(true)
    }
}

/// Validates a beacon record.
pub fn validate_beacon(b: &Beacon) -> (r: Result<bool, String>)
    ensures
        result_agrees(r, beacon_check(b@)),
{
    if !str_ends_with(b.class_name.as_str(), "_C") {
        Err("Invalid class name format".to_owned())
    } else {
        Ok(true)
    }
}

/// Validates a color record.
pub fn validate_color(c: &Color) -> (r: Result<bool, String>)
    ensures
        result_agrees(r, color_check(c@)),
{
    if !is_valid_hex_code(c.hex_code.as_str()) {
        Err("Invalid hex code format".to_owned())
    } else {
        Ok(true)
    }
}

/// What entry validation answers for a category name and a candidate: a
/// category's check where name and variant agree, a shape error where
/// they do not, and a category error for an unknown name.
pub open spec fn entry_check(category: Seq<char>, d: EntryData) -> Result<bool, Seq<char>> {
    if category == "creatures"@ {
        match d {
            EntryData::Creature(c) => creature_check(c@),
            _ => Err("Invalid creature data"@),
        }
    } else if category == "items"@ {
        match d {
            EntryData::Item(it) => item_check(it@),
            _ => Err("Invalid item data"@),
        }
    } else if category == "engrams"@ {
        match d {
            EntryData::Engram(e) => engram_check(e@),
            _ => Err("Invalid engram data"@),
        }
    } else if category == "beacons"@ {
        match d {
            EntryData::Beacon(b) => beacon_check(b@),
            _ => Err("Invalid beacon data"@),
        }
    } else if category == "colors"@ {
        match d {
            EntryData::Color(c) => color_check(c@),
            _ => Err("Invalid color data"@),
        }
    } else {
        Err("Invalid category"@)
    }
}

/// Validates one candidate record against its category name.
pub fn validate_entry(category: &str, data: &EntryData) -> (r: Result<bool, String>)
    ensures
        result_agrees(r, entry_check(category@, *data)),
{
    if str_eq(category, "creatures") {
        match data {
            EntryData::Creature(c) => validate_creature(c),
            _ => Err("Invalid creature data".to_owned()),
        }
    } else if str_eq(category, "items") {
        match data {
            EntryData::Item(it) => validate_item(it),
            _ => Err("Invalid item data".to_owned()),
        }
    } else if str_eq(category, "engrams") {
        match data {
            EntryData::Engram(e) => validate_engram(e),
            _ => Err("Invalid engram data".to_owned()),
        }
    } else if str_eq(category, "beacons") {
        match data {
            EntryData::Beacon(b) => validate_beacon(b),
            _ => Err("Invalid beacon data".to_owned()),
        }
    } else if str_eq(category, "colors") {
        match data {
            EntryData::Color(c) => validate_color(c),
            _ => Err("Invalid color data".to_owned()),
        }
    } else {
        Err("Invalid category".to_owned())
    }
}

} // verus!
