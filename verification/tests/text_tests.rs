use ark_data::common::{clean_name, extract_blueprint, extract_mod_name};
use ark_data::items::{format_section_url, section_names, section_urls};
use ark_data::num::{i64_to_chars, parse_i32, u64_to_chars};
use ark_data::text::{str_contains, str_ends_with, str_eq, str_starts_with};

#[test]
fn clean_name_strips_parentheses_and_whitespace() {
    assert_eq!(clean_name("Raptor (Tek)"), "Raptor");
    assert_eq!(clean_name("  Dodo  "), "Dodo");
    assert_eq!(clean_name("Line\nBreak"), "LineBreak");
    assert_eq!(clean_name("Two  Spaces"), "Two Spaces");
    assert_eq!(clean_name(""), "");
    assert_eq!(clean_name("(whole thing parenthesized)"), "");
}

#[test]
fn extract_blueprint_finds_first_span() {
    let text = "admincheat GiveItem Blueprint'/Game/PrimalEarth/Stone.Stone' 1 0";
    assert_eq!(
        extract_blueprint(text).expect("span present"),
        "Blueprint'/Game/PrimalEarth/Stone.Stone'"
    );
    assert!(extract_blueprint("no blueprint here").is_none());
    assert!(extract_blueprint("Blueprint'/Game/unterminated").is_none());
    let two = "Blueprint'/Game/A.A' and Blueprint'/Game/B.B'";
    assert_eq!(extract_blueprint(two).expect("first span"), "Blueprint'/Game/A.A'");
}

#[test]
fn extract_blueprint_never_crosses_a_line_break() {
    // An occurrence whose closing apostrophe sits behind a line break is
    // passed over; the search goes on behind it.
    assert!(extract_blueprint("Blueprint'/Game/abc\ndef'").is_none());
    let second = "Blueprint'/Game/a\nBlueprint'/Game/B.B'";
    assert_eq!(
        extract_blueprint(second).expect("second occurrence matches"),
        "Blueprint'/Game/B.B'"
    );
}

#[test]
fn mod_name_from_blueprint_path() {
    assert_eq!(extract_mod_name("Blueprint'/Game/PrimalEarth/X'"), "Ark");
    assert_eq!(extract_mod_name("Blueprint'/Game/ScorchedEarth/X'"), "Scorched Earth");
    assert_eq!(extract_mod_name("Blueprint'/Game/Aberration/X'"), "Aberration");
    assert_eq!(extract_mod_name("Blueprint'/Game/Mods/Gen2/X'"), "Genesis 2");
    assert_eq!(extract_mod_name("Blueprint'/Game/Elsewhere/X'"), "Unknown");
}

#[test]
fn section_url_special_cases() {
    assert_eq!(
        format_section_url("Weapons"),
        "https://ark.wiki.gg/wiki/Item_IDs/Weapons"
    );
    assert_eq!(
        format_section_url("Chibi Pets"),
        "https://ark.wiki.gg/wiki/Item_IDs/Chibi_Pets"
    );
    assert_eq!(
        format_section_url("Resources"),
        "https://ark.wiki.gg/wiki/Item_IDs/Resources"
    );
    assert_eq!(
        format_section_url("Arms & Armor"),
        "https://ark.wiki.gg/wiki/Item_IDs/Arms_and_Armor"
    );
}

#[test]
fn section_list_and_alternates() {
    let names = section_names();
    assert_eq!(names.len(), 18);
    assert_eq!(names[0], "Resources");
    assert_eq!(names[17], "Trophy");
    let trophy = section_urls("Trophy");
    assert_eq!(trophy.len(), 2);
    assert_eq!(trophy[1], "https://ark.wiki.gg/wiki/Item_IDs/Trophies");
    let weapons = section_urls("Weapons");
    assert_eq!(weapons[1], "https://ark.wiki.gg/wiki/Item_IDs/Weapon");
    assert_eq!(section_urls("Resources").len(), 1);
}

#[test]
fn string_helpers() {
    assert!(str_contains("Alpha Raptor", "Alpha"));
    assert!(!str_contains("Raptor", "Alpha"));
    assert!(str_contains("anything", ""));
    assert!(str_starts_with("Blueprint'/Game/X", "Blueprint'/Game/"));
    assert!(!str_starts_with("Game/X", "Blueprint"));
    assert!(str_ends_with("Raptor_Character_BP_C", "_C"));
    assert!(!str_ends_with("Raptor", "_C"));
    assert!(str_eq("same", "same"));
    assert!(!str_eq("same", "Same"));
}

#[test]
fn integer_parsing_matches_the_std_shape() {
    assert_eq!(parse_i32("5"), Some(5));
    assert_eq!(parse_i32("+5"), Some(5));
    assert_eq!(parse_i32("-12"), Some(-12));
    assert_eq!(parse_i32("007"), Some(7));
    assert_eq!(parse_i32(""), None);
    assert_eq!(parse_i32("-"), None);
    assert_eq!(parse_i32("1x"), None);
    assert_eq!(parse_i32(" 1"), None);
    assert_eq!(parse_i32("2147483647"), Some(2147483647));
    assert_eq!(parse_i32("2147483648"), None);
    assert_eq!(parse_i32("-2147483648"), Some(-2147483648));
    assert_eq!(parse_i32("-2147483649"), None);
    assert_eq!(parse_i32("99999999999999999999"), None);
}

#[test]
fn integer_formatting() {
    let digits: String = u64_to_chars(90210).into_iter().collect();
    assert_eq!(digits, "90210");
    let zero: String = u64_to_chars(0).into_iter().collect();
    assert_eq!(zero, "0");
    let neg: String = i64_to_chars(-42).into_iter().collect();
    assert_eq!(neg, "-42");
    let min: String = i64_to_chars(i64::MIN).into_iter().collect();
    assert_eq!(min, "-9223372036854775808");
}
