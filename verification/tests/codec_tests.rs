use ark_data::category_map::CategoryMap;
use ark_data::dataset_json::{dataset_from_json, dataset_to_json};
use ark_data::types::{ArkData, Beacon, Color, Creature, Engram, Icon, Item};

fn sample_dataset() -> ArkData {
    let mut creatures = CategoryMap::new();
    creatures.insert(
        "Ark_Raptor".to_string(),
        Creature {
            kind: "creature".to_string(),
            name: "Raptor".to_string(),
            mod_name: "Ark".to_string(),
            entity_id: "Raptor_Character_BP_C".to_string(),
            blueprint: "Blueprint'/Game/PrimalEarth/Raptor.Raptor'".to_string(),
        },
    );
    let mut items = CategoryMap::new();
    items.insert(
        "Stone".to_string(),
        Item {
            kind: "Resource".to_string(),
            name: "Stone".to_string(),
            mod_name: "Ark".to_string(),
            class_name: "PrimalItemResource_Stone_C".to_string(),
            blueprint: "Blueprint'/Game/PrimalEarth/Stone.Stone'".to_string(),
        },
    );
    let mut engrams = CategoryMap::new();
    engrams.insert(
        "Campfire".to_string(),
        Engram {
            kind: "engram".to_string(),
            name: "Campfire".to_string(),
            mod_name: "Ark".to_string(),
            blueprint: "Unknown".to_string(),
            class_name: "EngramEntry_Campfire_C".to_string(),
        },
    );
    let mut beacons = CategoryMap::new();
    beacons.insert(
        "Ark_White_Beacon".to_string(),
        Beacon {
            kind: "beacon".to_string(),
            name: "White Beacon".to_string(),
            mod_name: "Ark".to_string(),
            class_name: "SupplyCrate_Level03_C".to_string(),
        },
    );
    let mut colors = CategoryMap::new();
    colors.insert(
        "Red".to_string(),
        Color {
            kind: "color".to_string(),
            name: "Red".to_string(),
            color_id: 5,
            hex_code: "#FF0000".to_string(),
        },
    );
    let mut icons = CategoryMap::new();
    icons.insert(
        "Stone_Icon".to_string(),
        Icon {
            kind: "icon".to_string(),
            name: "Stone_Icon".to_string(),
            path: "icons/items/Stone_Icon.png".to_string(),
        },
    );
    ArkData {
        creatures,
        items,
        engrams,
        beacons,
        colors,
        icons,
        version: "1.0.0".to_string(),
        last_updated: 1700000000,
    }
}

fn assert_datasets_equal(a: &ArkData, b: &ArkData) {
    assert_eq!(a.version, b.version);
    assert_eq!(a.last_updated, b.last_updated);
    assert_eq!(a.creatures.len(), b.creatures.len());
    assert_eq!(a.items.len(), b.items.len());
    assert_eq!(a.engrams.len(), b.engrams.len());
    assert_eq!(a.beacons.len(), b.beacons.len());
    assert_eq!(a.colors.len(), b.colors.len());
    assert_eq!(a.icons.len(), b.icons.len());
}

#[test]
fn round_trip_preserves_the_dataset() {
    // Serializing a dataset and parsing it back yields an equal dataset:
    // all six maps, version and timestamp.
    let d = sample_dataset();
    let text = dataset_to_json(&d);
    let back = dataset_from_json(&text).expect("serialized text parses");
    assert_datasets_equal(&d, &back);
    let raptor = back.creatures.get("Ark_Raptor").expect("creature kept");
    assert_eq!(raptor.name, "Raptor");
    assert_eq!(raptor.entity_id, "Raptor_Character_BP_C");
    let red = back.colors.get("Red").expect("color kept");
    assert_eq!(red.color_id, 5);
    assert_eq!(red.hex_code, "#FF0000");
    let icon = back.icons.get("Stone_Icon").expect("icon kept");
    assert_eq!(icon.path, "icons/items/Stone_Icon.png");
}

#[test]
fn round_trip_of_empty_dataset() {
    let mut d = ArkData::default();
    d.last_updated = 42;
    let text = dataset_to_json(&d);
    let back = dataset_from_json(&text).expect("empty dataset round-trips");
    assert_datasets_equal(&d, &back);
}

#[test]
fn round_trip_survives_special_characters() {
    let mut d = ArkData::default();
    d.last_updated = 0;
    let mut icons = CategoryMap::new();
    icons.insert(
        "odd \"name\"\\with\nbreaks\tand tabs".to_string(),
        Icon {
            kind: "icon".to_string(),
            name: "odd \"name\"\\with\nbreaks\tand tabs".to_string(),
            path: "a/b\\c\"d".to_string(),
        },
    );
    d.icons = icons;
    let text = dataset_to_json(&d);
    let back = dataset_from_json(&text).expect("escaped text parses");
    let icon = back
        .icons
        .get("odd \"name\"\\with\nbreaks\tand tabs")
        .expect("escaped key survives");
    assert_eq!(icon.path, "a/b\\c\"d");
}

#[test]
fn round_trip_of_extreme_timestamps() {
    let mut d = ArkData::default();
    d.last_updated = i64::MIN;
    let back = dataset_from_json(&dataset_to_json(&d)).expect("minimum timestamp");
    assert_eq!(back.last_updated, i64::MIN);
    d.last_updated = i64::MAX;
    let back = dataset_from_json(&dataset_to_json(&d)).expect("maximum timestamp");
    assert_eq!(back.last_updated, i64::MAX);
}

#[test]
fn serialized_form_is_plain_json() {
    let d = sample_dataset();
    let text = dataset_to_json(&d);
    let value: serde_json::Value =
        serde_json::from_str(&text).expect("the persisted form is valid JSON");
    let top = value.as_object().expect("a single JSON object");
    assert!(top.contains_key("creatures"));
    assert!(top.contains_key("items"));
    assert!(top.contains_key("engrams"));
    assert!(top.contains_key("beacons"));
    assert!(top.contains_key("colors"));
    assert!(top.contains_key("icons"));
    assert_eq!(top.get("version").and_then(|v| v.as_str()), Some("1.0.0"));
    assert_eq!(
        top.get("last_updated").and_then(|v| v.as_i64()),
        Some(1700000000)
    );
    let creatures = top
        .get("creatures")
        .and_then(|v| v.as_object())
        .expect("creatures is an object keyed by dedup key");
    assert!(creatures.contains_key("Ark_Raptor"));
}

#[test]
fn non_canonical_text_is_rejected() {
    // The reader is strict: only the exact serialized form is accepted.
    let d = sample_dataset();
    let text = dataset_to_json(&d);
    let padded = format!(" {text}");
    assert!(dataset_from_json(&padded).is_none());
    let with_leading_zero = text.replace("1700000000", "01700000000");
    assert!(dataset_from_json(&with_leading_zero).is_none());
    let reordered = text.replacen("\"creatures\"", "\"creaturez\"", 1);
    assert!(dataset_from_json(&reordered).is_none());
}

#[test]
fn corrupt_content_is_rejected() {
    assert!(dataset_from_json("").is_none());
    assert!(dataset_from_json("not json at all").is_none());
    assert!(dataset_from_json("{\"creatures\":{}}").is_none());
    assert!(dataset_from_json("{{{{").is_none());
    let d = sample_dataset();
    let text = dataset_to_json(&d);
    let truncated = &text[..text.len() - 1];
    assert!(dataset_from_json(truncated).is_none());
}
