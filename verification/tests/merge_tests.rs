use ark_data::category_map::CategoryMap;
use ark_data::merge::merge_scraped_data;
use ark_data::types::{ArkData, Creature};

fn creature(name: &str, entity_id: &str) -> Creature {
    Creature {
        kind: "creature".to_string(),
        name: name.to_string(),
        mod_name: "Ark".to_string(),
        entity_id: entity_id.to_string(),
        blueprint: "Blueprint'/Game/PrimalEarth/Test'".to_string(),
    }
}

fn dataset_with_creatures(entries: &[(&str, &str)]) -> ArkData {
    let mut creatures: CategoryMap<Creature> = CategoryMap::new();
    for (key, entity) in entries {
        creatures.insert(key.to_string(), creature(key, entity));
    }
    let mut d = ArkData::default();
    d.creatures = creatures;
    d
}

#[test]
fn merge_fills_gaps() {
    let base = dataset_with_creatures(&[("Raptor", "Raptor_C")]);
    let incoming = dataset_with_creatures(&[("Dodo", "Dodo_C")]);
    let merged = merge_scraped_data(base, incoming).expect("merge always succeeds");
    assert_eq!(merged.creatures.len(), 2);
    assert!(merged.creatures.contains_key("Raptor"));
    assert!(merged.creatures.contains_key("Dodo"));
}

#[test]
fn merge_never_overwrites_existing_keys() {
    // First write wins: base's record survives a colliding incoming key.
    let base = dataset_with_creatures(&[("Raptor", "Kept_C")]);
    let incoming = dataset_with_creatures(&[("Raptor", "Clobbered_C")]);
    let merged = merge_scraped_data(base, incoming).expect("merge always succeeds");
    assert_eq!(merged.creatures.len(), 1);
    let kept = merged.creatures.get("Raptor").expect("key still present");
    assert_eq!(kept.entity_id, "Kept_C");
}

#[test]
fn merge_is_idempotent() {
    let a = dataset_with_creatures(&[("Raptor", "Raptor_C"), ("Dodo", "Dodo_C")]);
    let b = dataset_with_creatures(&[("Raptor", "Raptor_C"), ("Dodo", "Dodo_C")]);
    let merged = merge_scraped_data(a, b).expect("merge always succeeds");
    assert_eq!(merged.creatures.len(), 2);
    assert_eq!(
        merged.creatures.get("Raptor").expect("kept").entity_id,
        "Raptor_C"
    );
    assert_eq!(merged.creatures.get("Dodo").expect("kept").entity_id, "Dodo_C");
}

#[test]
fn merge_with_empty_changes_nothing() {
    let a = dataset_with_creatures(&[("Raptor", "Raptor_C")]);
    let empty = ArkData::default();
    let merged = merge_scraped_data(a, empty).expect("merge always succeeds");
    assert_eq!(merged.creatures.len(), 1);
    assert_eq!(
        merged.creatures.get("Raptor").expect("kept").entity_id,
        "Raptor_C"
    );
}

#[test]
fn merge_keeps_base_version_and_timestamp() {
    let mut base = dataset_with_creatures(&[]);
    base.version = "1.0.0".to_string();
    base.last_updated = 12345;
    let incoming = dataset_with_creatures(&[]);
    let merged = merge_scraped_data(base, incoming).expect("merge always succeeds");
    assert_eq!(merged.version, "1.0.0");
    assert_eq!(merged.last_updated, 12345);
}

#[test]
fn merge_covers_every_category() {
    // Merging is per category over all six maps: an icon present only in
    // the incoming dataset is carried over.
    let base = ArkData::default();
    let mut incoming = ArkData::default();
    let mut icons = CategoryMap::new();
    icons.insert(
        "Stone_Icon".to_string(),
        ark_data::types::Icon {
            kind: "icon".to_string(),
            name: "Stone_Icon".to_string(),
            path: "icons/items/Stone_Icon.png".to_string(),
        },
    );
    incoming.icons = icons;
    let merged = merge_scraped_data(base, incoming).expect("merge always succeeds");
    assert!(merged.icons.contains_key("Stone_Icon"));
}

#[test]
fn category_map_insert_is_last_write_wins() {
    // Within one extraction run the last write wins; keys stay unique.
    let mut m: CategoryMap<Creature> = CategoryMap::new();
    m.insert("Raptor".to_string(), creature("Raptor", "First_C"));
    m.insert("Raptor".to_string(), creature("Raptor", "Second_C"));
    assert_eq!(m.len(), 1);
    assert_eq!(m.get("Raptor").expect("kept").entity_id, "Second_C");
}
