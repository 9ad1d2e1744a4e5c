use ark_data::beacons::{beacons_from_page, should_skip_beacon};
use ark_data::colors::{colors_from_entries, ColorEntry};
use ark_data::creatures::{
    creatures_from_page, extract_mod_from_header, generate_unique_key, should_skip_creature,
};
use ark_data::engrams::{
    class_names_from_rows, engram_from_page, engram_links, insert_engram_result, should_skip_engram,
    EngramPage,
};
use ark_data::icons::icons_from_manifest;
use ark_data::items::{finish_items, items_from_page, should_skip_item};
use ark_data::category_map::CategoryMap;
use ark_data::page::{PageCell, PageLink, PageNode, TableRow};

fn link(title: Option<&str>, text: &str) -> PageLink {
    PageLink {
        href: None,
        title: title.map(|t| t.to_string()),
        text: text.to_string(),
    }
}

fn cell_with_link(title: Option<&str>, text: &str) -> PageCell {
    PageCell {
        links: vec![link(title, text)],
        text: text.to_string(),
        html: String::new(),
    }
}

fn text_cell(text: &str) -> PageCell {
    PageCell {
        links: Vec::new(),
        text: text.to_string(),
        html: String::new(),
    }
}

fn creature_row(name: &str, entity_id: &str, blueprint_text: &str) -> TableRow {
    TableRow {
        cells: vec![
            cell_with_link(Some(name), name),
            text_cell("type"),
            text_cell("id"),
            text_cell(entity_id),
            text_cell(blueprint_text),
        ],
    }
}

#[test]
fn creature_skip_patterns() {
    assert!(should_skip_creature("Alpha Raptor"));
    assert!(should_skip_creature("VR Boss"));
    assert!(should_skip_creature("Malfunctioned Tek Giganotosaurus"));
    assert!(!should_skip_creature("Raptor"));
    assert!(!should_skip_creature("Dodo"));
}

#[test]
fn creature_scenario_alpha_dropped_base_game_kept() {
    // An extracted row named "Alpha Raptor" is absent; a "Raptor" row with
    // a PrimalEarth blueprint is attributed to the base game, keyed under
    // the mod-prefixed display name.
    let header = TableRow {
        cells: vec![text_cell("Name"), text_cell("Type"), text_cell("Id")],
    };
    let rows = vec![
        header,
        creature_row(
            "Alpha Raptor",
            "MegaRaptor_Character_BP_C",
            "cheat Blueprint'/Game/PrimalEarth/Dinos/Raptor/MegaRaptor_Character_BP.MegaRaptor_Character_BP'",
        ),
        creature_row(
            "Raptor",
            "Raptor_Character_BP_C",
            "cheat Blueprint'/Game/PrimalEarth/Dinos/Raptor/Raptor_Character_BP.Raptor_Character_BP'",
        ),
    ];
    let nodes = vec![PageNode::Table(rows)];
    let m = creatures_from_page(&nodes);
    assert_eq!(m.len(), 1);
    assert!(!m.contains_key("Ark_Alpha_Raptor"));
    let raptor = m.get("Ark_Raptor").expect("base-game raptor extracted");
    assert_eq!(raptor.name, "Raptor");
    assert_eq!(raptor.mod_name, "Ark");
    assert_eq!(raptor.entity_id, "Raptor_Character_BP_C");
    assert_eq!(
        raptor.blueprint,
        "Blueprint'/Game/PrimalEarth/Dinos/Raptor/Raptor_Character_BP.Raptor_Character_BP'"
    );
}

#[test]
fn creature_heading_switches_mod() {
    let header = TableRow { cells: vec![text_cell("Name")] };
    let nodes = vec![
        PageNode::Heading("Scorched Earth creatures".to_string()),
        PageNode::Table(vec![
            header,
            creature_row(
                "Mantis",
                "Mantis_Character_BP_C",
                "Blueprint'/Game/ScorchedEarth/Dinos/Mantis/Mantis_Character_BP.Mantis_Character_BP'",
            ),
        ]),
    ];
    let m = creatures_from_page(&nodes);
    let mantis = m
        .get("Scorched_Earth_Mantis")
        .expect("mod-prefixed key from the heading");
    assert_eq!(mantis.mod_name, "Scorched Earth");
}

#[test]
fn unique_key_replaces_spaces_and_dashes() {
    assert_eq!(generate_unique_key("T-Rex Bone", "bp", "Scorched Earth"), "Scorched_Earth_T_Rex_Bone");
    assert_eq!(extract_mod_from_header("Genesis creatures"), "Genesis");
    assert_eq!(extract_mod_from_header("Base creatures"), "Ark");
}

#[test]
fn beacon_rows_expand_class_names() {
    let header = TableRow { cells: vec![text_cell("Name")] };
    let row = TableRow {
        cells: vec![
            text_cell("White Beacon"),
            PageCell {
                links: Vec::new(),
                text: String::new(),
                html: "SupplyCrate_Level03_C\nSupplyCrate_Level03_Double_C".to_string(),
            },
        ],
    };
    let nodes = vec![PageNode::Table(vec![header, row])];
    let m = beacons_from_page(&nodes);
    assert_eq!(m.len(), 2);
    let first = m.get("Ark_White_Beacon").expect("first class name");
    assert_eq!(first.class_name, "SupplyCrate_Level03_C");
    assert_eq!(first.name, "White Beacon");
    let second = m.get("Ark_White_Beacon_(Double)").expect("second class name");
    assert_eq!(second.class_name, "SupplyCrate_Level03_Double_C");
    assert_eq!(second.name, "White Beacon (Double)");
}

#[test]
fn beacon_skip_patterns() {
    assert!(should_skip_beacon("Genesis_2_Supply_Crate"));
    assert!(should_skip_beacon("Star_Dolphin"));
    assert!(!should_skip_beacon("White Beacon"));
}

fn color_entry(id: Option<&str>, name: Option<&str>, hex: Option<&str>) -> ColorEntry {
    ColorEntry {
        id_text: id.map(|s| s.to_string()),
        name_text: name.map(|s| s.to_string()),
        hex_text: hex.map(|s| s.to_string()),
    }
}

#[test]
fn color_scenario_red_coloring() {
    // Numeric id "5", name "Red Coloring", hex "#FF0000" yields a record
    // keyed "Red" with the hex code kept.
    let entries = vec![color_entry(Some("5"), Some("Red Coloring"), Some("#FF0000"))];
    let m = colors_from_entries(&entries);
    assert_eq!(m.len(), 1);
    let red = m.get("Red").expect("keyed by the stripped name");
    assert_eq!(red.name, "Red");
    assert_eq!(red.color_id, 5);
    assert_eq!(red.hex_code, "#FF0000");
}

#[test]
fn color_bad_id_is_skipped() {
    let entries = vec![
        color_entry(Some("x"), Some("Broken Coloring"), Some("#000000")),
        color_entry(None, Some("Missing Coloring"), Some("#000000")),
        color_entry(Some("-2"), Some("Negative Coloring"), Some("#000000")),
    ];
    let m = colors_from_entries(&entries);
    assert_eq!(m.len(), 0);
}

#[test]
fn color_missing_name_uses_placeholder() {
    let entries = vec![color_entry(Some("7"), None, None)];
    let m = colors_from_entries(&entries);
    let c = m.get("Color_7").expect("placeholder name from the id");
    assert_eq!(c.name, "Color_7");
    assert_eq!(c.hex_code, "");
}

#[test]
fn icons_from_manifest_take_the_stem() {
    let m = icons_from_manifest("icons/items/Stone_Icon.png\nicons/dinos/Raptor.png\n");
    assert_eq!(m.len(), 2);
    let stone = m.get("Stone_Icon").expect("stem of the first line");
    assert_eq!(stone.name, "Stone_Icon");
    assert_eq!(stone.path, "icons/items/Stone_Icon.png");
    let raptor = m.get("Raptor").expect("stem of the second line");
    assert_eq!(raptor.path, "icons/dinos/Raptor.png");
}

#[test]
fn engram_class_names_and_page() {
    let header = TableRow { cells: vec![text_cell("Name")] };
    let class_rows = vec![
        header,
        TableRow {
            cells: vec![
                cell_with_link(None, "Campfire"),
                text_cell("EngramEntry_Campfire_C"),
            ],
        },
    ];
    let class_names = class_names_from_rows(&class_rows);
    assert_eq!(
        class_names.get("Campfire").expect("indexed by display name"),
        "EngramEntry_Campfire_C"
    );

    let page = EngramPage {
        title: Some("Campfire".to_string()),
        commands: vec![
            "cheat GiveItem".to_string(),
            "cheat Blueprint'/Game/PrimalEarth/Structures/Campfire.Campfire'".to_string(),
        ],
    };
    let (key, engram) = engram_from_page(&page, &class_names).expect("page yields a record");
    assert_eq!(key, "Campfire");
    assert_eq!(engram.class_name, "EngramEntry_Campfire_C");
    assert_eq!(engram.mod_name, "Ark");
    assert_eq!(
        engram.blueprint,
        "Blueprint'/Game/PrimalEarth/Structures/Campfire.Campfire'"
    );
}

#[test]
fn engram_without_blueprint_gets_sentinel_and_fallback_class() {
    let class_names: CategoryMap<String> = CategoryMap::new();
    let page = EngramPage {
        title: Some("Tek Shield".to_string()),
        commands: vec!["nothing useful".to_string()],
    };
    let (key, engram) = engram_from_page(&page, &class_names).expect("still a record");
    assert_eq!(key, "Tek_Shield");
    assert_eq!(engram.blueprint, "Unknown");
    assert_eq!(engram.mod_name, "Unknown");
    assert_eq!(engram.class_name, "EngramEntry_Tek_Shield_C");
}

#[test]
fn engram_skip_and_missing_title() {
    let class_names: CategoryMap<String> = CategoryMap::new();
    assert!(should_skip_engram("Platform_Cart thing"));
    let skipped = EngramPage {
        title: Some("Platform_Cart".to_string()),
        commands: Vec::new(),
    };
    assert!(engram_from_page(&skipped, &class_names).is_none());
    let untitled = EngramPage { title: None, commands: Vec::new() };
    assert!(engram_from_page(&untitled, &class_names).is_none());
}

#[test]
fn engram_links_are_absolute() {
    let header = TableRow { cells: vec![text_cell("Name")] };
    let row = TableRow {
        cells: vec![PageCell {
            links: vec![PageLink {
                href: Some("/wiki/Campfire".to_string()),
                title: None,
                text: "Campfire".to_string(),
            }],
            text: "Campfire".to_string(),
            html: String::new(),
        }],
    };
    let nodes = vec![PageNode::Table(vec![header, row])];
    let links = engram_links(&nodes);
    assert_eq!(links.len(), 1);
    assert_eq!(links[0], "https://ark.wiki.gg/wiki/Campfire");
}

#[test]
fn engram_results_accumulate_in_completion_order() {
    let mut m: CategoryMap<ark_data::types::Engram> = CategoryMap::new();
    let class_names: CategoryMap<String> = CategoryMap::new();
    let page = EngramPage {
        title: Some("Campfire".to_string()),
        commands: Vec::new(),
    };
    let result = engram_from_page(&page, &class_names);
    insert_engram_result(&mut m, result);
    insert_engram_result(&mut m, None);
    assert_eq!(m.len(), 1);
    assert!(m.contains_key("Campfire"));
}

fn item_row(name: &str, kind: &str, class_name: &str, blueprint_text: &str) -> TableRow {
    TableRow {
        cells: vec![
            cell_with_link(Some(name), name),
            text_cell(kind),
            text_cell("stack"),
            text_cell("id"),
            text_cell(class_name),
            text_cell(blueprint_text),
        ],
    }
}

#[test]
fn items_extracted_with_mod_from_blueprint() {
    let header = TableRow { cells: vec![text_cell("Name")] };
    let rows = vec![
        header,
        item_row(
            "Stone",
            "Resource",
            "PrimalItemResource_Stone_C",
            "cheat Blueprint'/Game/PrimalEarth/Resources/PrimalItemResource_Stone.PrimalItemResource_Stone'",
        ),
    ];
    let nodes = vec![PageNode::Table(rows)];
    let mut items = CategoryMap::new();
    let added = items_from_page(&nodes, "Resources", &mut items);
    assert!(added);
    let stone = items.get("Stone").expect("keyed by display name");
    assert_eq!(stone.kind, "Resource");
    assert_eq!(stone.mod_name, "Ark");
    assert_eq!(stone.class_name, "PrimalItemResource_Stone_C");
}

#[test]
fn item_skip_and_zero_items_rule() {
    assert!(should_skip_item("undefined"));
    assert!(should_skip_item("Beer_Jar_thing"));
    assert!(!should_skip_item("Stone"));

    let empty: CategoryMap<ark_data::types::Item> = CategoryMap::new();
    match finish_items(empty) {
        Err(err) => assert_eq!(err, "No items were successfully scraped"),
        Ok(_) => panic!("zero items is a category failure"),
    }

    let mut one = CategoryMap::new();
    one.insert(
        "Stone".to_string(),
        ark_data::types::Item {
            kind: "Resource".to_string(),
            name: "Stone".to_string(),
            mod_name: "Ark".to_string(),
            class_name: "PrimalItemResource_Stone_C".to_string(),
            blueprint: "Blueprint'/Game/X'".to_string(),
        },
    );
    assert!(finish_items(one).is_ok());
}

#[test]
fn creature_without_blueprint_gets_the_sentinel() {
    // A data row whose blueprint cell has no readable blueprint still
    // yields a record, with the explicit sentinel; absence is no failure.
    let header = TableRow { cells: vec![text_cell("Name")] };
    let rows = vec![
        header,
        creature_row("Dodo", "Dodo_Character_BP_C", "no blueprint in this cell"),
    ];
    let nodes = vec![PageNode::Table(rows)];
    let m = creatures_from_page(&nodes);
    let dodo = m.get("Ark_Dodo").expect("the row still yields a record");
    assert_eq!(dodo.blueprint, "Unknown");
    assert_eq!(dodo.mod_name, "Ark");
    assert_eq!(dodo.entity_id, "Dodo_Character_BP_C");
}

#[test]
fn item_without_blueprint_gets_the_sentinel() {
    let header = TableRow { cells: vec![text_cell("Name")] };
    let rows = vec![
        header,
        item_row("Mystery Box", "Misc", "PrimalItem_Mystery_C", "nothing to match"),
    ];
    let nodes = vec![PageNode::Table(rows)];
    let mut items = CategoryMap::new();
    let added = items_from_page(&nodes, "Resources", &mut items);
    assert!(added);
    let mystery = items.get("Mystery_Box").expect("the row still yields a record");
    assert_eq!(mystery.blueprint, "Unknown");
    assert_eq!(mystery.mod_name, "Unknown");
    assert_eq!(mystery.class_name, "PrimalItem_Mystery_C");
}

#[test]
fn extraction_keys_are_unique() {
    // Two rows with the same display name collide on the key: the later
    // row overwrites the earlier one instead of duplicating the key.
    let header = TableRow { cells: vec![text_cell("Name")] };
    let rows = vec![
        header,
        creature_row("Raptor", "First_C", "Blueprint'/Game/PrimalEarth/A'"),
        creature_row("Raptor", "Second_C", "Blueprint'/Game/PrimalEarth/B'"),
    ];
    let nodes = vec![PageNode::Table(rows)];
    let m = creatures_from_page(&nodes);
    assert_eq!(m.len(), 1);
    assert_eq!(m.get("Ark_Raptor").expect("one survivor").entity_id, "Second_C");
}
