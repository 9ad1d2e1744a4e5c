use ark_data::fetch::{AttemptOutcome, FetchStep, RetryState, BACKOFF_SECONDS, DEFAULT_RETRIES, TIMEOUT_SECONDS};
use ark_data::orchestrate::{stage_complete_progress, stage_names, stage_start_progress};
use ark_data::progress::{clamp_progress, scaled_progress, ScrapingProgress, PROGRESS_SCALE};
use ark_data::types::{Beacon, Color, Creature, Engram, Item};
use ark_data::validate::{
    validate_beacon, validate_color, validate_creature, validate_engram, validate_entry,
    validate_item, EntryData,
};

#[test]
fn retry_scenario_two_failures_then_success() {
    // A client with 3 retries that fails twice then succeeds on the third
    // attempt returns the body, and the decision after the final attempt
    // is to hand the body over, never to sleep again.
    let mut state = RetryState::with_retries(3);
    let first = state.on_attempt(AttemptOutcome::TransportError("refused".to_string()));
    assert!(matches!(first, FetchStep::RetryAfterBackoff));
    let second = state.on_attempt(AttemptOutcome::HttpStatus(503));
    assert!(matches!(second, FetchStep::RetryAfterBackoff));
    let third = state.on_attempt(AttemptOutcome::Success("<html>page</html>".to_string()));
    match third {
        FetchStep::Done(body) => assert_eq!(body, "<html>page</html>"),
        _ => panic!("the successful attempt must return the body"),
    }
}

#[test]
fn retry_exhaustion_surfaces_the_last_error() {
    let mut state = RetryState::with_retries(2);
    assert!(matches!(
        state.on_attempt(AttemptOutcome::HttpStatus(500)),
        FetchStep::RetryAfterBackoff
    ));
    match state.on_attempt(AttemptOutcome::HttpStatus(404)) {
        FetchStep::Fail(AttemptOutcome::HttpStatus(code)) => assert_eq!(code, 404),
        _ => panic!("the last failure must be surfaced"),
    }
}

#[test]
fn immediate_success_needs_no_retry() {
    let mut state = RetryState::new();
    assert_eq!(state.retries_left, DEFAULT_RETRIES);
    match state.on_attempt(AttemptOutcome::Success("body".to_string())) {
        FetchStep::Done(body) => assert_eq!(body, "body"),
        _ => panic!("success returns at once"),
    }
    assert_eq!(state.retries_left, DEFAULT_RETRIES);
}

#[test]
fn fetch_configuration_defaults() {
    assert_eq!(DEFAULT_RETRIES, 3);
    assert_eq!(BACKOFF_SECONDS, 1);
    assert_eq!(TIMEOUT_SECONDS, 30);
}

#[test]
fn stage_order_and_progress() {
    let names = stage_names();
    assert_eq!(
        names,
        vec!["creatures", "items", "engrams", "beacons", "colors", "icons"]
    );
    assert_eq!(stage_start_progress(0, 6), 0);
    assert_eq!(stage_start_progress(3, 6), PROGRESS_SCALE / 2);
    assert_eq!(stage_complete_progress(5, 6), PROGRESS_SCALE);
    assert_eq!(scaled_progress(1, 3), 3333);
    assert_eq!(clamp_progress(20000), PROGRESS_SCALE);
    assert_eq!(clamp_progress(17), 17);
}

#[test]
fn progress_event_fields() {
    let e = ScrapingProgress::new("creatures", 5000, "halfway");
    assert_eq!(e.stage, "creatures");
    assert_eq!(e.progress, 5000);
    assert_eq!(e.message, "halfway");
}

fn good_creature() -> Creature {
    Creature {
        kind: "creature".to_string(),
        name: "Raptor".to_string(),
        mod_name: "Ark".to_string(),
        entity_id: "Raptor_Character_BP_C".to_string(),
        blueprint: "Blueprint'/Game/PrimalEarth/Raptor.Raptor'".to_string(),
    }
}

#[test]
fn creature_validation() {
    assert_eq!(validate_creature(&good_creature()), Ok(true));
    let mut bad_bp = good_creature();
    bad_bp.blueprint = "/Game/NoPrefix".to_string();
    assert_eq!(
        validate_creature(&bad_bp),
        Err("Invalid blueprint format".to_string())
    );
    let mut bad_id = good_creature();
    bad_id.entity_id = "Raptor".to_string();
    assert_eq!(
        validate_creature(&bad_id),
        Err("Invalid entity ID format".to_string())
    );
}

#[test]
fn item_engram_beacon_validation() {
    let item = Item {
        kind: "Resource".to_string(),
        name: "Stone".to_string(),
        mod_name: "Ark".to_string(),
        class_name: "PrimalItemResource_Stone_C".to_string(),
        blueprint: "Blueprint'/Game/PrimalEarth/Stone.Stone'".to_string(),
    };
    assert_eq!(validate_item(&item), Ok(true));
    let mut bad = item.clone();
    bad.class_name = "NoSuffix".to_string();
    assert_eq!(validate_item(&bad), Err("Invalid class name format".to_string()));

    let engram = Engram {
        kind: "engram".to_string(),
        name: "Campfire".to_string(),
        mod_name: "Ark".to_string(),
        blueprint: "Blueprint'/Game/PrimalEarth/Campfire.Campfire'".to_string(),
        class_name: "EngramEntry_Campfire_C".to_string(),
    };
    assert_eq!(validate_engram(&engram), Ok(true));
    let mut bad = engram.clone();
    bad.blueprint = "Unknown".to_string();
    assert_eq!(validate_engram(&bad), Err("Invalid blueprint format".to_string()));

    let beacon = Beacon {
        kind: "beacon".to_string(),
        name: "White Beacon".to_string(),
        mod_name: "Ark".to_string(),
        class_name: "SupplyCrate_Level03_C".to_string(),
    };
    assert_eq!(validate_beacon(&beacon), Ok(true));
    let mut bad = beacon.clone();
    bad.class_name = "SupplyCrate".to_string();
    assert_eq!(validate_beacon(&bad), Err("Invalid class name format".to_string()));
}

#[test]
fn color_validation() {
    let color = Color {
        kind: "color".to_string(),
        name: "Red".to_string(),
        color_id: 5,
        hex_code: "#FF0000".to_string(),
    };
    assert_eq!(validate_color(&color), Ok(true));
    let mut bad = color.clone();
    bad.hex_code = "FF0000".to_string();
    assert_eq!(validate_color(&bad), Err("Invalid hex code format".to_string()));
    let mut bad = color.clone();
    bad.hex_code = "#FF00".to_string();
    assert_eq!(validate_color(&bad), Err("Invalid hex code format".to_string()));
    let mut bad = color.clone();
    bad.hex_code = "#GG0000".to_string();
    assert_eq!(validate_color(&bad), Err("Invalid hex code format".to_string()));
}

#[test]
fn entry_dispatch() {
    let data = EntryData::Creature(good_creature());
    assert_eq!(validate_entry("creatures", &data), Ok(true));
    assert_eq!(
        validate_entry("items", &data),
        Err("Invalid item data".to_string())
    );
    assert_eq!(
        validate_entry("paintings", &data),
        Err("Invalid category".to_string())
    );
}
