use ark_data::history::{History, HistoryEntry};
use ark_data::types::ArkData;

fn entry(version: u32, description: &str) -> HistoryEntry {
    HistoryEntry::new(ArkData::default(), version, description.to_string())
}

#[test]
fn new_history_is_empty() {
    let h = History::new(10);
    assert!(!h.can_undo());
    assert!(!h.can_redo());
    assert!(h.current().is_none());
}

#[test]
fn push_then_current() {
    let mut h = History::new(10);
    h.push(entry(1, "first"));
    assert!(h.can_undo());
    assert!(!h.can_redo());
    let cur = h.current().expect("one entry pushed");
    assert_eq!(cur.version, 1);
    assert_eq!(cur.description, "first");
}

#[test]
fn undo_and_redo_walk_the_log() {
    let mut h = History::new(10);
    h.push(entry(1, "one"));
    h.push(entry(2, "two"));
    h.push(entry(3, "three"));
    // Undo returns the entry being undone; redo the entry restored.
    assert_eq!(h.undo().expect("undoes three").version, 3);
    assert_eq!(h.undo().expect("undoes two").version, 2);
    assert_eq!(h.current().expect("standing on one").version, 1);
    assert_eq!(h.redo().expect("restores two").version, 2);
    assert_eq!(h.current().expect("standing on two").version, 2);
}

#[test]
fn undo_at_start_is_none() {
    let mut h = History::new(5);
    assert!(h.undo().is_none());
    h.push(entry(1, "one"));
    assert!(h.undo().is_some());
    assert!(h.undo().is_none());
}

#[test]
fn redo_at_end_is_none() {
    let mut h = History::new(5);
    h.push(entry(1, "one"));
    assert!(h.redo().is_none());
}

#[test]
fn capacity_keeps_most_recent_in_order() {
    // Push max_entries + 1 entries with the index always at the end: the
    // store holds the most recent max_entries pushed, in order.
    let max = 3;
    let mut h = History::new(max);
    for v in 1..=(max as u32 + 1) {
        h.push(entry(v, "snapshot"));
    }
    assert!(!h.can_redo());
    assert_eq!(h.current().expect("newest kept").version, 4);
    assert_eq!(h.undo().expect("undoes the newest").version, 4);
    assert_eq!(h.undo().expect("undoes the middle one").version, 3);
    assert_eq!(h.undo().expect("undoes the oldest kept").version, 2);
    // The oldest pushed entry is gone: nothing is left to undo.
    assert!(h.undo().is_none());
}

#[test]
fn branch_discard_on_push() {
    // Push, undo, push-again discards the original future entry: redo
    // after the second push returns none.
    let mut h = History::new(10);
    h.push(entry(1, "base"));
    h.push(entry(2, "abandoned"));
    assert_eq!(h.undo().expect("undoes the abandoned entry").version, 2);
    assert!(h.can_redo());
    h.push(entry(3, "replacement"));
    assert!(h.redo().is_none());
    assert_eq!(h.current().expect("replacement on top").version, 3);
    assert_eq!(h.undo().expect("undoes the replacement").version, 3);
    assert_eq!(h.current().expect("base below").version, 1);
}

#[test]
fn zero_capacity_history_keeps_nothing() {
    let mut h = History::new(0);
    h.push(entry(1, "dropped at once"));
    assert!(h.current().is_none());
    assert!(!h.can_undo());
}
