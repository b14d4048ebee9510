use autoxrandr::db::{AutoRandrDB, SaveOutcome, StoreError};
use autoxrandr::rotation::Rotation;
use autoxrandr::state::{Output, State};

fn layout(name: &str, edid: u64, x: i16) -> State {
    State {
        outputs: vec![Output {
            name: name.to_string(),
            edid,
            is_primary: true,
            is_connected: true,
            mapped: true,
            position: Some((x, 0)),
            rotate: Rotation::Normal,
            mode: Some((1920, 1080)),
        }],
    }
}

#[test]
fn new_store_finds_nothing() {
    let db = AutoRandrDB::new();
    assert_eq!(db.get_state(""), Err(StoreError::NotFound));
    assert_eq!(db.get_state("DP-1-12345"), Err(StoreError::NotFound));
}

#[test]
fn saved_layout_is_found_under_its_signature() {
    let mut db = AutoRandrDB::new();
    let state = layout("DP-1", 12345, 0);
    assert_eq!(db.save_state(&state), SaveOutcome::Inserted);
    assert_eq!(db.get_state(&state.outputs_sign()), Ok(state.clone()));
    assert_eq!(db.get_state("DP-1-12345"), Ok(state));
    assert_eq!(db.get_state("DP-1-1234"), Err(StoreError::NotFound));
    assert_eq!(db.get_state("DP-1-123456"), Err(StoreError::NotFound));
}

#[test]
fn saving_twice_writes_once() {
    let mut db = AutoRandrDB::new();
    let state = layout("DP-1", 12345, 0);
    assert_eq!(db.save_state(&state), SaveOutcome::Inserted);
    assert_eq!(db.save_state(&state), SaveOutcome::Unchanged);
    assert_eq!(db.save_state(&state.clone()), SaveOutcome::Unchanged);
    assert_eq!(db.get_state("DP-1-12345"), Ok(state.clone()));
    assert!(db.remove_state(&state));
    assert_eq!(db.get_state("DP-1-12345"), Err(StoreError::NotFound));
    assert!(!db.remove_state(&state));
}

#[test]
fn differing_layout_overwrites() {
    let mut db = AutoRandrDB::new();
    let first = layout("DP-1", 12345, 0);
    let second = layout("DP-1", 12345, 1920);
    assert_eq!(first.outputs_sign(), second.outputs_sign());
    assert_eq!(db.save_state(&first), SaveOutcome::Inserted);
    assert_eq!(db.save_state(&second), SaveOutcome::Updated);
    assert_eq!(db.get_state("DP-1-12345"), Ok(second.clone()));
    assert_eq!(db.save_state(&second), SaveOutcome::Unchanged);
    assert_eq!(db.save_state(&first), SaveOutcome::Updated);
    assert_eq!(db.get_state("DP-1-12345"), Ok(first));
}

#[test]
fn removed_layout_is_not_found() {
    let mut db = AutoRandrDB::new();
    let state = layout("DP-1", 12345, 0);
    db.save_state(&state);
    assert!(db.remove_state(&state));
    assert_eq!(db.get_state(&state.outputs_sign()), Err(StoreError::NotFound));
}

#[test]
fn removal_goes_by_signature() {
    let mut db = AutoRandrDB::new();
    let stored = layout("DP-1", 12345, 0);
    let live = layout("DP-1", 12345, 640);
    db.save_state(&stored);
    assert!(db.remove_state(&live));
    assert_eq!(db.get_state("DP-1-12345"), Err(StoreError::NotFound));
}

#[test]
fn removing_from_an_empty_store_changes_nothing() {
    let mut db = AutoRandrDB::new();
    assert!(!db.remove_state(&layout("DP-1", 1, 0)));
    assert_eq!(db.get_state("DP-1-1"), Err(StoreError::NotFound));
}

#[test]
fn entries_do_not_disturb_each_other() {
    let mut db = AutoRandrDB::new();
    let a = layout("DP-1", 1, 0);
    let b = layout("DP-1", 2, 10);
    let c = layout("HDMI-1", 1, 20);
    assert_eq!(db.save_state(&a), SaveOutcome::Inserted);
    assert_eq!(db.save_state(&b), SaveOutcome::Inserted);
    assert_eq!(db.save_state(&c), SaveOutcome::Inserted);
    assert_eq!(db.get_state("DP-1-1"), Ok(a.clone()));
    assert_eq!(db.get_state("DP-1-2"), Ok(b.clone()));
    assert_eq!(db.get_state("HDMI-1-1"), Ok(c.clone()));
    assert!(db.remove_state(&b));
    assert_eq!(db.get_state("DP-1-1"), Ok(a.clone()));
    assert_eq!(db.get_state("DP-1-2"), Err(StoreError::NotFound));
    assert_eq!(db.get_state("HDMI-1-1"), Ok(c.clone()));
    let moved = layout("DP-1", 1, 99);
    assert_eq!(db.save_state(&moved), SaveOutcome::Updated);
    assert_eq!(db.get_state("DP-1-1"), Ok(moved));
    assert_eq!(db.get_state("HDMI-1-1"), Ok(c));
}

#[test]
fn snapshot_without_connected_output_is_kept_under_the_empty_signature() {
    let mut db = AutoRandrDB::new();
    let state = State { outputs: Vec::new() };
    assert_eq!(db.save_state(&state), SaveOutcome::Inserted);
    assert_eq!(db.get_state(""), Ok(state));
}
