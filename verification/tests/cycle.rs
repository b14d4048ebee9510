use autoxrandr::cli::Cli;
use autoxrandr::db::{AutoRandrDB, StoreError};
use autoxrandr::hook::{command_from_words, on_remap_command, HookCommand};
use autoxrandr::poll::{
    classify, finish_cycle, plan_cycle, reapply_plan, CycleEnd, CyclePlan, Pending, PowerState,
    StoreChange,
};
use autoxrandr::rotation::Rotation;
use autoxrandr::state::{Output, State};
use autoxrandr::xrandr::XrandrCmd;

fn cycle_output(name: &str, edid: u64, connected: bool, geometry: Option<(i16, i16)>) -> Output {
    Output {
        name: name.to_string(),
        edid,
        is_primary: false,
        is_connected: connected,
        mapped: geometry.is_some(),
        position: geometry,
        rotate: Rotation::Normal,
        mode: geometry.map(|_| (1920, 1080)),
    }
}

fn arguments(args: &[&str]) -> Vec<String> {
    args.iter().map(|arg| arg.to_string()).collect()
}

#[test]
fn classification() {
    let stable = State { outputs: vec![cycle_output("DP-1", 1, true, Some((0, 0))), cycle_output("DP-2", 0, false, None)] };
    assert_eq!(classify(&stable), Pending::Stable);
    let map = State { outputs: vec![cycle_output("DP-1", 1, true, None)] };
    assert_eq!(classify(&map), Pending::MapPending);
    let unmap = State { outputs: vec![cycle_output("DP-1", 1, false, Some((0, 0)))] };
    assert_eq!(classify(&unmap), Pending::UnmapPending);
    assert_eq!(classify(&State { outputs: Vec::new() }), Pending::Stable);
}

#[test]
fn unmapping_goes_before_mapping() {
    let both = State {
        outputs: vec![cycle_output("eDP-1", 1, false, Some((0, 0))), cycle_output("DP-1", 2, true, None)],
    };
    assert!(both.should_map());
    assert!(both.should_unmap());
    assert_eq!(classify(&both), Pending::UnmapPending);
}

#[test]
fn unseen_display_is_left_alone() {
    let mut db = AutoRandrDB::new();
    let live = State { outputs: vec![cycle_output("DP-1", 12345, true, None)] };
    assert_eq!(live.outputs_sign(), "DP-1-12345");
    assert_eq!(classify(&live), Pending::MapPending);
    let plan = plan_cycle(&db, &live);
    assert_eq!(plan, CyclePlan::Leave);
    let end = finish_cycle(&mut db, &live, &plan, true);
    assert_eq!(end, CycleEnd { remapped: false, store: StoreChange::Untouched });
    assert_eq!(db.get_state("DP-1-12345"), Err(StoreError::NotFound));
}

#[test]
fn lid_closed_issues_unmap_only_plan() {
    let mut db = AutoRandrDB::new();
    let live = State {
        outputs: vec![
            cycle_output("eDP-1", 7, false, Some((0, 0))),
            cycle_output("DP-1", 9, true, Some((1920, 0))),
        ],
    };
    assert_eq!(classify(&live), Pending::UnmapPending);
    let plan = plan_cycle(&db, &live);
    let expected = arguments(&[
        "--output", "eDP-1", "--off", "--output", "DP-1", "--mode", "1920x1080", "--pos", "1920x0",
        "--rotate", "normal",
    ]);
    match &plan {
        CyclePlan::Unmap(cmd) => assert_eq!(cmd.args(), &expected),
        other => panic!("unexpected plan {other:?}"),
    }
    for applied in [true, false] {
        let end = finish_cycle(&mut db, &live, &plan, applied);
        assert_eq!(end, CycleEnd { remapped: true, store: StoreChange::Untouched });
    }
    assert_eq!(db.get_state("DP-1-9"), Err(StoreError::NotFound));
}

#[test]
fn reattached_dock_restores_stored_layout() {
    let mut db = AutoRandrDB::new();
    let stored = State {
        outputs: vec![
            cycle_output("DP-2", 22, true, Some((0, 0))),
            cycle_output("DP-1", 11, true, Some((1920, 0))),
        ],
    };
    let first = plan_cycle(&db, &stored);
    assert_eq!(first, CyclePlan::Save);
    assert_eq!(finish_cycle(&mut db, &stored, &first, true).store, StoreChange::Inserted);
    let live = State {
        outputs: vec![cycle_output("DP-2", 22, true, Some((0, 0))), cycle_output("DP-1", 11, true, None)],
    };
    assert_eq!(live.outputs_sign(), stored.outputs_sign());
    let plan = plan_cycle(&db, &live);
    let expected = arguments(&[
        "--output", "DP-2", "--mode", "1920x1080", "--pos", "0x0", "--rotate", "normal", "--output",
        "DP-1", "--mode", "1920x1080", "--pos", "1920x0", "--rotate", "normal",
    ]);
    assert_eq!(plan, CyclePlan::Restore(XrandrCmd::new(expected)));
    let end = finish_cycle(&mut db, &live, &plan, true);
    assert_eq!(end, CycleEnd { remapped: true, store: StoreChange::Untouched });
    assert_eq!(db.get_state(&live.outputs_sign()), Ok(stored));
}

#[test]
fn failed_restore_evicts_the_layout() {
    let mut db = AutoRandrDB::new();
    let stored = State { outputs: vec![cycle_output("DP-1", 11, true, Some((0, 0)))] };
    db.save_state(&stored);
    let live = State { outputs: vec![cycle_output("DP-1", 11, true, None)] };
    let plan = plan_cycle(&db, &live);
    assert!(matches!(plan, CyclePlan::Restore(_)));
    let end = finish_cycle(&mut db, &live, &plan, false);
    assert_eq!(end, CycleEnd { remapped: false, store: StoreChange::Evicted });
    assert_eq!(db.get_state("DP-1-11"), Err(StoreError::NotFound));
    assert_eq!(plan_cycle(&db, &live), CyclePlan::Leave);
}

#[test]
fn stored_layout_wins_over_unmap_plan() {
    let mut db = AutoRandrDB::new();
    let stored = State {
        outputs: vec![cycle_output("eDP-1", 7, false, None), cycle_output("DP-1", 9, true, Some((0, 0)))],
    };
    db.save_state(&stored);
    let live = State {
        outputs: vec![
            cycle_output("eDP-1", 7, false, Some((0, 0))),
            cycle_output("DP-1", 9, true, Some((1920, 0))),
        ],
    };
    assert_eq!(plan_cycle(&db, &live), CyclePlan::Restore(XrandrCmd::from(&stored)));
}

#[test]
fn stable_snapshot_is_saved() {
    let mut db = AutoRandrDB::new();
    let live = State { outputs: vec![cycle_output("DP-1", 11, true, Some((0, 0)))] };
    let plan = plan_cycle(&db, &live);
    assert_eq!(plan, CyclePlan::Save);
    let end = finish_cycle(&mut db, &live, &plan, false);
    assert_eq!(end, CycleEnd { remapped: false, store: StoreChange::Inserted });
    assert_eq!(db.get_state("DP-1-11"), Ok(live.clone()));
    let again = plan_cycle(&db, &live);
    let end = finish_cycle(&mut db, &live, &again, true);
    assert_eq!(end, CycleEnd { remapped: false, store: StoreChange::Untouched });
    let moved = State { outputs: vec![cycle_output("DP-1", 11, true, Some((0, 200)))] };
    let third = plan_cycle(&db, &moved);
    let end = finish_cycle(&mut db, &moved, &third, true);
    assert_eq!(end, CycleEnd { remapped: false, store: StoreChange::Updated });
    assert_eq!(db.get_state("DP-1-11"), Ok(moved));
}

#[test]
fn reapply_uses_the_stored_layout() {
    let mut db = AutoRandrDB::new();
    let live = State { outputs: vec![cycle_output("DP-1", 11, true, Some((0, 0)))] };
    assert_eq!(reapply_plan(&db, &live), None);
    let stored = State { outputs: vec![cycle_output("DP-1", 11, true, Some((0, 300)))] };
    db.save_state(&stored);
    assert_eq!(reapply_plan(&db, &live), Some(XrandrCmd::from(&stored)));
}

#[test]
fn screen_saver_suppresses_polling() {
    assert_eq!(PowerState::from_raw(0), PowerState::Off);
    assert_eq!(PowerState::from_raw(1), PowerState::On);
    assert_eq!(PowerState::from_raw(2), PowerState::Cycling);
    assert_eq!(PowerState::from_raw(3), PowerState::Off);
    assert_eq!(PowerState::from_raw(255), PowerState::Off);
    assert!(PowerState::On.suppresses_polling());
    assert!(PowerState::Cycling.suppresses_polling());
    assert!(!PowerState::Off.suppresses_polling());
}

#[test]
fn hook_line_is_split_into_program_and_arguments() {
    let line = "notify-send 'displays changed' --urgency=low \"a b\"".to_string();
    assert_eq!(
        on_remap_command(Some(&line)),
        Some(HookCommand {
            program: "notify-send".to_string(),
            args: arguments(&["displays changed", "--urgency=low", "a b"]),
        })
    );
}

#[test]
fn hook_of_one_word_has_no_arguments() {
    let line = "  ~/bin/after-remap  ".to_string();
    assert_eq!(
        on_remap_command(Some(&line)),
        Some(HookCommand { program: "~/bin/after-remap".to_string(), args: Vec::new() })
    );
}

#[test]
fn hook_may_be_absent_empty_or_malformed() {
    assert_eq!(on_remap_command(None), None);
    assert_eq!(on_remap_command(Some(&String::new())), None);
    assert_eq!(on_remap_command(Some(&"   ".to_string())), None);
    assert_eq!(on_remap_command(Some(&"echo 'unfinished".to_string())), None);
}

#[test]
fn command_of_words() {
    assert_eq!(command_from_words(None), None);
    assert_eq!(command_from_words(Some(Vec::new())), None);
    assert_eq!(
        command_from_words(Some(arguments(&["a"]))),
        Some(HookCommand { program: "a".to_string(), args: Vec::new() })
    );
    assert_eq!(
        command_from_words(Some(arguments(&["a", "b", "c"]))),
        Some(HookCommand { program: "a".to_string(), args: arguments(&["b", "c"]) })
    );
}

#[test]
fn default_settings() {
    let cli = Cli::default();
    assert!(!cli.background);
    assert_eq!(cli.delay, 1);
    assert_eq!(cli.display, None);
    assert_eq!(cli.on_remap, None);
    assert!(!cli.reapply);
}
