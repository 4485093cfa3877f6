use btrbk_tui::config::ConfigLocation;
use btrbk_tui::jobs::{Action, Event, Task};
use btrbk_tui::purge::PurgePlan;
use btrbk_tui::restore::RestoreOutcome;
use btrbk_tui::session::{
    App, MainAction, STATUS_CRITICAL, STATUS_LONG, STATUS_MEDIUM, STATUS_RESULT, STATUS_SHORT,
};
use btrbk_tui::snapshots::SnapshotGroups;

fn app(confirm: bool) -> App {
    let mut app = App::new(ConfigLocation { path: b"/c".to_vec(), read_from: None }, None);
    app.config.confirm_actions = confirm;
    app
}

fn groups() -> SnapshotGroups {
    vec![
        ("@".to_string(), vec!["@.20260802".to_string(), "@.20260801".to_string()]),
        ("@home".to_string(), vec!["@home.20260801".to_string()]),
    ]
}

fn shown(app: &App) -> (&str, u64) {
    match &app.status {
        Some(status) => (status.message.as_str(), status.lasting),
        None => ("", 0),
    }
}

fn question(action: Action) -> String {
    match action {
        Action::Ask(question) => question,
        other => panic!("no question: {:?}", other),
    }
}

fn is_over(turn: &(Task, Action)) -> bool {
    matches!(turn, (Task::Idle, Action::Nothing))
}

fn plan(delete: &[&str], skipped: &[&str]) -> PurgePlan {
    PurgePlan {
        delete: delete.iter().map(|s| s.to_string()).collect(),
        skipped: skipped.iter().map(|s| s.to_string()).collect(),
    }
}

#[test]
fn reboot_needs_a_reason_and_an_answer() {
    let mut a = app(true);
    assert!(is_over(&a.start(&groups(), MainAction::Reboot, 0)));
    assert_eq!(shown(&a), ("No reboot needed", STATUS_SHORT));

    a.reboot_needed = true;
    let (task, action) = a.start(&groups(), MainAction::Reboot, 0);
    assert_eq!(question(action), "Reboot system now?");
    assert!(is_over(&a.advance(task, Event::Answer(false), 0)));
    assert_eq!(shown(&a), ("Reboot cancelled", STATUS_SHORT));

    let (task, _) = a.start(&groups(), MainAction::Reboot, 0);
    let (task, action) = a.advance(task, Event::Answer(true), 0);
    assert!(matches!(action, Action::Reboot));
    assert!(is_over(&a.advance(task, Event::Ran(Err("denied".to_string())), 0)));
    assert_eq!(shown(&a), ("Error: reboot failed: denied", STATUS_LONG));

    let mut a = app(false);
    a.reboot_needed = true;
    let (task, action) = a.start(&groups(), MainAction::Reboot, 0);
    assert!(matches!(action, Action::Reboot));
    assert!(is_over(&a.advance(task, Event::Ran(Ok(())), 0)));
    assert_eq!(shown(&a), ("", 0));
}

#[test]
fn purge_checks_asks_and_deletes() {
    let mut a = app(true);
    a.store_snapshots(groups());
    let (task, action) = a.start(&groups(), MainAction::Purge, 0);
    assert!(matches!(action, Action::PlanPurge));
    assert_eq!(shown(&a), ("Checking backup target...", STATUS_SHORT));
    let (task, action) =
        a.advance(task, Event::Planned(Ok(plan(&["@.1", "@.2"], &["@games", "@log"]))), 0);
    assert_eq!(question(action), "Delete 2 old snapshots? The backup chain is kept.");
    let (task, action) = a.advance(task, Event::Answer(true), 0);
    match action {
        Action::Delete(paths) => assert_eq!(
            paths,
            ["/mnt/btr_pool/btrbk_snapshots/@.1", "/mnt/btr_pool/btrbk_snapshots/@.2"]
        ),
        other => panic!("{:?}", other),
    }
    assert_eq!(shown(&a), ("Purging old snapshots...", STATUS_SHORT));
    assert!(a.snapshots_cached().is_some());
    assert!(is_over(&a.advance(task, Event::Deleted(1, 1), 0)));
    assert_eq!(
        shown(&a),
        (
            "Purged 1 old snapshots, 1 could NOT be deleted (@games, @log skipped: not on the backup target)",
            STATUS_RESULT
        )
    );
    // the list has changed
    assert!(a.snapshots_cached().is_none());
}

#[test]
fn purge_that_finds_nothing_or_fails_says_so() {
    let mut a = app(true);
    assert!(is_over(&a.advance(Task::PurgePlanning, Event::Planned(Err("no route".to_string())), 0)));
    assert_eq!(shown(&a), ("Nothing purged (chain left intact): no route", STATUS_RESULT));
    assert!(is_over(&a.advance(Task::PurgePlanning, Event::Planned(Ok(plan(&[], &["@"]))), 0)));
    assert_eq!(
        shown(&a),
        ("No old snapshots to purge (@ skipped: not on the backup target)", STATUS_LONG)
    );
    assert!(is_over(&a.advance(Task::PurgePlanning, Event::Planned(Ok(plan(&[], &[]))), 0)));
    assert_eq!(shown(&a), ("No old snapshots to purge", STATUS_LONG));
    assert!(is_over(&a.advance(Task::PurgeAsked(plan(&["x"], &[])), Event::Answer(false), 0)));
    assert_eq!(shown(&a), ("Purge cancelled", STATUS_SHORT));
    assert!(is_over(&a.advance(Task::Purging(vec![]), Event::Deleted(18, 0), 0)));
    assert_eq!(shown(&a), ("Purged 18 old snapshots", STATUS_RESULT));
}

#[test]
fn cleaning_reports_what_it_did() {
    let mut a = app(true);
    let (task, action) = a.start(&groups(), MainAction::CleanBroken, 0);
    assert_eq!(question(action), "Delete all .BROKEN subvolumes?");
    assert!(is_over(&a.advance(task, Event::Answer(false), 0)));
    assert_eq!(shown(&a), ("Clean cancelled", STATUS_SHORT));

    let (task, action) = app(false).start(&groups(), MainAction::CleanBroken, 0);
    assert!(matches!((task, action), (Task::Cleaning, Action::CleanBroken)));
    let (task, action) = a.advance(Task::CleanAsked, Event::Answer(true), 0);
    assert!(matches!((task, action), (Task::Cleaning, Action::CleanBroken)));
    assert_eq!(shown(&a), ("Cleaning .BROKEN subvolumes...", STATUS_SHORT));

    let mut after = |result| {
        let mut a = app(true);
        a.store_snapshots(groups());
        assert!(is_over(&a.advance(Task::Cleaning, Event::Cleaned(result), 0)));
        let (message, lasting) = shown(&a);
        (message.to_string(), lasting, a.snapshots_cached().is_none())
    };
    assert_eq!(
        after(Err("cannot read pool directory: x".to_string())),
        ("Error: cannot read pool directory: x".to_string(), STATUS_LONG, true)
    );
    assert_eq!(
        after(Ok((0, 0))),
        ("No .BROKEN subvolumes found".to_string(), STATUS_MEDIUM, true)
    );
    assert_eq!(after(Ok((3, 0))), ("Cleaned 3 .BROKEN subvolumes".to_string(), STATUS_RESULT, true));
    assert_eq!(
        after(Ok((0, 2))),
        (
            "Cleaned 0 .BROKEN subvolumes, 2 could NOT be deleted (still mounted?)".to_string(),
            STATUS_RESULT,
            true
        )
    );
}

#[test]
fn snapshot_creation_is_asked_for_and_reported() {
    let mut a = app(true);
    a.store_snapshots(groups());
    let (task, action) = a.start(&groups(), MainAction::CreateSnapshot, 0);
    assert_eq!(question(action), "Create new snapshots with btrbk?");
    let (task, action) = a.advance(task, Event::Answer(true), 0);
    assert!(matches!(action, Action::CreateSnapshots));
    // even an interrupted run may have created snapshots
    assert!(is_over(&a.advance(task, Event::Ran(Err("cancelled by user".to_string())), 0)));
    assert_eq!(shown(&a), ("Snapshot creation failed: cancelled by user", STATUS_RESULT));
    assert!(a.snapshots_cached().is_none());
    assert!(is_over(&a.advance(Task::Creating, Event::Ran(Ok(())), 0)));
    assert_eq!(shown(&a), ("Snapshots created successfully", STATUS_LONG));
    assert!(is_over(&a.advance(Task::CreateAsked, Event::Answer(false), 0)));
    assert_eq!(shown(&a), ("Snapshot creation cancelled", STATUS_SHORT));
}

#[test]
fn restore_names_the_path_it_will_touch() {
    let mut a = app(true);
    a.selected_col = 1;
    let (task, action) = a.start(&groups(), MainAction::Restore, 0);
    match action {
        Action::LookUp(path) => assert_eq!(path, "/mnt/btr_pool/@home"),
        other => panic!("{:?}", other),
    }
    let (task, action) = a.advance(task, Event::Exists(true), 0);
    assert_eq!(
        question(action),
        "Restore @home from @home.20260801?\nReplaces /mnt/btr_pool/@home (the old one is kept as .BROKEN)"
    );
    let (task, action) = a.advance(task, Event::Answer(true), 0);
    match action {
        Action::Restore(subvol, snapshot) => {
            assert_eq!((subvol.as_str(), snapshot.as_str()), ("@home", "@home.20260801"))
        }
        other => panic!("{:?}", other),
    }
    assert_eq!(shown(&a), ("Restoring @home...", STATUS_SHORT));
    assert!(is_over(&a.advance(task, Event::Restored(RestoreOutcome::Success), 0)));
    assert_eq!(shown(&a), ("@home restored! Press H to reboot when ready", STATUS_RESULT));
    assert!(a.reboot_needed);

    let lookup = Task::RestoreLookup("@x".to_string(), "@x.20260801".to_string());
    let (task, action) = a.advance(lookup, Event::Exists(false), 0);
    assert_eq!(
        question(action),
        "Restore @x from @x.20260801?\nWARNING: /mnt/btr_pool/@x does not exist, it will be CREATED"
    );
    assert!(is_over(&a.advance(task, Event::Answer(false), 0)));
    assert_eq!(shown(&a), ("Restore cancelled", STATUS_SHORT));
}

#[test]
fn failed_restores_do_not_call_for_a_reboot() {
    let mut a = app(true);
    let restoring = || Task::Restoring("@".to_string());
    a.advance(restoring(), Event::Restored(RestoreOutcome::Failed("x".to_string())), 0);
    assert_eq!(shown(&a), ("Error: @ restore failed, rolled back: x", STATUS_RESULT));
    a.advance(restoring(), Event::Restored(RestoreOutcome::RollbackFailed("y".to_string())), 0);
    assert_eq!(
        shown(&a),
        ("CRITICAL: @ restore AND rollback failed, manual recovery needed: y", STATUS_CRITICAL)
    );
    assert!(!a.reboot_needed);
}

#[test]
fn without_a_selection_nothing_is_restored() {
    let mut a = app(false);
    assert!(is_over(&a.start(&vec![], MainAction::Restore, 0)));
    a.selected_row = 9;
    assert!(is_over(&a.start(&groups(), MainAction::Restore, 0)));
    assert!(is_over(&a.start(&groups(), MainAction::Nothing, 0)));
    // without questions the restore goes ahead
    let lookup = Task::RestoreLookup("@".to_string(), "@.20260801".to_string());
    let (_, action) = a.advance(lookup, Event::Exists(true), 0);
    assert!(matches!(action, Action::Restore(_, _)));
}

#[test]
fn events_out_of_place_end_the_job() {
    let mut a = app(true);
    assert!(is_over(&a.advance(Task::RebootAsked, Event::Exists(true), 0)));
    assert!(is_over(&a.advance(Task::Idle, Event::Answer(true), 0)));
    assert_eq!(shown(&a), ("", 0));
}
