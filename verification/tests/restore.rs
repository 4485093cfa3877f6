use btrbk_tui::config::Config;
use btrbk_tui::restore::{
    clean_broken_subvolumes, delete_subvolume, restore_snapshot, root_entry_name, Reply, Restore,
    RestoreOutcome, Stage, Step,
};
use btrbk_tui::snapshots::DirEntry;
use btrbk_tui::timestamp::Timestamp;

const NOW: Timestamp =
    Timestamp { year: 2026, month: 8, day: 4, hour: 10, minute: 11, second: 12, nanosecond: 34 };

fn begin(subvol: &str, auto_cleanup: bool) -> Restore {
    let mut config = Config::default();
    config.auto_cleanup = auto_cleanup;
    restore_snapshot(&config, &format!("{}.20260803", subvol), subvol, &NOW)
}

fn ok() -> Reply {
    Reply { ok: true, nonempty: true, text: String::new() }
}

fn no(text: &str) -> Reply {
    Reply { ok: false, nonempty: false, text: text.to_string() }
}

fn failed(text: &str) -> RestoreOutcome {
    RestoreOutcome::Failed(text.to_string())
}

/// Performs a restore, with the replies that `answer` gives; returns the steps.
fn perform(mut restore: Restore, answer: impl Fn(Stage) -> Reply) -> (Vec<Step>, RestoreOutcome) {
    let mut steps = Vec::new();
    while restore.stage != Stage::Finished {
        steps.push(restore.step());
        restore.reply(&answer(restore.stage));
    }
    assert_eq!(restore.step(), Step::Finish);
    assert!(steps.len() <= 17);
    (steps, restore.outcome)
}

/// Everything goes well, and nothing is under the .BROKEN name.
fn fine(stage: Stage) -> Reply {
    match stage {
        Stage::CheckBroken => no(""),
        _ => ok(),
    }
}

const CURRENT: &str = "/mnt/btr_pool/@home";
const BROKEN: &str = "/mnt/btr_pool/@home.BROKEN.20260804_101112";
const SOURCE: &str = "/mnt/btr_pool/btrbk_snapshots/@home.20260803";

#[test]
fn restore_moves_aside_snapshots_and_verifies() {
    let (steps, outcome) = perform(begin("@home", false), fine);
    assert_eq!(outcome, RestoreOutcome::Success);
    assert_eq!(
        steps,
        [
            Step::Exists(SOURCE.to_string()),
            Step::Exists(CURRENT.to_string()),
            Step::Show(CURRENT.to_string()),
            Step::Exists(BROKEN.to_string()),
            Step::Rename(CURRENT.to_string(), BROKEN.to_string()),
            Step::Snapshot(SOURCE.to_string(), CURRENT.to_string()),
            Step::Exists(CURRENT.to_string()),
            Step::Show(CURRENT.to_string()),
            Step::ReadMounts,
            Step::ReadDir(CURRENT.to_string()),
        ]
    );
}

#[test]
fn root_needs_its_usual_directories_and_files() {
    let (steps, outcome) = perform(begin("@", false), fine);
    assert_eq!(outcome, RestoreOutcome::Success);
    assert_eq!(
        steps[9..],
        [
            Step::Exists("/mnt/btr_pool/@/etc".to_string()),
            Step::Exists("/mnt/btr_pool/@/usr".to_string()),
            Step::Exists("/mnt/btr_pool/@/var".to_string()),
            Step::Exists("/mnt/btr_pool/@/bin".to_string()),
            Step::IsFile("/mnt/btr_pool/@/etc/fstab".to_string()),
            Step::IsFile("/mnt/btr_pool/@/etc/passwd".to_string()),
        ]
    );
    for n in 0..6u8 {
        let (_, outcome) = perform(begin("@", false), |stage| {
            if stage == Stage::VerifyRoot(n) {
                no("")
            } else {
                fine(stage)
            }
        });
        assert_eq!(outcome, failed(&format!("restored root has no /{}", root_entry_name(n))));
    }
    assert_eq!(root_entry_name(4), "etc/fstab");
}

#[test]
fn root_at_root_is_told_from_root() {
    // a subvolume called @root is not the root filesystem
    let (steps, outcome) = perform(begin("@root", false), fine);
    assert_eq!(outcome, RestoreOutcome::Success);
    assert_eq!(steps[9..], [Step::ReadDir("/mnt/btr_pool/@root".to_string())]);
    assert_eq!(steps[1], Step::Exists("/mnt/btr_pool/@root".to_string()));
}

/// The restore of @home with one reply that differs.
fn with(changed: Stage, reply: impl Fn() -> Reply) -> (Vec<Step>, RestoreOutcome) {
    perform(begin("@home", false), |stage| if stage == changed { reply() } else { fine(stage) })
}

#[test]
fn nothing_is_touched_when_a_check_fails_first() {
    let touched = |steps: &[Step]| {
        steps.iter().any(|step| {
            matches!(step, Step::Rename(_, _) | Step::Snapshot(_, _) | Step::Delete(_))
        })
    };
    let (steps, outcome) = with(Stage::CheckSource, || no(""));
    assert_eq!(outcome, failed(&format!("{} no longer exists", SOURCE)));
    assert_eq!(steps.len(), 1);
    let (steps, outcome) = with(Stage::GuardCurrent, || no("ERROR: not a subvolume"));
    assert_eq!(
        outcome,
        failed("/mnt/btr_pool/@home is not a btrfs subvolume: ERROR: not a subvolume")
    );
    assert!(!touched(&steps));
    let (steps, outcome) = with(Stage::CheckBroken, ok);
    assert_eq!(outcome, failed(&format!("{} already exists", BROKEN)));
    assert!(!touched(&steps));
    let (steps, outcome) = with(Stage::MoveAside, || no("Invalid cross-device link"));
    assert_eq!(outcome, failed("cannot move @home: Invalid cross-device link"));
    assert_eq!(steps.len(), 5);
}

#[test]
fn a_failed_restore_is_rolled_back() {
    let back = Step::Rename(BROKEN.to_string(), CURRENT.to_string());
    let (steps, outcome) = with(Stage::TakeSnapshot, || no("no space"));
    assert_eq!(outcome, failed("snapshot failed: no space"));
    assert_eq!(steps.last(), Some(&back));

    let remove = Step::Delete(CURRENT.to_string());
    for (stage, reply, reason) in [
        (Stage::VerifyExists, no(""), "restored subvolume is missing"),
        (Stage::VerifySubvolume, no("x"), "restored path is not a subvolume: x"),
        (Stage::VerifyHome, no("denied"), "restored home is unreadable: denied"),
        (
            Stage::VerifyHome,
            Reply { ok: true, nonempty: false, text: String::new() },
            "restored home is empty",
        ),
    ] {
        let (steps, outcome) = with(stage, || Reply {
            ok: reply.ok,
            nonempty: reply.nonempty,
            text: reply.text.clone(),
        });
        assert_eq!(outcome, failed(reason));
        // the failed subvolume goes, the previous one comes back
        assert_eq!(steps[steps.len() - 2], remove);
        assert_eq!(steps[steps.len() - 1], back);
    }
    let (_, outcome) = perform(begin("@games", false), |stage| {
        if stage == Stage::VerifyOther {
            no("denied")
        } else {
            fine(stage)
        }
    });
    assert_eq!(outcome, failed("restored subvolume is unreadable: denied"));
}

#[test]
fn a_failed_rollback_says_where_the_original_is() {
    let (steps, outcome) = perform(begin("@home", true), |stage| match stage {
        Stage::TakeSnapshot => no("no space"),
        Stage::RollBack => no("busy"),
        _ => fine(stage),
    });
    assert_eq!(
        outcome,
        RestoreOutcome::RollbackFailed(format!(
            "snapshot failed: no space; original kept as {} (busy)",
            BROKEN
        ))
    );
    assert!(!steps.contains(&Step::Delete(BROKEN.to_string())));

    let (_, outcome) = perform(begin("@home", true), |stage| match stage {
        Stage::VerifyExists => no(""),
        Stage::RemoveFailed => no("busy"),
        _ => fine(stage),
    });
    assert_eq!(
        outcome,
        RestoreOutcome::RollbackFailed(format!(
            "restored subvolume is missing; cannot remove the failed restore (busy), original kept as {}",
            BROKEN
        ))
    );
}

#[test]
fn the_original_is_deleted_only_on_request_and_after_success() {
    let delete = Step::Delete(BROKEN.to_string());
    let (steps, outcome) = perform(begin("@home", true), fine);
    assert_eq!(outcome, RestoreOutcome::Success);
    assert_eq!(steps.last(), Some(&delete));
    // whether that works does not matter
    let (_, outcome) = perform(begin("@home", true), |stage| {
        if stage == Stage::CleanUp {
            no("busy")
        } else {
            fine(stage)
        }
    });
    assert_eq!(outcome, RestoreOutcome::Success);
    let (steps, _) = perform(begin("@home", false), fine);
    assert!(!steps.contains(&delete));
}

#[test]
fn a_subvolume_that_did_not_exist_is_created() {
    let new = |stage: Stage| if stage == Stage::CheckCurrent { no("") } else { fine(stage) };
    let (steps, outcome) = perform(begin("@home", true), new);
    assert_eq!(outcome, RestoreOutcome::Success);
    assert_eq!(steps[2], Step::Snapshot(SOURCE.to_string(), CURRENT.to_string()));
    assert!(!steps.contains(&Step::Delete(BROKEN.to_string())));
    // there is nothing to roll back to
    let (steps, outcome) = perform(begin("@home", true), |stage| {
        if stage == Stage::TakeSnapshot {
            no("x")
        } else {
            new(stage)
        }
    });
    assert_eq!(outcome, failed("snapshot failed: x"));
    assert_eq!(steps.len(), 3);
}

/// A small disk that does what it is told, but for the steps that fail.
struct Disk {
    current: &'static str,
    broken: &'static str,
}

#[test]
fn no_failure_loses_the_original() {
    for fail_from in 0..18 {
        for fail_to in fail_from..18 {
            for auto_cleanup in [false, true] {
                let mut disk = Disk { current: "original", broken: "" };
                let mut restore = begin("@home", auto_cleanup);
                let mut count = 0;
                while restore.stage != Stage::Finished {
                    let works = count < fail_from || count > fail_to;
                    let reply = match restore.step() {
                        Step::Exists(path) if path == CURRENT => {
                            Reply { ok: !disk.current.is_empty(), ..ok() }
                        }
                        Step::Exists(path) if path == BROKEN => {
                            Reply { ok: !disk.broken.is_empty(), ..ok() }
                        }
                        Step::Rename(from, _) if works => {
                            if from == CURRENT {
                                disk.broken = disk.current;
                                disk.current = "";
                            } else {
                                disk.current = disk.broken;
                                disk.broken = "";
                            }
                            ok()
                        }
                        Step::Snapshot(_, _) if works => {
                            disk.current = "restored";
                            ok()
                        }
                        Step::Delete(path) if works => {
                            if path == CURRENT {
                                disk.current = "";
                            } else {
                                disk.broken = "";
                            }
                            ok()
                        }
                        _ if works => ok(),
                        _ => no("failed"),
                    };
                    restore.reply(&reply);
                    count += 1;
                    assert!(
                        disk.current == "original"
                            || disk.broken == "original"
                            || (auto_cleanup && disk.current == "restored")
                    );
                }
                match restore.outcome {
                    RestoreOutcome::Success => assert_eq!(disk.current, "restored"),
                    RestoreOutcome::Failed(_) => {
                        assert_eq!((disk.current, disk.broken), ("original", ""))
                    }
                    RestoreOutcome::RollbackFailed(_) => assert_eq!(disk.broken, "original"),
                }
            }
        }
    }
}

#[test]
fn steps_are_btrfs_commands() {
    let text = |s: &str| s.to_string();
    assert_eq!(
        Step::Show(text("/p")).command(),
        Some(vec![text("btrfs"), text("subvolume"), text("show"), text("/p")])
    );
    assert_eq!(
        Step::Snapshot(text("/s"), text("/p")).command(),
        Some(vec![text("btrfs"), text("subvolume"), text("snapshot"), text("/s"), text("/p")])
    );
    assert_eq!(Step::Delete(text("/p")).command(), Some(delete_subvolume("/p")));
    assert_eq!(delete_subvolume("/p"), ["btrfs", "subvolume", "delete", "/p"]);
    assert_eq!(Step::Exists(text("/p")).command(), None);
    assert_eq!(Step::Rename(text("/p"), text("/q")).command(), None);
}

#[test]
fn cleaning_takes_the_broken_directories_only() {
    let entries = [
        ("@", true),
        ("@home.BROKEN.20260804_101112", true),
        ("@.BROKEN", true),
        ("notes.BROKEN.txt", false),
        ("x.broken", true),
    ]
    .iter()
    .map(|(name, is_dir)| DirEntry { name: name.to_string(), is_dir: *is_dir })
    .collect();
    assert_eq!(
        clean_broken_subvolumes("/mnt/btr_pool", Ok(entries)),
        Ok(vec![BROKEN.to_string(), "/mnt/btr_pool/@.BROKEN".to_string()])
    );
    assert_eq!(
        clean_broken_subvolumes("/p", Err("No such file".to_string())),
        Err("cannot read pool directory: No such file".to_string())
    );
}

#[test]
fn replacements_in_different_seconds_are_kept_apart() {
    let broken = |now: &Timestamp| restore_snapshot(&Config::default(), "@.20260803", "@", now).broken;
    assert_eq!(broken(&NOW), "/mnt/btr_pool/@.BROKEN.20260804_101112");
    assert_eq!(
        broken(&Timestamp { second: 13, ..NOW }),
        "/mnt/btr_pool/@.BROKEN.20260804_101113"
    );
    assert_eq!(
        broken(&Timestamp { second: 59, nanosecond: 1_000_000_000, ..NOW }),
        "/mnt/btr_pool/@.BROKEN.20260804_101160"
    );
    assert_eq!(
        broken(&Timestamp { year: 20260, ..NOW }),
        "/mnt/btr_pool/@.BROKEN.+202600804_101112"
    );
}
