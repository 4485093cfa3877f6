use btrbk_tui::purge::{
    compute_purge_plan, configured_target, local_subvolume_uuid, pair_with_uuids,
    parse_received_uuids, parse_subvolume_uuid, plan_purge, purge_groups, purge_paths,
    purge_plan_report, tally, target_received_uuids, PurgeCandidates, PurgePlan,
};
use btrbk_tui::snapshots::DirEntry;

#[test]
fn received_uuids_skip_unset_ones() {
    // real `btrfs subvolume list -u -R` output, plus a row with no received_uuid
    let output = "\
ID 33457 gen 27329461 top level 257 parent_uuid 40306c4a-a7f6-b443-a247-da3f59bfc1ca received_uuid c9e62952-9e79-e041-acde-4dc9e3323826 uuid 931a0611-0769-404a-9a79-fddbcc070729 path backup/host-btrfs/@games.20260803T0000
ID 33426 gen 27325696 top level 257 parent_uuid cef19314-dc70-4f4b-931d-8a470cf020b6 received_uuid 17951594-5a9d-5a43-a860-c0de8011da35 uuid 1c8dd660-a0fd-af4c-ad18-6b46f007b6ff path backup/host-btrfs/@games.20260802T1212
ID 257 gen 1 top level 5 parent_uuid - received_uuid - uuid 0ed5ab3d-732e-4544-8522-10abc449a27b path backup
";
    let uuids = parse_received_uuids(output);
    assert_eq!(uuids.len(), 2);
    assert!(uuids.contains("c9e62952-9e79-e041-acde-4dc9e3323826"));
    assert!(uuids.contains("17951594-5a9d-5a43-a860-c0de8011da35"));
}

#[test]
fn subvolume_uuid_ignores_parent_and_received() {
    // "Parent UUID" comes first in real output: a sloppy match would return it
    let output = "\
/mnt/btr_pool/btrbk_snapshots/@games.20260803T0000
\tName: \t\t\t@games.20260803T0000
\tUUID: \t\t\tc9e62952-9e79-e041-acde-4dc9e3323826
\tParent UUID: \t\tf914faf4-aae8-484b-90d4-dae5b2d6088a
\tReceived UUID: \t\t-
";
    assert_eq!(
        parse_subvolume_uuid(output).as_deref(),
        Some("c9e62952-9e79-e041-acde-4dc9e3323826")
    );
    assert_eq!(parse_subvolume_uuid("no uuid here\n"), None);
}

fn group(prefix: &str, snapshots: &[(&str, Option<&str>)]) -> PurgeCandidates {
    (
        prefix.to_string(),
        snapshots
            .iter()
            .map(|(name, uuid)| (name.to_string(), uuid.map(str::to_string)))
            .collect(),
    )
}

#[test]
fn purge_keeps_the_parent_and_everything_newer() {
    let target = parse_received_uuids("received_uuid u1\nreceived_uuid u2\n");
    let groups = [group(
        "@home",
        &[
            ("@home.1", Some("u0")),
            ("@home.2", Some("u1")),
            ("@home.3", Some("u2")), // newest one on the target: the parent
            ("@home.4", Some("u3")),
        ],
    )];
    let plan = compute_purge_plan(&groups, &target);
    assert_eq!(plan.delete, ["@home.1", "@home.2"]);
    assert!(plan.skipped.is_empty());
}

#[test]
fn purge_never_touches_a_broken_chain() {
    let target = parse_received_uuids("received_uuid u9\n");
    let groups = [
        // nothing in common with the target
        group("@games", &[("@games.1", Some("u1")), ("@games.2", Some("u2"))]),
        // uuid unreadable: treated as not on the target
        group("@home", &[("@home.1", None), ("@home.2", None)]),
        // the parent is the oldest: nothing precedes it
        group("@", &[("@.1", Some("u9")), ("@.2", Some("u4"))]),
        // a single snapshot is never a candidate
        group("@log", &[("@log.1", Some("u5"))]),
    ];
    let plan = compute_purge_plan(&groups, &target);
    assert!(plan.delete.is_empty());
    assert_eq!(plan.skipped, ["@games", "@home"]);

    assert_eq!(compute_purge_plan(&groups, &parse_received_uuids("")).delete, Vec::<String>::new());
}

#[test]
fn purging_what_is_left_deletes_nothing_more() {
    let target = parse_received_uuids("received_uuid u2\n");
    let before = [group("@", &[("@.1", Some("u1")), ("@.2", Some("u2")), ("@.3", None)])];
    let plan = compute_purge_plan(&before, &target);
    assert_eq!(plan.delete, ["@.1"]);
    // without @.1 the parent is the oldest
    let after = [group("@", &[("@.2", Some("u2")), ("@.3", None)])];
    let plan = compute_purge_plan(&after, &target);
    assert!(plan.delete.is_empty() && plan.skipped.is_empty());
}

#[test]
fn every_subvolume_keeps_its_newest_snapshot() {
    // even when the newest is the parent
    let target = parse_received_uuids("received_uuid a\nreceived_uuid b\nreceived_uuid c\n");
    let groups = [group("@", &[("@.1", Some("a")), ("@.2", Some("b")), ("@.3", Some("c"))])];
    assert_eq!(compute_purge_plan(&groups, &target).delete, ["@.1", "@.2"]);
    assert_eq!(
        compute_purge_plan(&[], &target),
        PurgePlan { delete: vec![], skipped: vec![] }
    );
}

#[test]
fn received_uuid_fields_are_found_anywhere_on_the_line() {
    let uuids = parse_received_uuids("received_uuid x received_uuid y\nuuid z received_uuid\n\n");
    // the first one on a line counts, and one without a value does not
    assert_eq!(uuids.len(), 1);
    assert!(uuids.contains("x"));
    assert!(!uuids.contains("y"));
}

#[test]
fn local_uuid_needs_a_successful_command() {
    assert_eq!(local_subvolume_uuid(true, b"\tUUID: \t abc \n").as_deref(), Some("abc"));
    assert_eq!(local_subvolume_uuid(false, b"\tUUID: abc\n"), None);
    assert_eq!(local_subvolume_uuid(true, b""), None);
    // output that is not UTF-8 does no harm
    assert_eq!(local_subvolume_uuid(true, b"\xff\xfe\nUUID: q\n").as_deref(), Some("q"));
}

#[test]
fn without_a_target_there_is_a_reason() {
    assert_eq!(
        configured_target(Err("No such file or directory (os error 2)".to_string())),
        Err("cannot read /etc/btrbk/btrbk.conf: No such file or directory (os error 2)".to_string())
    );
    assert_eq!(
        configured_target(Ok("target /local\n".to_string())),
        Err("no ssh target in /etc/btrbk/btrbk.conf".to_string())
    );
    assert_eq!(configured_target(Ok("target ssh://h/p\n".to_string())).unwrap().host, "h");

    let reason = |stderr: &[u8]| match target_received_uuids(false, b"received_uuid x\n", stderr) {
        Ok(_) => panic!("an unreachable target has no uuids"),
        Err(reason) => reason,
    };
    assert_eq!(
        reason(b"Warning: x\nssh: connect to host nas port 22: No route to host\r\n"),
        "backup target unreachable: ssh: connect to host nas port 22: No route to host"
    );
    assert_eq!(reason(b""), "backup target unreachable: ssh failed");
    match target_received_uuids(true, b"received_uuid x\n", b"noise") {
        Ok(uuids) => assert!(uuids.contains("x")),
        Err(reason) => panic!("{}", reason),
    }
}

fn dir(name: &str) -> DirEntry {
    DirEntry { name: name.to_string(), is_dir: true }
}

#[test]
fn a_plan_is_made_from_the_directory_and_the_uuids() {
    let entries = vec![
        dir("@home.20260803T0000"),
        dir("@home.20260801T0000"),
        DirEntry { name: "@home.20260802T0000".to_string(), is_dir: false },
        dir("@home.20260802T1200"),
        dir("scripts.d"),
    ];
    let groups = match purge_groups(Ok(entries)) {
        Ok(groups) => groups,
        Err(reason) => panic!("{}", reason),
    };
    // oldest first, directories only
    assert_eq!(
        groups,
        [(
            "@home".to_string(),
            vec![
                "@home.20260801T0000".to_string(),
                "@home.20260802T1200".to_string(),
                "@home.20260803T0000".to_string(),
            ]
        )]
    );
    let uuids = vec![vec![Some("a".to_string()), Some("b".to_string()), None]];
    let plan = plan_purge(&groups, &uuids, &parse_received_uuids("received_uuid b\n"));
    assert_eq!(plan.delete, ["@home.20260801T0000"]);
    assert_eq!(
        purge_paths("/mnt/btr_pool/btrbk_snapshots", &plan.delete),
        ["/mnt/btr_pool/btrbk_snapshots/@home.20260801T0000"]
    );
    // missing uuids count as unreadable
    let paired = pair_with_uuids(&groups, &vec![vec![Some("a".to_string())]]);
    assert_eq!(paired[0].1[0].1.as_deref(), Some("a"));
    assert_eq!(paired[0].1[2].1, None);

    assert_eq!(
        purge_groups(Err("Permission denied".to_string())),
        Err("cannot read snapshots directory: Permission denied".to_string())
    );
}

#[test]
fn a_purge_goes_by_time_and_not_by_name() {
    // the target holds the older of the two, which is the later by name
    let entries = vec![dir("@.20260803_000000"), dir("@.20260803T1405"), dir("@.20260802")];
    let groups = match purge_groups(Ok(entries)) {
        Ok(groups) => groups,
        Err(reason) => panic!("{}", reason),
    };
    assert_eq!(groups[0].1, ["@.20260802", "@.20260803_000000", "@.20260803T1405"]);
    let uuids = vec![vec![Some("a".to_string()), Some("b".to_string()), Some("c".to_string())]];
    let plan = plan_purge(&groups, &uuids, &parse_received_uuids("received_uuid b\n"));
    assert_eq!(plan.delete, ["@.20260802"]);
}

#[test]
fn deletions_are_counted() {
    assert_eq!(tally(&vec![true, false, true]), (2, 1));
    assert_eq!(tally(&vec![]), (0, 0));
}

#[test]
fn a_purge_plan_can_be_printed() {
    let plan = PurgePlan {
        delete: vec!["@.20260801".to_string(), "@.20260802".to_string()],
        skipped: vec!["@games".to_string()],
    };
    assert_eq!(
        purge_plan_report(&plan),
        [
            "would delete  @.20260801",
            "would delete  @.20260802",
            "skipped       @games (no snapshot in common with the backup target)",
        ]
    );
    let nothing = PurgePlan { delete: vec![], skipped: vec!["@".to_string()] };
    assert_eq!(
        purge_plan_report(&nothing),
        ["Nothing to purge.", "skipped       @ (no snapshot in common with the backup target)"]
    );
}

#[test]
fn purging_everything_again_deletes_nothing() {
    let target = parse_received_uuids("received_uuid u2\nreceived_uuid h1\n");
    let before = [
        group("@", &[("@.1", Some("u1")), ("@.2", Some("u2")), ("@.3", None)]),
        group("@games", &[("@games.1", None), ("@games.2", Some("g2"))]),
        group("@home", &[("@home.0", None), ("@home.1", Some("h1"))]),
    ];
    let plan = compute_purge_plan(&before, &target);
    assert_eq!(plan.delete, ["@.1", "@home.0"]);
    assert_eq!(plan.skipped, ["@games"]);
    let left: Vec<PurgeCandidates> = before
        .iter()
        .map(|(prefix, snapshots)| {
            let kept = snapshots.iter().filter(|(name, _)| !plan.delete.contains(name));
            (prefix.clone(), kept.cloned().collect())
        })
        .collect();
    let again = compute_purge_plan(&left, &target);
    assert!(again.delete.is_empty());
    assert_eq!(again.skipped, plan.skipped);
}

#[test]
fn knowing_less_of_the_target_deletes_no_more() {
    let groups = [
        group("@", &[("@.1", Some("a")), ("@.2", Some("b")), ("@.3", Some("c"))]),
        group("@home", &[("@home.1", Some("d")), ("@home.2", Some("e"))]),
    ];
    let all = "received_uuid a\nreceived_uuid c\nreceived_uuid e\n";
    let plan = compute_purge_plan(&groups, &parse_received_uuids(all));
    assert_eq!(plan.delete, ["@.1", "@.2", "@home.1"]);
    for known in ["", "received_uuid a\n", "received_uuid e\n", "received_uuid a\nreceived_uuid c"] {
        let less = compute_purge_plan(&groups, &parse_received_uuids(known));
        assert!(less.delete.iter().all(|name| plan.delete.contains(name)), "{}", known);
    }
}

#[test]
fn uuids_of_joined_texts_are_those_of_both() {
    let texts = ["", "\n", "received_uuid a", "received_uuid a\r", "received_uuid b\n", "x\n\n", "\r"];
    for above in texts {
        for below in texts {
            let both = parse_received_uuids(&format!("{}\n{}", above, below));
            for uuid in ["a", "b"] {
                assert_eq!(
                    both.contains(uuid),
                    parse_received_uuids(above).contains(uuid)
                        || parse_received_uuids(below).contains(uuid),
                    "{:?} {:?}",
                    above,
                    below
                );
            }
        }
    }
}
