use btrbk_tui::snapshots::{
    accept_parts, format_snapshot_name, get_snapshots, group_by_prefix, group_snapshots,
    label_snapshot, oldest_first, prefix_before, split_at_last_dot, split_snapshot_name,
    without_times, Dated, DirEntry,
};
use btrbk_tui::timestamp::{
    midnight, parse_btrbk_timestamp, resolve_timestamp, show_timestamp, stamp, time_before,
    timestamp_base, timestamp_form, Date, Timestamp, TimestampForm,
};
use chrono::{Datelike, NaiveDate, Timelike};

#[test]
fn snapshot_names_split_at_the_last_dot() {
    assert_eq!(split_snapshot_name("@home.20260803T0000"), Some(("@home", "20260803T0000")));
    assert_eq!(split_snapshot_name("@.20260803T0000_1"), Some(("@", "20260803T0000_1")));
    assert_eq!(split_snapshot_name("@my.data.20260803"), Some(("@my.data", "20260803")));
    // btrbk's default naming: the subvolume name, with or without "@"
    assert_eq!(split_snapshot_name("home.20250901T0800"), Some(("home", "20250901T0800")));
    assert_eq!(split_snapshot_name("home"), None);
    assert_eq!(split_snapshot_name("@home."), None);
    assert_eq!(split_snapshot_name(".20250901T0800"), None);
    // a dot alone does not make a snapshot: what follows must be a timestamp
    assert_eq!(split_snapshot_name("scripts.d"), None);
    assert_eq!(split_snapshot_name("prune_snapshots_keep_parent.sh"), None);
    assert_eq!(split_snapshot_name("@home.BROKEN"), None);
}

#[test]
fn groups_put_root_first_and_newest_on_top() {
    let names = [
        "@home.20260801T0000",
        "@games.20260801T0000",
        "@.20260801T0000",
        "@home.20260803T0000",
        "@home.20260802T0000",
        "not_a_snapshot",
        // a subvolume really called @root is its own group, never "@"
        "@root.20260801T0000",
    ];
    let groups = group_snapshots(names.iter().map(|name| name.to_string()).collect());
    let prefixes: Vec<&str> = groups.iter().map(|(prefix, _)| prefix.as_str()).collect();
    assert_eq!(prefixes, ["@", "@games", "@home", "@root"]);
    assert_eq!(
        groups[2].1,
        ["@home.20260803T0000", "@home.20260802T0000", "@home.20260801T0000"]
    );
}

fn at(y: i32, m: u32, d: u32, h: u32, min: u32, s: u32) -> Option<Timestamp> {
    let t = NaiveDate::from_ymd_opt(y, m, d).unwrap().and_hms_opt(h, min, s)?;
    Some(Timestamp {
        year: t.year(),
        month: t.month(),
        day: t.day(),
        hour: t.hour(),
        minute: t.minute(),
        second: t.second(),
        nanosecond: t.nanosecond(),
    })
}

#[test]
fn timestamps_in_every_btrbk_format() {
    assert_eq!(parse_btrbk_timestamp("20260803"), at(2026, 8, 3, 0, 0, 0));
    assert_eq!(parse_btrbk_timestamp("20260803T1405"), at(2026, 8, 3, 14, 5, 0));
    assert_eq!(parse_btrbk_timestamp("20260803T1405_2"), at(2026, 8, 3, 14, 5, 0));
    assert_eq!(parse_btrbk_timestamp("20260803T140559+0200"), at(2026, 8, 3, 14, 5, 59));
    assert_eq!(parse_btrbk_timestamp("20260803T140559-0500_1"), at(2026, 8, 3, 14, 5, 59));
    assert_eq!(parse_btrbk_timestamp("20260803_140559"), at(2026, 8, 3, 14, 5, 59));
    assert_eq!(parse_btrbk_timestamp("BROKEN"), None);
    assert_eq!(parse_btrbk_timestamp("20261399"), None);
}

#[test]
fn timestamps_at_the_edges() {
    // a day with a suffix, not an incomplete time
    assert_eq!(parse_btrbk_timestamp("20260803_1"), at(2026, 8, 3, 0, 0, 0));
    assert_eq!(parse_btrbk_timestamp("20260803_1234"), at(2026, 8, 3, 0, 0, 0));
    // no such time: the six digits count as a suffix
    assert_eq!(parse_btrbk_timestamp("20260803_250000"), at(2026, 8, 3, 0, 0, 0));
    // the years that have a 29 February
    assert_eq!(parse_btrbk_timestamp("20240229"), at(2024, 2, 29, 0, 0, 0));
    assert_eq!(parse_btrbk_timestamp("20230229"), None);
    assert_eq!(parse_btrbk_timestamp("20000229"), at(2000, 2, 29, 0, 0, 0));
    assert_eq!(parse_btrbk_timestamp("19000229"), None);
    assert_eq!(parse_btrbk_timestamp("00000101"), at(0, 1, 1, 0, 0, 0));
    assert_eq!(parse_btrbk_timestamp("20260803T2400"), None);
    assert_eq!(parse_btrbk_timestamp("20260803T2360"), None);
    assert_eq!(parse_btrbk_timestamp("20260803T140561"), None);
    // a leap second
    assert_eq!(
        parse_btrbk_timestamp("20161231T235960"),
        Some(Timestamp {
            year: 2016,
            month: 12,
            day: 31,
            hour: 23,
            minute: 59,
            second: 59,
            nanosecond: 1_000_000_000,
        })
    );
    assert_eq!(parse_btrbk_timestamp(""), None);
    assert_eq!(parse_btrbk_timestamp("2026080"), None);
    assert_eq!(parse_btrbk_timestamp("20260803T14"), None);
}

#[test]
fn suffix_and_offset_do_not_matter() {
    assert_eq!(timestamp_base("20260803T140559+0200_12"), "20260803T140559");
    assert_eq!(timestamp_base("20260803T1405"), "20260803T1405");
    assert_eq!(timestamp_base("-x"), "");
    assert_eq!(timestamp_form("20260803"), Some(TimestampForm::Short));
    assert_eq!(timestamp_form("20260803T1405"), Some(TimestampForm::Long));
    assert_eq!(timestamp_form("20260803T140559"), Some(TimestampForm::LongIso));
    assert_eq!(timestamp_form("2026"), None);
    // the length is that in bytes
    assert_eq!(timestamp_form("éééé"), Some(TimestampForm::Short));
    for suffix in ["", "_1", "_9999", "+0200", "-0330", "+0200_7"] {
        let name = format!("20260803T140559{}", suffix);
        assert_eq!(parse_btrbk_timestamp(&name), at(2026, 8, 3, 14, 5, 59));
    }
}

#[test]
fn the_legacy_reading_comes_first() {
    let day = Date { year: 2026, month: 8, day: 3 };
    let legacy = at(2026, 1, 1, 1, 1, 1);
    assert_eq!(midnight(day), at(2026, 8, 3, 0, 0, 0).unwrap());
    assert_eq!(
        resolve_timestamp(legacy, Some(TimestampForm::Short), Some(day), None, None),
        legacy
    );
    assert_eq!(
        resolve_timestamp(None, Some(TimestampForm::Short), Some(day), legacy, legacy),
        Some(midnight(day))
    );
    assert_eq!(resolve_timestamp(None, Some(TimestampForm::Long), Some(day), legacy, None), legacy);
    assert_eq!(
        resolve_timestamp(None, Some(TimestampForm::LongIso), Some(day), None, legacy),
        legacy
    );
    assert_eq!(resolve_timestamp(None, None, Some(day), legacy, legacy), None);
}

#[test]
fn times_are_shown_in_full() {
    let shown = |text: &str| show_timestamp(&parse_btrbk_timestamp(text).unwrap());
    assert_eq!(shown("20260803T1405"), "2026-08-03 14:05:00");
    assert_eq!(shown("00070102"), "0007-01-02 00:00:00");
    assert_eq!(shown("20161231T235960"), "2016-12-31 23:59:60");
    let mut t = parse_btrbk_timestamp("20260803").unwrap();
    t.year = 12345;
    assert_eq!(show_timestamp(&t), "+12345-08-03 00:00:00");
    t.year = -44;
    assert_eq!(show_timestamp(&t), "-0044-08-03 00:00:00");
    t.year = 262142;
    assert_eq!(show_timestamp(&t), "+262142-08-03 00:00:00");
    t.year = -262143;
    assert_eq!(show_timestamp(&t), "-262143-08-03 00:00:00");
}

#[test]
fn names_are_labelled_with_their_time() {
    assert_eq!(
        format_snapshot_name(true, "@home.20260803T1405"),
        "@home.20260803T1405 (2026-08-03 14:05:00)"
    );
    assert_eq!(format_snapshot_name(false, "@home.20260803T1405"), "@home.20260803T1405");
    assert_eq!(format_snapshot_name(true, "scripts.d"), "scripts.d");
    assert_eq!(label_snapshot("x", None), "x");
    assert_eq!(label_snapshot("x", at(2026, 8, 3, 14, 5, 9)), "x (2026-08-03 14:05:09)");
    assert_eq!(split_at_last_dot("a.b.c"), Some(("a.b", "c")));
    assert_eq!(split_at_last_dot("già.x"), Some(("già", "x")));
    assert_eq!(split_at_last_dot("abc"), None);
    assert_eq!(accept_parts("", "20260803", at(2026, 8, 3, 0, 0, 0)), None);
    assert_eq!(accept_parts("@", "x", None), None);
    assert_eq!(accept_parts("@", "x", at(2026, 8, 3, 0, 0, 0)), Some(("@", "x")));
}

#[test]
fn root_comes_before_every_other_subvolume() {
    // "!" sorts before "@", but "@" is always first
    let names = ["!x.20260801", "@.20260801", "zz.20260801", "@home.20260801"];
    let groups = group_snapshots(names.iter().map(|name| name.to_string()).collect());
    let prefixes: Vec<&str> = groups.iter().map(|(prefix, _)| prefix.as_str()).collect();
    assert_eq!(prefixes, ["@", "!x", "@home", "zz"]);
    assert!(prefix_before("@", "!x"));
    assert!(!prefix_before("!x", "@"));
    assert!(!prefix_before("@", "@"));
    assert!(prefix_before("a", "b"));
    assert!(prefix_before("@home", "@home2"));
}

#[test]
fn every_snapshot_is_listed_once_per_name() {
    let entries = [("b", "b.1", 1), ("a", "a.1", 1), ("b", "b.2", 2), ("b", "b.1", 1)]
        .iter()
        .map(|(p, n, day)| {
            let time = at(2026, 8, *day, 0, 0, 0).unwrap();
            (p.to_string(), Dated { name: n.to_string(), time })
        })
        .collect();
    let groups = without_times(&group_by_prefix(entries));
    assert_eq!(
        groups,
        [
            ("a".to_string(), vec!["a.1".to_string()]),
            ("b".to_string(), vec!["b.2".to_string(), "b.1".to_string(), "b.1".to_string()]),
        ]
    );
    assert_eq!(
        oldest_first(&groups)[1].1,
        ["b.1", "b.1", "b.2"]
    );
}

#[test]
fn newest_is_first_in_whatever_form_its_time_is() {
    let listed = |names: &[&str]| {
        let groups = group_snapshots(names.iter().map(|name| name.to_string()).collect());
        assert_eq!(groups.len(), 1);
        groups[0].1.clone()
    };
    // by name the older one would come first
    assert_eq!(
        listed(&["@.20260803_000000", "@.20260803T1405"]),
        ["@.20260803T1405", "@.20260803_000000"]
    );
    assert_eq!(
        listed(&["@.20260803T1405", "@.20260803_000000"]),
        ["@.20260803T1405", "@.20260803_000000"]
    );
    assert_eq!(
        listed(&[
            "@.20260803T140500+0200",
            "@.20260802",
            "@.20260803_140501",
            "@.20260803T1404_9",
            "@.20260803",
        ]),
        [
            "@.20260803_140501",
            "@.20260803T140500+0200",
            "@.20260803T1404_9",
            "@.20260803",
            "@.20260802",
        ]
    );
    // the same time: the later name is first
    assert_eq!(
        listed(&["@.20260803T1405", "@.20260803T1405_1", "@.20260803_140500"]),
        ["@.20260803_140500", "@.20260803T1405_1", "@.20260803T1405"]
    );
    // where names and times disagree, the times given decide
    let time = |day| at(2026, 8, day, 0, 0, 0).unwrap();
    let entries = vec![
        ("@".to_string(), Dated { name: "z".to_string(), time: time(1) }),
        ("@".to_string(), Dated { name: "a".to_string(), time: time(2) }),
    ];
    assert_eq!(
        without_times(&group_by_prefix(entries)),
        [("@".to_string(), vec!["a".to_string(), "z".to_string()])]
    );
}

#[test]
fn times_are_ordered_field_by_field() {
    let times = [
        at(2025, 12, 31, 23, 59, 59).unwrap(),
        at(2026, 1, 1, 0, 0, 0).unwrap(),
        at(2026, 2, 1, 0, 0, 0).unwrap(),
        at(2026, 2, 2, 0, 0, 0).unwrap(),
        at(2026, 2, 2, 1, 0, 0).unwrap(),
        at(2026, 2, 2, 1, 2, 0).unwrap(),
        at(2026, 2, 2, 1, 2, 59).unwrap(),
        // a leap second
        parse_btrbk_timestamp("20260202T010260").unwrap(),
    ];
    for (i, a) in times.iter().enumerate() {
        for (j, b) in times.iter().enumerate() {
            assert_eq!(time_before(a, b), i < j);
        }
    }
}

#[test]
fn what_is_no_timestamp_is_refused() {
    for text in ["", "BROKEN", "d", "sh", "T1405", "_140559", "x20260803", "é", ".", "_1"] {
        assert_eq!(parse_btrbk_timestamp(text), None);
    }
    // a suffix or an offset never changes the time, even of an odd text
    for text in ["20260803", "20260803T1405", " 2026083", "2026 8 3"] {
        let plain = parse_btrbk_timestamp(text);
        for extra in ["_1", "_12", "+0200", "-0500", "-0500_7", "+x"] {
            assert_eq!(parse_btrbk_timestamp(&format!("{}{}", text, extra)), plain);
        }
    }
    assert!(parse_btrbk_timestamp("2026 8 3").is_some());
}

#[test]
fn only_directories_are_snapshots() {
    let entries = vec![
        DirEntry { name: "@.20260801".to_string(), is_dir: true },
        DirEntry { name: "@.20260802".to_string(), is_dir: false },
        DirEntry { name: "notes".to_string(), is_dir: true },
    ];
    assert_eq!(get_snapshots(entries), [("@".to_string(), vec!["@.20260801".to_string()])]);
    assert!(get_snapshots(vec![]).is_empty());
}

#[test]
fn the_order_of_the_directory_does_not_matter() {
    let names = [
        ("@.20260801", true),
        ("@home.20260803T1405", true),
        ("@home.20260803_140459", true),
        ("@home.20260802", true),
        ("@home.20260804", false),
        ("@.20260802T0000_1", true),
        ("notes", true),
    ];
    let listing = |order: &[usize]| {
        let entry = |&i: &usize| DirEntry { name: names[i].0.to_string(), is_dir: names[i].1 };
        get_snapshots(order.iter().map(entry).collect())
    };
    let groups = listing(&[0, 1, 2, 3, 4, 5, 6]);
    assert_eq!(groups[0], ("@".to_string(), vec![names[5].0.to_string(), names[0].0.to_string()]));
    assert_eq!(groups[1].1, [names[1].0, names[2].0, names[3].0]);
    assert_eq!(groups.len(), 2);
    assert_eq!(listing(&[6, 5, 4, 3, 2, 1, 0]), groups);
    assert_eq!(listing(&[3, 0, 6, 2, 5, 4, 1]), groups);
    assert_eq!(listing(&[1, 3, 2, 0, 5, 6, 4]), groups);
}

#[test]
fn stamps_are_written_and_read_back() {
    let mut t = at(2026, 8, 4, 10, 11, 12).unwrap();
    assert_eq!(stamp(&t), "20260804_101112");
    assert_eq!(parse_btrbk_timestamp(&stamp(&t)), Some(t));
    // within a second the text is the same
    t.nanosecond = 999_999_999;
    assert_eq!(stamp(&t), "20260804_101112");
    t = at(7, 1, 2, 0, 0, 0).unwrap();
    assert_eq!(stamp(&t), "00070102_000000");
    assert_eq!(parse_btrbk_timestamp(&stamp(&t)), Some(t));
    t = at(9999, 12, 31, 23, 59, 59).unwrap();
    assert_eq!(stamp(&t), "99991231_235959");
    // a leap second
    t.nanosecond = 1_500_000_000;
    assert_eq!(stamp(&t), "99991231_235960");
    let read = parse_btrbk_timestamp(&stamp(&t)).unwrap();
    assert_eq!((read.second, read.nanosecond), (59, 1_000_000_000));
    t = at(12345, 12, 31, 23, 59, 59).unwrap();
    assert_eq!(stamp(&t), "+123451231_235959");
}

#[test]
fn only_times_in_the_calendar_are_well_formed() {
    let time = |year, month, day| Timestamp {
        year,
        month,
        day,
        hour: 23,
        minute: 59,
        second: 59,
        nanosecond: 1_999_999_999,
    };
    for (year, month, day) in
        [(2024, 2, 29), (2000, 2, 29), (-4, 2, 29), (2026, 1, 31), (262142, 12, 31), (-262143, 1, 1)]
    {
        assert!(time(year, month, day).is_well_formed());
        assert!(NaiveDate::from_ymd_opt(year, month, day).is_some());
    }
    for (year, month, day) in [
        (2026, 2, 29),
        (1900, 2, 29),
        (2026, 4, 31),
        (2026, 0, 1),
        (2026, 13, 1),
        (2026, 1, 0),
        (262143, 1, 1),
        (-262144, 12, 31),
    ] {
        assert!(!time(year, month, day).is_well_formed());
        assert!(NaiveDate::from_ymd_opt(year, month, day).is_none());
    }
    assert!(!Timestamp { hour: 24, ..time(2026, 1, 1) }.is_well_formed());
    assert!(!Timestamp { minute: 60, ..time(2026, 1, 1) }.is_well_formed());
    assert!(!Timestamp { second: 60, ..time(2026, 1, 1) }.is_well_formed());
    assert!(!Timestamp { second: 58, ..time(2026, 1, 1) }.is_well_formed());
    assert!(!Timestamp { nanosecond: 2_000_000_000, ..time(2026, 1, 1) }.is_well_formed());
}
