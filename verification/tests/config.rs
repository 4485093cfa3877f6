use btrbk_tui::config::{
    config_candidates, config_owner, invoking_uid, is_legacy_config, locate_config, parse_number,
    paths_to_hand_over, Config, InvokingUser,
};
use btrbk_tui::paths::{
    ancestors, components, is_below, is_same_path, join_bytes, join_text, missing_dirs,
};
use std::path::Path;

#[test]
fn config_belongs_to_the_user_behind_sudo() {
    let candidates = config_candidates(Some(b"/home/user"), Some(b"/root"));
    let expected = [
        "/home/user/.config/btrbk_tui/config.json",
        "/root/.config/btrbk_tui/config.json",
        "/home/user/.config/btrbk_restore/config.json",
        "/root/.config/btrbk_restore/config.json",
    ];
    assert_eq!(candidates, expected.iter().map(|path| path.as_bytes().to_vec()).collect::<Vec<_>>());
    assert!(is_legacy_config(&candidates[2]));
    assert!(!is_legacy_config(&candidates[0]));

    // plain root login: no duplicates, and never a world-writable fallback
    assert_eq!(config_candidates(None, Some(b"/root")).len(), 2);
    assert_eq!(config_candidates(None, None)[0], b"/root/.config/btrbk_tui/config.json".to_vec());
}

#[test]
fn the_same_home_is_looked_at_once() {
    assert_eq!(config_candidates(Some(b"/root"), Some(b"/root")).len(), 2);
    // paths are compared by component
    assert_eq!(config_candidates(Some(b"/root"), Some(b"//root/./")).len(), 2);
    assert_eq!(
        config_candidates(Some(b"/home/u/"), None)[1],
        b"/home/u/.config/btrbk_restore/config.json".to_vec()
    );
}

fn bytes(paths: &[&str]) -> Vec<Vec<u8>> {
    paths.iter().map(|path| path.as_bytes().to_vec()).collect()
}

#[test]
fn an_old_location_is_read_but_never_written() {
    let paths = config_candidates(Some(b"/home/u"), Some(b"/root"));
    // the first existing file decides
    let found = locate_config(None, &paths, &vec![false, true, true, true]);
    assert_eq!((found.path, found.read_from), (paths[1].clone(), None));
    let found = locate_config(None, &paths, &vec![false, false, false, true]);
    assert_eq!((found.path, found.read_from), (paths[0].clone(), Some(paths[3].clone())));
    let found = locate_config(None, &paths, &vec![false, false, false, false]);
    assert_eq!((found.path, found.read_from), (paths[0].clone(), None));
    // a file named on the command line counts as it is
    let found = locate_config(Some(b"x.json".to_vec()), &paths, &vec![true, true, true, true]);
    assert_eq!((found.path, found.read_from), (b"x.json".to_vec(), None));
    assert!(!is_legacy_config(b"config.json"));
    assert!(is_legacy_config(b"btrbk_restore/./config.json"));
}

#[test]
fn a_config_in_a_users_home_is_given_to_them() {
    let user = Some(InvokingUser { uid: 1000, gid: 100, home: b"/home/u".to_vec() });
    assert_eq!(config_owner(&user, b"/home/u/.config/btrbk_tui/config.json"), Some((1000, 100)));
    assert_eq!(config_owner(&user, b"/home/user2/config.json"), None);
    assert_eq!(config_owner(&user, b"/root/config.json"), None);
    assert_eq!(config_owner(&None, b"/home/u/config.json"), None);
    let created = bytes(&["/home/u/.config/btrbk_tui", "/home/u/.config"]);
    assert_eq!(
        paths_to_hand_over(Some((1, 2)), &created, &b"/home/u/c".to_vec()),
        bytes(&["/home/u/.config/btrbk_tui", "/home/u/.config", "/home/u/c"])
    );
    assert!(paths_to_hand_over(None, &created, &b"/c".to_vec()).is_empty());
}

#[test]
fn the_invoking_user_is_behind_sudo_or_pkexec() {
    let text = |s: &str| Some(s.to_string());
    assert_eq!(invoking_uid(text("1000"), text("7")), Some(1000));
    assert_eq!(invoking_uid(None, text("7")), Some(7));
    assert_eq!(invoking_uid(None, None), None);
    // root is nobody behind sudo
    assert_eq!(invoking_uid(text("0"), text("7")), None);
    assert_eq!(invoking_uid(text("x"), text("7")), None);
    for number in ["0", "7", "+7", "-7", "", "+", "4294967295", "4294967296", "00012", " 1", "1a", "99999999999999999999"] {
        assert_eq!(parse_number(number), number.parse::<u32>().ok());
    }
}

#[test]
fn defaults_are_the_usual_paths() {
    assert_eq!(
        Config::default(),
        Config {
            btr_pool_dir: "/mnt/btr_pool".to_string(),
            snapshots_dir: "/mnt/btr_pool/btrbk_snapshots".to_string(),
            auto_cleanup: false,
            confirm_actions: true,
            show_timestamps: true,
            theme: "default".to_string(),
        }
    );
}

#[test]
fn paths_are_joined_and_compared_like_the_standard_library_does() {
    let samples = [
        "", "/", "a", "/a", "a/b", "/a/b/", "./a", "a/./b", "//a//b", ".", "..", "a/..", "/.", "./", "../x",
    ];
    for a in samples {
        for b in samples {
            let (pa, pb) = (Path::new(a), Path::new(b));
            assert_eq!(join_text(a, b), pa.join(b).to_str().unwrap());
            assert_eq!(join_bytes(a.as_bytes(), b.as_bytes()), pa.join(b).to_str().unwrap().as_bytes());
            assert_eq!(is_same_path(a.as_bytes(), b.as_bytes()), pa == pb);
            assert_eq!(is_below(a.as_bytes(), b.as_bytes()), pa.starts_with(pb));
        }
        assert_eq!(components(a.as_bytes()).len(), Path::new(a).components().count());
    }
}

#[test]
fn missing_directories_are_found_from_the_bottom_up() {
    let dirs = ancestors(b"/home/u/.config/btrbk_tui/config.json");
    assert_eq!(
        dirs,
        bytes(&["/home/u/.config/btrbk_tui", "/home/u/.config", "/home/u", "/home", "/"])
    );
    assert_eq!(
        missing_dirs(&dirs, &vec![false, false, true, true, true]),
        bytes(&["/home/u/.config/btrbk_tui", "/home/u/.config"])
    );
    assert!(missing_dirs(&dirs, &vec![true, false, false, true, true]).is_empty());
    assert_eq!(ancestors(b"config.json"), bytes(&[""]));
}
