use btrbk_tui::ssh::{btrbk_conf, parse_ssh_target, ssh_arguments, SshTarget};

const CONF: &str = "\
transaction_log            /var/log/btrbk.log
ssh_identity /etc/btrbk/ssh/id_ed25519
volume /mnt/btr_pool
  target ssh://10.0.0.1:2222/mnt/backup/host-btrfs
  subvolume @
ssh_user backup
";

#[test]
fn ssh_target_is_the_first_one_with_the_options_before_it() {
    assert_eq!(
        parse_ssh_target(CONF),
        Some(SshTarget {
            host: "10.0.0.1".to_string(),
            port: Some("2222".to_string()),
            path: "/mnt/backup/host-btrfs".to_string(),
            // declared after the target: not in effect for it
            user: None,
            identity: Some("/etc/btrbk/ssh/id_ed25519".to_string()),
        })
    );
    assert_eq!(parse_ssh_target("volume /mnt/btr_pool\n  subvolume @\n"), None);
    assert_eq!(parse_ssh_target("target /mnt/local/backup\n"), None);
}

#[test]
fn ssh_target_handles_ports_ipv6_and_target_types() {
    let target =
        parse_ssh_target("ssh_port 2200\ntarget send-receive ssh://nas.example/backup\n").unwrap();
    assert_eq!((target.host.as_str(), target.port.as_deref()), ("nas.example", Some("2200")));

    let target =
        parse_ssh_target("ssh_port default\ntarget ssh://[fd00::1]:2222/backup\n").unwrap();
    assert_eq!((target.host.as_str(), target.port.as_deref()), ("fd00::1", Some("2222")));

    let target = parse_ssh_target("ssh_identity no\ntarget ssh://[fd00::1]/backup\n").unwrap();
    assert_eq!((target.port, target.identity), (None, None));
}

#[test]
fn first_ssh_target_decides_even_when_it_is_useless() {
    // without a path, or without a host, the search is over
    assert_eq!(parse_ssh_target("target ssh://nas\ntarget ssh://other/backup\n"), None);
    assert_eq!(parse_ssh_target("target ssh:///backup\ntarget ssh://other/backup\n"), None);
    // a local target is passed over
    let target = parse_ssh_target("target /mnt/usb\ntarget ssh://other/backup\n").unwrap();
    assert_eq!((target.host.as_str(), target.path.as_str()), ("other", "/backup"));
    // a later target does not matter
    let target = parse_ssh_target("target ssh://a/x\ntarget ssh://b/y\n").unwrap();
    assert_eq!(target.host, "a");
    assert_eq!(parse_ssh_target(""), None);
}

#[test]
fn options_are_those_in_effect_at_the_target() {
    let target = parse_ssh_target(
        "ssh_user old\nssh_user new\nssh_identity /key\nssh_identity no\nssh_port 1\ntarget ssh://h:5/p\nssh_port 9\n",
    )
    .unwrap();
    assert_eq!(target.user.as_deref(), Some("new"));
    assert_eq!(target.identity, None);
    // the port in the address wins over the option
    assert_eq!(target.port.as_deref(), Some("5"));
    // "[" without "]" is an ordinary host name up to the first colon
    let target = parse_ssh_target("target ssh://[fd00::1/backup\n").unwrap();
    assert_eq!((target.host.as_str(), target.port.as_deref()), ("[fd00", Some(":1")));
    // something after "]" that is no port
    let target = parse_ssh_target("ssh_port 7\ntarget ssh://[::1]x/backup\n").unwrap();
    assert_eq!((target.host.as_str(), target.port.as_deref()), ("::1", Some("7")));
}

#[test]
fn ssh_is_run_with_the_options_of_the_target() {
    let target = SshTarget {
        host: "nas".to_string(),
        port: Some("2222".to_string()),
        path: "/mnt/o'neil".to_string(),
        user: Some("backup".to_string()),
        identity: Some("/key".to_string()),
    };
    assert_eq!(
        ssh_arguments(&target),
        [
            "-o",
            "ConnectTimeout=10",
            "-o",
            "BatchMode=yes",
            "-p",
            "2222",
            "-l",
            "backup",
            "-i",
            "/key",
            "nas",
            r"sudo btrfs subvolume list -u -R '/mnt/o'\''neil'",
        ]
    );
    let bare = SshTarget {
        host: "nas".to_string(),
        port: None,
        path: "/b".to_string(),
        user: None,
        identity: None,
    };
    assert_eq!(
        ssh_arguments(&bare),
        [
            "-o",
            "ConnectTimeout=10",
            "-o",
            "BatchMode=yes",
            "nas",
            "sudo btrfs subvolume list -u -R '/b'",
        ]
    );
    assert_eq!(btrbk_conf(), "/etc/btrbk/btrbk.conf");
}

#[test]
fn text_below_the_first_target_changes_nothing() {
    for conf in [
        CONF,
        "target ssh://nas/backup",
        "target ssh://nas/backup\r",
        "ssh_user me\ntarget ssh://nas:22/backup\n\n",
        // useless, and still the first
        "target ssh://",
    ] {
        for more in ["", "\n", "ssh_user other", "target ssh://other/elsewhere\n", "\r\nssh_port 1\r\n"] {
            assert_eq!(
                parse_ssh_target(&format!("{}\n{}", conf, more)),
                parse_ssh_target(conf),
                "{:?} {:?}",
                conf,
                more
            );
        }
    }
}
