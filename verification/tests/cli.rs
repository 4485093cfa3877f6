use btrbk_tui::cli::{parse_arguments, print_purge_plan, Invocation};
use btrbk_tui::purge::PurgePlan;

fn parse(args: &[&str]) -> Invocation {
    parse_arguments(&args.iter().map(|arg| arg.to_string()).collect())
}

fn run(purge_plan: bool, config_file: Option<&str>) -> Invocation {
    Invocation::Run { purge_plan, config_file: config_file.map(str::to_string) }
}

#[test]
fn options_are_read() {
    assert_eq!(parse(&[]), run(false, None));
    assert_eq!(parse(&["--purge-plan"]), run(true, None));
    assert_eq!(parse(&["-c", "a.json", "--purge-plan"]), run(true, Some("a.json")));
    assert_eq!(parse(&["--config", "a", "-c", "b"]), run(false, Some("b")));
    // an option's file is not an option
    assert_eq!(parse(&["-c", "--help"]), run(false, Some("--help")));
    assert_eq!(parse(&["--purge-plan", "-V", "--nonsense"]), Invocation::Version);
    assert_eq!(parse(&["--version"]), Invocation::Version);
    assert_eq!(parse(&["-h"]), Invocation::Help);
    assert_eq!(parse(&["--help", "-V"]), Invocation::Help);
    assert_eq!(parse(&["--purge-plan", "-c"]), Invocation::MissingFile("-c".to_string()));
    assert_eq!(parse(&["x", "--help"]), Invocation::UnknownOption("x".to_string()));
    assert_eq!(parse(&["-v"]), Invocation::UnknownOption("-v".to_string()));
}

#[test]
fn some_invocations_are_answered_at_once() {
    assert_eq!(run(true, None).answer(0), None);
    let answer = Invocation::Version.answer(1000).unwrap();
    assert_eq!((answer.text.as_str(), answer.is_error, answer.code), ("btrbk_tui 2.8.0", false, 0));
    let answer = Invocation::MissingFile("--config".to_string()).answer(1000).unwrap();
    assert_eq!(
        (answer.text.as_str(), answer.is_error, answer.code),
        ("Error: --config needs a file (try --help)", true, 2)
    );
    let answer = Invocation::UnknownOption("-x".to_string()).answer(1000).unwrap();
    assert_eq!(
        (answer.text.as_str(), answer.is_error, answer.code),
        ("Error: unknown option '-x' (try --help)", true, 2)
    );
    let answer = Invocation::Help.answer(1000).unwrap();
    assert_eq!(
        answer.text,
        "btrbk_tui 2.8.0 - restore Btrfs snapshots created with btrbk

Usage: sudo btrbk_tui [OPTION]...

  -c, --config FILE  use FILE as configuration (default: ~/.config/btrbk_tui/config.json
                     of the user who ran sudo)
  --purge-plan       show what Purge OLD would delete, then exit
  -V, --version      show the version
  -h, --help         show this help"
    );
    assert_eq!((answer.is_error, answer.code), (false, 0));
}

#[test]
fn only_root_may_run_the_tool() {
    for purge_plan in [false, true] {
        assert_eq!(run(purge_plan, None).answer(0), None);
        let answer = run(purge_plan, None).answer(1000).unwrap();
        assert_eq!(
            answer.text,
            "Error: This tool requires root privileges.\nPlease run with sudo."
        );
        assert_eq!((answer.is_error, answer.code), (true, 1));
    }
    // what needs no privileges is answered to anyone, and to root alike
    assert_eq!(Invocation::Help.answer(0), Invocation::Help.answer(1000));
    assert_eq!(Invocation::Version.answer(0), Invocation::Version.answer(1000));
}

#[test]
fn a_purge_plan_is_printed() {
    let names = |list: &[&str]| list.iter().map(|name| name.to_string()).collect();
    let plan = PurgePlan { delete: names(&["@.1", "@.2"]), skipped: names(&["@home"]) };
    let answer = print_purge_plan(&Ok(plan));
    assert_eq!(
        answer.text,
        "would delete  @.1
would delete  @.2
skipped       @home (no snapshot in common with the backup target)"
    );
    assert_eq!((answer.is_error, answer.code), (false, 0));
    let nothing = PurgePlan { delete: Vec::new(), skipped: Vec::new() };
    assert_eq!(print_purge_plan(&Ok(nothing)).text, "Nothing to purge.");
    let answer = print_purge_plan(&Err("no ssh target".to_string()));
    assert_eq!(
        (answer.text.as_str(), answer.is_error, answer.code),
        ("Error: no ssh target", true, 1)
    );
}
