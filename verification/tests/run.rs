use btrbk_tui::canvas::Style;
use btrbk_tui::keys::{ERR, KEY_ESC};
use btrbk_tui::run::{BtrbkRun, RunEnd, LINGER, PATIENCE};

fn message(text: &str, transient: bool) -> (String, bool) {
    (text.to_string(), transient)
}

#[test]
fn escape_interrupts_once_and_then_kills_once() {
    let mut run = BtrbkRun::new();
    assert!(!run.press(ERR, 0));
    assert!(!run.press('q' as i32, 0));
    assert!(!run.escalate(u64::MAX));
    assert!(run.press(KEY_ESC, 1_000));
    assert!(!run.press(KEY_ESC, 2_000));
    // btrbk has five seconds to stop
    assert!(!run.escalate(1_000));
    assert!(!run.escalate(1_000 + PATIENCE));
    assert!(!run.escalate(500));
    assert!(run.escalate(1_001 + PATIENCE));
    assert!(!run.escalate(u64::MAX));
    assert_eq!(PATIENCE, 5_000_000_000);
}

#[test]
fn a_run_is_over_only_when_btrbk_has_gone() {
    let mut run = BtrbkRun::new();
    assert!(!run.observe(false, true, false, 0));
    // gone, but output may still come
    assert!(!run.observe(true, false, true, 100));
    assert!(!run.observe(true, false, false, 100 + LINGER));
    assert!(!run.observe(true, false, true, 101 + LINGER));
    assert!(run.observe(false, false, false, 101 + LINGER));
    // closed pipes end it at once
    let mut run = BtrbkRun::new();
    assert!(run.observe(true, true, true, 100));
    assert_eq!(LINGER, 500_000_000);
}

#[test]
fn output_is_collected() {
    let mut run = BtrbkRun::new();
    assert!(!run.receive(&vec![]));
    assert!(!run.receive(&vec![message(" ", false), message("", true)]));
    assert!(run.receive(&vec![message("a", false), message("", false)]));
    assert!(run.receive(&vec![message("10%", true), message("20%", true)]));
    assert_eq!(run.log.lines, ["a", "20%"]);
}

#[test]
fn the_end_of_a_run_is_reported() {
    let mut run = BtrbkRun::new();
    assert_eq!(run.end(true), RunEnd::Succeeded);
    assert_eq!(run.end(false), RunEnd::Failed("btrbk exited with an error".to_string()));
    run.receive(&vec![message("ERROR: x", false)]);
    assert_eq!(run.end(false), RunEnd::Failed("ERROR: x".to_string()));
    run.press(KEY_ESC, 7);
    // cancelled, whatever the exit status
    assert_eq!(run.end(true), RunEnd::Cancelled);
    assert_eq!(run.end(false), RunEnd::Cancelled);

    // what outlives btrbk is killed after a cancel only
    assert!(RunEnd::Cancelled.kills_the_rest());
    assert!(!RunEnd::Succeeded.kills_the_rest());
    assert!(!RunEnd::Failed("ERROR: x".to_string()).kills_the_rest());

    assert_eq!(RunEnd::Cancelled.banner(), None);
    assert_eq!(
        RunEnd::Succeeded.banner(),
        Some((
            Style::Success,
            "[OK] Snapshots created successfully! Press any key to continue..."
        ))
    );
    assert_eq!(
        RunEnd::Failed(String::new()).banner(),
        Some((Style::Warning, "[FAILED] Error creating snapshots! Press any key to continue..."))
    );
    assert_eq!(RunEnd::Cancelled.result(), Err("cancelled by user".to_string()));
    assert_eq!(RunEnd::Succeeded.result(), Ok(()));
    assert_eq!(RunEnd::Failed("z".to_string()).result(), Err("z".to_string()));
}
