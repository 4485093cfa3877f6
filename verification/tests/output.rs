use btrbk_tui::output::{
    cannot_run, clean_output_line, command_result, last_line, last_line_of, OutputLog,
    StreamSplitter, MAX_OUTPUT_LINES,
};

#[test]
fn output_lines_lose_ansi_and_control_characters() {
    assert_eq!(clean_output_line("\x1b[1;32mdone\x1b[0m"), "done");
    assert_eq!(clean_output_line("a\tb\x07c"), "a bc");
    assert_eq!(clean_output_line("già fatto"), "già fatto");
}

#[test]
fn progress_updates_replace_each_other() {
    let mut log = OutputLog::default();
    log.push("Creating snapshot", false);
    log.push("10MiB 0:00:01", true);
    log.push("20MiB 0:00:02", true);
    assert_eq!(log.lines, ["Creating snapshot", "20MiB 0:00:02"]);

    // "\r\n" ends the meter: its last state stays on screen
    assert!(!log.push("", false));
    log.push("next subvolume", false);
    assert_eq!(log.lines, ["Creating snapshot", "20MiB 0:00:02", "next subvolume"]);
}

#[test]
fn streams_are_split_on_both_line_endings() {
    let mut splitter = StreamSplitter::new();
    let mut received: Vec<(String, bool)> = splitter.feed(&b"one\ntwo\rthree\r\nlast"[..]);
    received.extend(splitter.finish());
    let expected = [("one", false), ("two", true), ("three", true), ("", false), ("last", false)];
    assert_eq!(received.len(), expected.len());
    for ((text, transient), (want_text, want_transient)) in received.iter().zip(expected) {
        assert_eq!((text.as_str(), *transient), (want_text, want_transient));
    }
}

#[test]
fn reads_may_be_cut_anywhere() {
    let stream = "uno\r\ndue più\rtre\n\nfine".as_bytes();
    let mut whole = StreamSplitter::new();
    let mut expected = whole.feed(stream);
    expected.extend(whole.finish());
    for cut in 0..=stream.len() {
        let mut splitter = StreamSplitter::new();
        let mut received = splitter.feed(&stream[..cut]);
        received.extend(splitter.feed(&stream[cut..]));
        received.extend(splitter.finish());
        assert_eq!(received, expected);
    }
    // nothing is left over after a line ending
    let mut splitter = StreamSplitter::new();
    assert_eq!(splitter.feed(b"x\n"), [("x".to_string(), false)]);
    assert_eq!(splitter.finish(), None);
}

#[test]
fn texts_and_their_ends_give_the_stream_back() {
    for stream in ["", "a", "a\n", "a\r\nbè\rc", "\n\n", "più\r", "x\ny"] {
        for size in 1..5 {
            let mut splitter = StreamSplitter::new();
            let mut received = Vec::new();
            for read in stream.as_bytes().chunks(size) {
                received.extend(splitter.feed(read));
            }
            received.extend(splitter.finish());
            let mut out = String::new();
            for (text, transient) in &received {
                assert!(!text.contains('\n') && !text.contains('\r'));
                out.push_str(text);
                out.push(if *transient { '\r' } else { '\n' });
            }
            let whole = stream.is_empty() || stream.ends_with('\n') || stream.ends_with('\r');
            assert_eq!(out, if whole { stream.to_string() } else { format!("{}\n", stream) });
        }
    }
}

#[test]
fn bytes_that_are_not_utf8_are_replaced() {
    let mut splitter = StreamSplitter::new();
    assert_eq!(splitter.feed(b"a\xffb\n"), [("a\u{fffd}b".to_string(), false)]);
    // a character cut in two by a read is whole again
    assert!(splitter.feed(&"è".as_bytes()[..1]).is_empty());
    assert_eq!(splitter.feed(&[0xa8, b'\n']), [("è".to_string(), false)]);
}

#[test]
fn cleaning_leaves_nothing_to_clean() {
    for text in ["\x1b[2K\x1b[1Gx", "\x1b", "\x1b[", "\x1b[12~y", "\x1bx", "\x1b[\x1b[mz", "\u{85}p\u{9b}"] {
        let once = clean_output_line(text);
        assert!(once.chars().all(|c| !c.is_control()));
        assert_eq!(clean_output_line(&once), once);
    }
    assert_eq!(clean_output_line("\x1b[2K\x1b[1Gx"), "x");
    assert_eq!(clean_output_line("\x1bx"), "x");
    assert_eq!(clean_output_line("\x1b[12~y"), "y");
    assert_eq!(clean_output_line("\x1b[\x1b[mz"), "z");
    assert_eq!(clean_output_line("\x1b[1;"), "");
    assert_eq!(clean_output_line(""), "");
}

#[test]
fn blank_lines_are_not_kept() {
    let mut log = OutputLog::default();
    assert!(!log.push("   ", false));
    assert!(!log.push("\x1b[0m", true));
    assert!(log.lines.is_empty());
    assert!(log.push("meter", true));
    // a blank progress update does not make it permanent
    assert!(!log.push("", true));
    assert!(log.push("meter 2", false));
    assert_eq!(log.lines, ["meter 2"]);
}

#[test]
fn log_forgets_its_oldest_lines() {
    let mut log = OutputLog::default();
    for i in 0..MAX_OUTPUT_LINES + 3 {
        assert!(log.push(&format!("line {}", i), false));
    }
    assert_eq!(log.lines.len(), 1000);
    assert_eq!(log.lines[0], "line 3");
    assert_eq!(log.lines[999], "line 1002");
}

#[test]
fn the_last_line_says_why() {
    assert_eq!(last_line(b"one\ntwo\n\n  \n").as_deref(), Some("two"));
    assert_eq!(last_line(b"  \x1b[31mERROR: x\x1b[0m  \r\n").as_deref(), Some("ERROR: x"));
    assert_eq!(last_line(b""), None);
    assert_eq!(last_line(b"\n\x1b[0m\n"), None);
    assert_eq!(last_line(b"bad \xf0\x28\n").as_deref(), Some("bad \u{fffd}("));
    assert_eq!(last_line_of("a\nb").as_deref(), Some("b"));
    // whatever came before
    for before in ["", "a", "\n\n", "z\x1b[0m"] {
        let text = format!("{}\nwhy\n \n", before);
        assert_eq!(last_line_of(&text).as_deref(), Some("why"));
    }
    assert_eq!(last_line("perché è così\n".as_bytes()).as_deref(), Some("perché è così"));
}

#[test]
fn failed_commands_give_a_reason() {
    assert_eq!(command_result("btrfs", true, b"warning\n", "exit status: 0"), Ok(()));
    assert_eq!(
        command_result("btrfs", false, b"x\nERROR: not a subvolume\n", "exit status: 1"),
        Err("ERROR: not a subvolume".to_string())
    );
    assert_eq!(
        command_result("btrfs", false, b"", "exit status: 1"),
        Err("btrfs failed (exit status: 1)".to_string())
    );
    assert_eq!(cannot_run("reboot", "not found"), "cannot run reboot: not found");
}
