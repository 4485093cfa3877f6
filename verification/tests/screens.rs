use btrbk_tui::canvas::{halved, Canvas, Draw, Size, Style};
use btrbk_tui::config::{Config, ConfigLocation};
use btrbk_tui::keys::{KEY_ENTER, KEY_ESC};
use btrbk_tui::screens::{
    column_heading, columns_for, dialog_answer, draw_columns, draw_dialog, draw_edit_form,
    draw_footer, draw_header, draw_input, draw_run_message, draw_run_screen, draw_settings,
    render_output_area, Column,
};
use btrbk_tui::session::{App, Screen, STATUS_SHORT};

fn screen(height: i32, width: i32) -> Canvas {
    Canvas::new(Size { height, width })
}

/// What a terminal would show.
fn picture(canvas: &Canvas) -> Vec<String> {
    let rows = canvas.size.height.max(0) as usize;
    let cols = canvas.size.width.max(0) as usize;
    let mut cells = vec![vec![' '; cols]; rows];
    for draw in &canvas.list {
        for (i, c) in draw.text.chars().enumerate() {
            // out of bounds here would be out of bounds there
            cells[draw.y as usize][draw.x as usize + i] = c;
        }
    }
    cells.iter().map(|row| row.iter().collect::<String>().trim_end().to_string()).collect()
}

fn draw(y: i32, x: i32, text: &str, style: Style) -> Draw {
    Draw { y, x, text: text.to_string(), style }
}

#[test]
fn drawing_is_clipped() {
    let mut canvas = screen(2, 5);
    canvas.put(0, 3, "abc", Style::Bold);
    canvas.put(-1, 0, "x", Style::Plain);
    canvas.put(0, -1, "x", Style::Plain);
    canvas.put(2, 0, "x", Style::Plain);
    canvas.put(0, 5, "x", Style::Plain);
    canvas.put(1, 0, "è più lungo", Style::Dim);
    assert_eq!(canvas.list, [draw(0, 3, "ab", Style::Bold), draw(1, 0, "è più", Style::Dim)]);
    let mut canvas = screen(2, 7);
    canvas.put_centered(0, "ab", Style::Info);
    canvas.put_centered(1, "too long for it", Style::Info);
    canvas.put_separator(1);
    assert_eq!(
        canvas.list,
        [
            draw(0, 2, "ab", Style::Info),
            draw(1, 0, "too lon", Style::Info),
            draw(1, 0, "-------", Style::Plain),
        ]
    );
    assert_eq!((halved(7), halved(-1), halved(-3)), (3, 0, -1));
}

#[test]
fn header_and_footer() {
    let mut canvas = screen(10, 21);
    draw_header(&mut canvas);
    assert_eq!(
        canvas.list,
        [
            draw(0, 0, "  BTRBK TUI v2.8.0   ", Style::StatusBarBold),
            draw(1, 0, "---------------------", Style::Plain),
        ]
    );
    let footer = |which: Screen, reboot: bool| {
        let mut canvas = screen(10, 300);
        draw_footer(&mut canvas, which, reboot);
        assert_eq!((canvas.list[0].y, canvas.list[1].y), (8, 9));
        assert_eq!(canvas.list[1].style, Style::StatusBar);
        canvas.list[1].text.clone()
    };
    assert_eq!(
        footer(Screen::Main, false),
        "Up/Down: Navigate | Left/Right: Switch | ENTER: Restore | S: Settings | R: Refresh | I: Snapshot | P: Purge OLD | B: Clean BROKEN | Q: Quit"
    );
    assert!(footer(Screen::Main, true).ends_with(" | B: Clean BROKEN | H: REBOOT | Q: Quit"));
    assert_eq!(
        footer(Screen::Settings, true),
        "Up/Down: Navigate | ENTER: Edit | SPACE: Toggle | S: Save | ESC: Back | Q: Quit"
    );
}

fn column(heading: &str, labels: &[&str]) -> Column {
    Column {
        heading: heading.to_string(),
        labels: labels.iter().map(|label| label.to_string()).collect(),
    }
}

#[test]
fn columns_share_the_width() {
    let list = vec![column("@ (2)", &["aaaaaaaaaaaa", "b"]), column("@HOME (1)", &["c"])];
    let mut canvas = screen(20, 24);
    draw_columns(&mut canvas, &list, 0, 1);
    assert_eq!(
        canvas.list,
        [
            draw(3, 2, "@ (2)", Style::Heading),
            draw(4, 2, "aaaaaaaa", Style::Plain),
            draw(5, 2, "b", Style::Selected),
            draw(3, 12, "@HOME (1", Style::Heading),
            draw(4, 12, "c", Style::Plain),
        ]
    );
}

#[test]
fn a_long_column_scrolls_to_its_selection() {
    let labels: Vec<String> = (1..=12).map(|i| format!("s{}", i)).collect();
    let labels: Vec<&str> = labels.iter().map(|l| l.as_str()).collect();
    let list = vec![column("x", &labels), column("y", &labels)];
    // three rows are visible
    let mut canvas = screen(12, 44);
    draw_columns(&mut canvas, &list, 0, 6);
    let rows = picture(&canvas);
    assert_eq!(rows[4], "  s5                  s1");
    assert_eq!(rows[5], "  s6                  s2");
    assert_eq!(rows[6], "  s7                  s3");
    assert_eq!(rows[7], "  [5-7 of 12]         [1-3 of 12]");
    let selected: Vec<&str> = canvas
        .list
        .iter()
        .filter(|d| d.style == Style::Selected)
        .map(|d| d.text.as_str())
        .collect();
    assert_eq!(selected, ["s7"]);
    // whichever row is selected, it is shown
    for height in 6..20 {
        for row in 0..12 {
            let mut canvas = screen(height, 44);
            draw_columns(&mut canvas, &list, 1, row);
            assert_eq!(canvas.list.iter().filter(|d| d.style == Style::Selected).count(), 1);
        }
    }
}

fn app() -> App {
    App::new(ConfigLocation { path: b"/home/u/c.json".to_vec(), read_from: None }, None)
}

#[test]
fn headings_are_in_capitals_with_a_count() {
    assert_eq!(column_heading("@HOME", 3), "@HOME (3)");
    let groups = vec![
        ("@home".to_string(), vec!["@home.20260803T1405".to_string()]),
        ("straße".to_string(), vec![]),
    ];
    let list = columns_for(&groups, true);
    assert_eq!(list[0].heading, "@HOME (1)");
    assert_eq!(list[0].labels, ["@home.20260803T1405 (2026-08-03 14:05:00)"]);
    assert_eq!(list[1].heading, "STRASSE (0)");
    assert_eq!(columns_for(&groups, false)[0].labels, ["@home.20260803T1405"]);
}

#[test]
fn the_main_screen_is_complete() {
    let groups = vec![("@".to_string(), vec!["@.20260803".to_string(), "@.20260802".to_string()])];
    let mut a = app();
    a.selected_row = 7;
    a.set_status("hello", STATUS_SHORT, 0);
    let size = Size { height: 14, width: 70 };
    let canvas = a.draw_screen(size, &groups, false, 1);
    let line = "-".repeat(70);
    assert_eq!(
        picture(&canvas),
        [
            "                           BTRBK TUI v2.8.0",
            line.as_str(),
            "  Pool: /mnt/btr_pool | Snapshots: /mnt/btr_pool/btrbk_snapshots",
            "  @ (2)",
            "  @.20260803 (2026-08-03 00:00:00)",
            "  @.20260802 (2026-08-02 00:00:00)",
            "",
            "",
            "",
            "",
            "",
            "hello",
            line.as_str(),
            "Up/Down: Navigate | Left/Right: Switch | ENTER: Restore | S: Settings",
        ]
    );
    // the selection has been brought back inside
    assert_eq!(a.selected_row, 1);
    // the message goes when its time is over, and the warning takes its place
    a.reboot_needed = true;
    let canvas = a.draw_screen(size, &groups, false, STATUS_SHORT);
    assert_eq!(picture(&canvas)[11], "WARNING: REBOOT REQUIRED - Press H to reboot system");
    assert!(a.status.is_none());
}

#[test]
fn an_empty_list_says_what_to_do() {
    let mut a = app();
    let canvas = a.draw_screen(Size { height: 20, width: 60 }, &vec![], false, 0);
    let rows = picture(&canvas);
    assert_eq!(rows[10].trim(), "No snapshots found!");
    assert_eq!(rows[11].trim(), "S: check the paths | I: create snapshots");
    assert!(canvas.list.contains(&draw(10, 20, "No snapshots found!", Style::Warning)));
}

#[test]
fn the_settings_screen_shows_what_fits() {
    let mut canvas = screen(20, 80);
    draw_settings(&mut canvas, &Config::default(), 2, "/c", true, Some("/o".to_string()));
    let rows = picture(&canvas);
    assert_eq!(rows[3], "    SETTINGS");
    assert_eq!(rows[4], "    BTR Pool Directory:");
    assert_eq!(rows[5], "      /mnt/btr_pool");
    assert_eq!(rows[6], "    Snapshots Directory:");
    assert_eq!(rows[8], "    Auto Cleanup .BROKEN:");
    assert_eq!(rows[9], "      No");
    assert_eq!(rows[10], "    Confirm Actions:");
    assert_eq!(rows[11], "      Yes");
    assert_eq!(rows[12], "    Show Timestamps:");
    assert_eq!(rows[15], "    Config: /c (EXISTS)");
    assert_eq!(rows[16], "    Read from the old location /o: saving moves it");
    assert!(canvas.list.contains(&draw(8, 4, "Auto Cleanup .BROKEN:", Style::Selected)));
    assert!(canvas.list.contains(&draw(9, 6, "No", Style::Selected)));

    let mut canvas = screen(13, 80);
    draw_settings(&mut canvas, &Config::default(), 0, "/c", false, None);
    let rows = picture(&canvas);
    assert_eq!(rows[6], "    Snapshots Directory:");
    assert_eq!(rows[8], "    Config: /c (NOT FOUND)");
    assert_eq!(rows[9], "");

    let mut a = app();
    a.screen = Screen::Settings;
    a.config_path = b"/h\xff/c.json".to_vec();
    let canvas = a.draw_screen(Size { height: 24, width: 80 }, &vec![], true, 0);
    assert_eq!(picture(&canvas)[19], "    Config: /h\u{fffd}/c.json (EXISTS)");
}

#[test]
fn a_dialog_is_framed_and_centered() {
    let mut canvas = screen(9, 30);
    draw_dialog(&mut canvas, "Delete it?\nReally?");
    assert_eq!(
        picture(&canvas),
        [
            "",
            "     +------------------+",
            "     |  Delete it?      |",
            "     |  Really?         |",
            "     |                  |",
            "     |  Y: Yes | N: No  |",
            "     +------------------+",
            "",
            "",
        ]
    );
    // too narrow: text is cut, the frame stays
    let mut canvas = screen(9, 14);
    draw_dialog(&mut canvas, "Delete it?");
    assert_eq!(picture(&canvas)[2], "  +--------+");
    assert_eq!(picture(&canvas)[3], "  |  Dele  |");
    assert_eq!(picture(&canvas)[5], "  |  Y: Y  |");
}

#[test]
fn dialogs_are_answered_by_key() {
    assert_eq!(dialog_answer('y' as i32), Some(true));
    assert_eq!(dialog_answer('Y' as i32), Some(true));
    assert_eq!(dialog_answer('n' as i32), Some(false));
    assert_eq!(dialog_answer(KEY_ESC), Some(false));
    assert_eq!(dialog_answer(KEY_ENTER), None);
    assert_eq!(dialog_answer('x' as i32), None);
}

#[test]
fn a_path_is_entered_in_a_form() {
    let mut canvas = screen(10, 60);
    draw_edit_form(&mut canvas, "btr_pool_dir", "/mnt/btr_pool");
    let rows = picture(&canvas);
    assert_eq!(rows[4], "    Edit btr_pool_dir:");
    assert_eq!(rows[5], "    Current: /mnt/btr_pool");
    assert_eq!(rows[6], "    New:");
    assert_eq!(rows[8], "    Press ENTER to confirm, ESC to cancel");
    assert_eq!(canvas.list[0], draw(3, 4, &" ".repeat(52), Style::Plain));

    let mut canvas = screen(10, 20);
    let input: Vec<char> = "/a/long/path".chars().collect();
    // seven columns: the end of the line is shown
    assert_eq!(draw_input(&mut canvas, &input), (6, 16));
    assert_eq!(
        canvas.list,
        [draw(6, 9, "       ", Style::Plain), draw(6, 9, "ng/path", Style::Plain)]
    );
    let mut canvas = screen(10, 20);
    assert_eq!(draw_input(&mut canvas, &['x']), (6, 10));
}

#[test]
fn a_run_shows_the_last_lines_that_fit() {
    let mut canvas = screen(15, 50);
    draw_run_screen(&mut canvas);
    let rows = picture(&canvas);
    assert_eq!(rows[4].trim(), "Creating Snapshots with btrbk...");
    assert_eq!(rows[6].trim(), "Press ESC to cancel or wait for completion");
    assert_eq!(rows[7], "-".repeat(50));
    assert_eq!(rows[11], "-".repeat(50));
    let lines: Vec<String> = (1..=5).map(|i| format!("line {}", i)).collect();
    render_output_area(&mut canvas, &lines);
    draw_run_message(&mut canvas, "done", Style::Success);
    let rows = picture(&canvas);
    assert_eq!(rows[8..11], ["line 3", "line 4", "line 5"]);
    assert_eq!(rows[13].trim(), "done");
    // fewer lines: the rest of the area is cleared
    render_output_area(&mut canvas, &lines[..1].to_vec());
    assert_eq!(picture(&canvas)[8..11], ["line 1", "", ""]);
}

#[test]
fn no_terminal_is_too_small() {
    let groups = vec![
        ("@".to_string(), (1..=30).map(|i| format!("@.202608{:02}", i)).collect::<Vec<String>>()),
        ("@home".to_string(), vec!["@home.20260801".to_string()]),
        ("@games".to_string(), vec![]),
    ];
    for height in -1..30 {
        for width in -1..40 {
            let size = Size { height, width };
            for which in [Screen::Main, Screen::Settings] {
                let mut a = app();
                a.screen = which;
                a.selected_row = 25;
                a.set_status("a message that is rather long for a small screen", 1, 0);
                let mut canvas = a.draw_screen(size, &groups, true, 0);
                draw_dialog(&mut canvas, "Restore @ from @.20260801?\nReplaces it");
                draw_edit_form(&mut canvas, "snapshots_dir", "/mnt/btr_pool/btrbk_snapshots");
                draw_input(&mut canvas, &['a'; 50]);
                draw_run_screen(&mut canvas);
                render_output_area(&mut canvas, &vec!["x".repeat(100); 50]);
                // the picture indexes every cell that is drawn
                assert_eq!(picture(&canvas).len(), height.max(0) as usize);
            }
        }
    }
}
