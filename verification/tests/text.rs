use btrbk_tui::text::{
    center, comes_before, control, decimal_text, joined, replaced, split_fields, split_lines,
    to_chars, to_text, trimmed, truncate_str, white_space,
};

#[test]
fn characters_are_classified_like_the_standard_library_does() {
    for code in 0..=0x10FFFFu32 {
        if let Some(c) = char::from_u32(code) {
            assert_eq!(white_space(c), c.is_whitespace());
            assert_eq!(control(c), c.is_control());
        }
    }
}

const SAMPLES: [&str; 14] = [
    "",
    " ",
    "a",
    "  a  b ",
    "a\nb",
    "a\r\nb\r\n",
    "\n\n",
    "a\r",
    "a\rb\n",
    "\u{a0}già\u{2003}fatto\u{85}",
    "x y\tz\n",
    "\r\n",
    "last line\nno end",
    "ééé ééé",
];

#[test]
fn texts_are_cut_like_the_standard_library_does() {
    for sample in SAMPLES {
        let chars = to_chars(sample);
        assert_eq!(to_text(&chars), sample);
        assert_eq!(to_text(trimmed(&chars)), sample.trim());
        let fields: Vec<String> = split_fields(&chars).iter().map(|f| to_text(f)).collect();
        assert_eq!(fields, sample.split_whitespace().collect::<Vec<_>>());
        let lines: Vec<String> = split_lines(&chars).iter().map(|l| to_text(l)).collect();
        assert_eq!(lines, sample.lines().collect::<Vec<_>>());
        assert_eq!(replaced(sample, 'a', "<>"), sample.replace('a', "<>"));
        for width in 0..12 {
            assert_eq!(center(sample, width), format!("{:^width$}", sample, width = width));
            assert_eq!(
                truncate_str(sample, width),
                sample.chars().take(width).collect::<String>()
            );
        }
        for other in SAMPLES {
            assert_eq!(comes_before(&to_chars(sample), &to_chars(other)), sample < other);
        }
    }
}

#[test]
fn numbers_are_written_in_decimal() {
    for n in [0, 7, 10, 99, 100, 12345, u64::MAX] {
        assert_eq!(decimal_text(n), n.to_string());
    }
}

#[test]
fn lists_are_joined() {
    let list = |items: &[&str]| items.iter().map(|i| i.to_string()).collect::<Vec<String>>();
    assert_eq!(joined(&list(&[]), ", "), "");
    assert_eq!(joined(&list(&["a"]), ", "), "a");
    assert_eq!(joined(&list(&["a", "b", "c"]), ", "), "a, b, c");
}

#[test]
fn truncation_respects_characters() {
    assert_eq!(truncate_str("già fatto", 3), "già");
    assert_eq!(truncate_str("già", 10), "già");
    assert_eq!(truncate_str("già", 0), "");
}
