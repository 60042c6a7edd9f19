use gai::style::{panel_lines, wrap, Style, GREEN, RED, YELLOW};

#[test]
fn colours_wrap_text_in_sgr_codes() {
    let s = Style::for_output(false, true);
    assert_eq!(s.green("ok"), "\x1b[32mok\x1b[0m");
    assert_eq!(s.red("bad"), "\x1b[31mbad\x1b[0m");
    assert_eq!(s.dim("meh"), "\x1b[2mmeh\x1b[0m");
    assert_eq!(s.accent(YELLOW, "hm"), "\x1b[33mhm\x1b[0m");
}

#[test]
fn no_colour_for_pipes_or_no_color() {
    for s in [Style::for_output(true, true), Style::for_output(false, false), Style::for_output(true, false)] {
        assert_eq!(s.green("ok"), "ok");
        assert_eq!(s.accent(RED, "x"), "x");
    }
    assert_eq!(GREEN, "32");
}

#[test]
fn wrap_breaks_greedily_at_the_width() {
    assert_eq!(wrap("aa bb cc dd", 5), vec!["aa bb", "cc dd"]);
    assert_eq!(wrap("aa bb cc", 8), vec!["aa bb cc"]);
    assert_eq!(wrap("  spaced   out  ", 20), vec!["spaced out"]);
}

#[test]
fn wrap_gives_long_words_their_own_line() {
    assert_eq!(wrap("a verylongword b", 4), vec!["a", "verylongword", "b"]);
}

#[test]
fn wrap_of_blank_text_is_one_empty_line() {
    assert_eq!(wrap("", 10), vec![""]);
    assert_eq!(wrap("   ", 10), vec![""]);
}

#[test]
fn panel_borders_agree_on_width() {
    let s = Style::for_output(true, false);
    let lines = panel_lines(&s, "Result:", &vec!["10.0.0.1".to_string()], GREEN);
    assert_eq!(lines.len(), 3);
    let widths: Vec<usize> = lines.iter().map(|l| l.chars().count()).collect();
    assert_eq!(widths, vec![76, 76, 76]);
    assert!(lines[0].starts_with("  ┌─ Result: ─"));
    assert!(lines[0].ends_with("┐"));
    assert_eq!(lines[1], format!("  │ 10.0.0.1{} │", " ".repeat(70 - 8)));
    assert_eq!(lines[2], format!("  └{}┘", "─".repeat(72)));
}

#[test]
fn panel_wraps_long_body_lines() {
    let s = Style::for_output(true, false);
    let long = "word ".repeat(30);
    let lines = panel_lines(&s, "T", &vec![long], YELLOW);
    // 30 words of 4 letters: 14 per 70-column row, so 3 rows.
    assert_eq!(lines.len(), 5);
}

#[test]
fn panel_colours_borders_only() {
    let s = Style::for_output(false, true);
    let lines = panel_lines(&s, "OK", &vec!["fine".to_string()], GREEN);
    assert!(lines[0].starts_with("  \x1b[32m┌─ OK "));
    assert!(lines[1].starts_with("  \x1b[32m│\x1b[0m fine"));
}
