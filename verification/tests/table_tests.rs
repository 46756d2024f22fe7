use eastmoney::table::{char_width, disp_width, pad, strip_ansi, truncate, Align, Table};

#[test]
fn display_width_counts_wide_characters_twice() {
    assert_eq!(disp_width("abc"), 3);
    assert_eq!(disp_width("润和软件"), 8);
    assert_eq!(disp_width("a润b"), 4);
    assert_eq!(disp_width(""), 0);
    assert_eq!(disp_width("ＡＢ"), 4);
    assert_eq!(disp_width("한국"), 4);
}

#[test]
fn character_width_ranges() {
    assert_eq!(char_width('a'), 1);
    assert_eq!(char_width('润'), 2);
    assert_eq!(char_width('\u{1100}'), 2);
    assert_eq!(char_width('\u{1160}'), 1);
    assert_eq!(char_width('\u{FF21}'), 2);
    assert_eq!(char_width('\u{FF61}'), 1);
    assert_eq!(char_width('\u{20000}'), 2);
    assert_eq!(char_width('\u{3FFFE}'), 1);
    assert_eq!(char_width('é'), 1);
}

#[test]
fn strip_ansi_removes_colour_codes() {
    assert_eq!(strip_ansi("\x1b[31m+1.00%\x1b[0m"), "+1.00%");
    assert_eq!(strip_ansi("plain"), "plain");
    assert_eq!(strip_ansi("a\x1b[32mb"), "ab");
    assert_eq!(strip_ansi("unterminated\x1b[31"), "unterminated");
}

#[test]
fn strip_ansi_twice_is_once() {
    for s in ["\x1b[31m+1.00%\x1b[0m", "a\x1b[1mb\x1b[0mc", "xyz", "\x1b[m"] {
        let once = strip_ansi(s);
        assert_eq!(strip_ansi(&once), once);
    }
}

#[test]
fn pad_left_and_right() {
    assert_eq!(pad("ab", 5, &Align::Left), "ab   ");
    assert_eq!(pad("ab", 5, &Align::Right), "   ab");
    assert_eq!(pad("润", 4, &Align::Left), "润  ");
    assert_eq!(pad("abcdef", 3, &Align::Right), "abcdef");
    assert_eq!(pad("\x1b[31mx\x1b[0m", 3, &Align::Right), "  \x1b[31mx\x1b[0m");
}

#[test]
fn padded_cell_takes_the_column_width() {
    for (s, w) in [("ab", 5usize), ("润和", 7), ("\x1b[32m-1.0%\x1b[0m", 8)] {
        for a in [Align::Left, Align::Right] {
            let p = pad(s, w, &a);
            assert_eq!(disp_width(&strip_ansi(&p)), w);
        }
    }
}

#[test]
fn truncate_marks_the_cut() {
    assert_eq!(truncate("abc", 10), "abc");
    assert_eq!(truncate("abcdef", 3), "abc…");
    assert_eq!(truncate("润和软件股份", 5), "润和…");
    assert_eq!(truncate("润和软件", 8), "润和软件");
    assert_eq!(truncate("", 0), "");
    assert_eq!(truncate("a", 0), "…");
}

#[test]
fn table_renders_aligned_columns() {
    let mut t = Table::new(&["代码", "名称"], vec![Align::Left, Align::Right]);
    t.row(vec!["1".to_string(), "润和".to_string()]);
    t.row(vec!["300339".to_string(), "x".to_string()]);
    let lines = t.render();
    assert_eq!(lines, vec!["代码    名称".to_string(), "1       润和".to_string(), "300339     x".to_string()]);
    for l in &lines {
        assert_eq!(disp_width(l), 12);
    }
}

#[test]
fn table_rows_are_trimmed_and_cut_to_the_columns() {
    let mut t = Table::new(&["a", "b"], vec![Align::Left, Align::Left]);
    t.row(vec!["x".to_string()]);
    t.row(vec!["xx".to_string(), "y".to_string(), "extra".to_string()]);
    let lines = t.render();
    assert_eq!(lines, vec!["a   b".to_string(), "x".to_string(), "xx  y".to_string()]);
}

#[test]
fn table_ignores_colour_codes_in_widths() {
    let mut t = Table::new(&["涨跌幅"], vec![Align::Right]);
    t.row(vec!["\x1b[31m+1.00%\x1b[0m".to_string()]);
    let lines = t.render();
    assert_eq!(lines[0], "涨跌幅");
    assert_eq!(lines[1], "\x1b[31m+1.00%\x1b[0m");
}
