use brick_shell::display::{display_len, find_longest, pad_right, r_pad, r_pad_array, r_pad_checked};
use brick_shell::layout::{column_layout, count_lines, listing_output, split_lines, ListingOutput};

#[test]
fn display_len_counts_bytes_without_escapes() {
    assert_eq!(display_len("abc"), 3);
    assert_eq!(display_len("\u{1b}[32mabc\u{1b}[0m"), 3);
    assert_eq!(display_len("é"), 2);
}

#[test]
fn r_pad_plain() {
    assert_eq!(r_pad("ab".to_string(), 5), "ab   ");
    assert_eq!(r_pad("ab".to_string(), 2), "ab");
}

#[test]
fn r_pad_colored_counts_only_visible_text() {
    let s = "\u{1b}[32mab\u{1b}[0m".to_string();
    assert_eq!(r_pad(s.clone(), 5), format!("{}   ", s));
}

#[test]
fn pad_right_adds_missing_spaces() {
    assert_eq!(pad_right("x".to_string(), 1, 4), "x   ");
}

#[test]
fn r_pad_checked_refuses_what_cannot_be_padded() {
    assert_eq!(r_pad_checked("abc".to_string(), 2), None);
    assert_eq!(r_pad_checked("a".to_string(), 200), None);
    assert_eq!(r_pad_checked("a".to_string(), 92), Some(format!("a{}", " ".repeat(91))));
}

#[test]
fn r_pad_array_pads_each() {
    let v = vec!["a".to_string(), "abc".to_string()];
    assert_eq!(r_pad_array(&v, 4), vec!["a   ".to_string(), "abc ".to_string()]);
}

#[test]
fn find_longest_ignores_escapes() {
    let v = vec!["a".to_string(), "\u{1b}[1mabcd\u{1b}[0m".to_string(), "ab".to_string()];
    assert_eq!(find_longest(&v), 4);
    assert_eq!(find_longest(&[]), 0);
}

#[test]
fn count_and_split_lines() {
    assert_eq!(count_lines(""), 0);
    assert_eq!(count_lines("a\nb\n"), 2);
    assert_eq!(count_lines("a\nb"), 2);
    assert_eq!(count_lines("\n"), 1);
    assert_eq!(split_lines("a\nb\n"), vec!["a".to_string(), "b".to_string(), String::new()]);
}

#[test]
fn column_layout_one_column() {
    let out: String = (0..12).map(|i| format!("f{}\n", i)).collect();
    let lines = column_layout(&out).unwrap();
    assert_eq!(lines.len(), 13);
    assert_eq!(lines[0], "f0    ");
    assert_eq!(lines[10], "f10   ");
    assert_eq!(lines[12], "      ");
}

#[test]
fn column_layout_two_columns() {
    let out: String = (0..25).map(|i| format!("f{}\n", i)).collect();
    let lines = column_layout(&out).unwrap();
    assert_eq!(lines.len(), 13);
    assert_eq!(lines[0], "f0    f13   ");
    assert_eq!(lines[12], format!("f12{}", " ".repeat(9)));
}

#[test]
fn column_layout_refuses_too_wide_spread() {
    let mut out: String = (0..11).map(|i| format!("f{}\n", i)).collect();
    out.push_str(&"x".repeat(100));
    out.push('\n');
    assert_eq!(column_layout(&out), None);
}

#[test]
fn listing_output_choices() {
    let short = "a\nb\n".to_string();
    assert!(matches!(listing_output(short.clone(), true), Some(ListingOutput::Piped(t)) if t == short));
    assert!(matches!(listing_output(short.clone(), false), Some(ListingOutput::Plain(t)) if t == short));
    let long: String = (0..12).map(|i| format!("f{}\n", i)).collect();
    match listing_output(long, false) {
        Some(ListingOutput::Columns(lines)) => assert_eq!(lines.len(), 13),
        other => panic!("unexpected {:?}", other),
    }
}
