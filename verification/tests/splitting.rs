use brick_shell::split::{split_args, split_with_delimiter, try_split_with_delimiter};

fn strings(v: &[&str]) -> Vec<String> {
    v.iter().map(|s| s.to_string()).collect()
}

#[test]
fn split_chained_commands() {
    assert_eq!(split_with_delimiter("ls -e && echo hi", " && "), strings(&["ls -e", "echo hi"]));
}

#[test]
fn split_without_delimiter_keeps_text_whole() {
    assert_eq!(split_with_delimiter("ls -e", " && "), strings(&["ls -e"]));
    assert_eq!(split_with_delimiter("", " | "), strings(&[""]));
}

#[test]
fn split_keeps_quoted_delimiter() {
    assert_eq!(
        split_with_delimiter("echo \"a && b\" && ls", " && "),
        strings(&["echo \"a && b\"", "ls"])
    );
}

#[test]
fn split_pipes() {
    assert_eq!(split_with_delimiter("ls | grep a | wc", " | "), strings(&["ls", "grep a", "wc"]));
}

#[test]
fn split_trailing_delimiter_gives_empty_last_piece() {
    assert_eq!(split_with_delimiter("a && ", " && "), strings(&["a", ""]));
    assert_eq!(split_with_delimiter(" && a", " && "), strings(&["", "a"]));
}

#[test]
fn split_delimiter_near_end_is_still_found() {
    assert_eq!(split_with_delimiter("x && é", " && "), strings(&["x", "é"]));
}

#[test]
fn try_split_rejects_empty_delimiter() {
    assert!(try_split_with_delimiter("a b", "").is_none());
}

#[test]
fn try_split_rejects_cut_inside_a_character() {
    assert!(try_split_with_delimiter("é && x", " && ").is_none());
}

#[test]
fn try_split_agrees_with_split() {
    assert_eq!(
        try_split_with_delimiter("a && b && c", " && "),
        Some(strings(&["a", "b", "c"]))
    );
}

#[test]
fn split_then_join_gives_back_the_line() {
    for line in ["a && b", "echo \"x && y\" && z && ", " && ", "plain", "\"unclosed && quote"] {
        let pieces = split_with_delimiter(line, " && ");
        assert_eq!(pieces.join(" && "), line);
    }
}

#[test]
fn split_args_with_quotes() {
    let (name, args) = split_args("echo \"hello world\" foo");
    assert_eq!(name, "echo");
    assert_eq!(args.collect::<Vec<_>>(), strings(&["hello world", "foo"]));
}

#[test]
fn split_args_without_space() {
    let (name, args) = split_args("ls");
    assert_eq!(name, "ls");
    assert_eq!(args.count(), 0);
}

#[test]
fn split_args_skips_repeated_spaces_and_empty_quotes() {
    let (name, args) = split_args("cmd  a   b \"\"");
    assert_eq!(name, "cmd");
    assert_eq!(args.collect::<Vec<_>>(), strings(&["a", "b"]));
}

#[test]
fn split_args_quote_inside_word() {
    let (name, args) = split_args("alias -p ll \"ls -e\"x");
    assert_eq!(name, "alias");
    assert_eq!(args.collect::<Vec<_>>(), strings(&["-p", "ll", "ls -ex"]));
}

#[test]
fn split_args_trailing_space() {
    let (name, args) = split_args("cd ");
    assert_eq!(name, "cd");
    assert_eq!(args.count(), 0);
}

#[test]
fn arguments_are_never_empty_nor_quoted() {
    let (_, args) = split_args("x \"\" \"a b\" \"\"c  \"d\"\"\"");
    let args: Vec<String> = args.collect();
    assert_eq!(args, strings(&["a b", "c", "d"]));
    for a in &args {
        assert!(!a.is_empty() && !a.contains('"'));
    }
}

#[test]
fn ascii_lines_always_split() {
    for line in ["a && b", "\"x && y\" && ", " && && ", "abc"] {
        assert!(try_split_with_delimiter(line, " && ").is_some());
    }
    assert!(try_split_with_delimiter("\u{e9}\u{e8}", " && ").is_some());
}
