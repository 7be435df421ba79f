use brick_shell::aliases::{parse_alias_args, AliasError, AliasFileError, AliasTable};
use brick_shell::listing::{
    compose_prompt, finish_entry, parse_ls_args, render_entry, style_entry, EntryKind, EntryStyle,
    ListError, ListMode,
};

fn strings(v: &[&str]) -> Vec<String> {
    v.iter().map(|s| s.to_string()).collect()
}

#[test]
fn ls_options() {
    assert_eq!(parse_ls_args(&[]), Ok(ListMode::Normal));
    assert_eq!(parse_ls_args(&strings(&["-e"])), Ok(ListMode::Extended));
    assert_eq!(parse_ls_args(&strings(&["-a", "x"])), Ok(ListMode::All));
    assert_eq!(parse_ls_args(&strings(&["-x"])), Err(ListError::InvalidArgument));
    assert_eq!(
        ListError::InvalidArgument.message(),
        "Invalid Argument! Can only use '-e' for extended and '-a' for all-view"
    );
}

#[test]
fn ls_directory_styles() {
    assert_eq!(style_entry(EntryKind::Directory, ".git", ListMode::Normal), None);
    assert_eq!(style_entry(EntryKind::Directory, ".git", ListMode::Extended), Some(EntryStyle::HiddenDirectory));
    assert_eq!(style_entry(EntryKind::Directory, "src", ListMode::All), Some(EntryStyle::Directory));
}

#[test]
fn ls_file_styles() {
    assert_eq!(style_entry(EntryKind::File, "notes.tmp", ListMode::Normal), None);
    assert_eq!(style_entry(EntryKind::File, "notes.tmp", ListMode::Extended), None);
    assert_eq!(style_entry(EntryKind::File, "notes.tmp", ListMode::All), Some(EntryStyle::Plain));
    assert_eq!(style_entry(EntryKind::File, "a.txt", ListMode::Normal), Some(EntryStyle::Plain));
    assert_eq!(style_entry(EntryKind::File, "README", ListMode::Normal), Some(EntryStyle::Bare));
    assert_eq!(style_entry(EntryKind::File, ".bashrc", ListMode::Normal), None);
    assert_eq!(style_entry(EntryKind::File, ".bashrc", ListMode::Extended), Some(EntryStyle::Plain));
    assert_eq!(style_entry(EntryKind::Symlink, ".x", ListMode::Normal), Some(EntryStyle::Link));
    assert_eq!(style_entry(EntryKind::Other, "fifo", ListMode::All), None);
}

#[test]
fn ls_lines() {
    assert_eq!(render_entry(EntryKind::File, "a.txt", ListMode::Normal), Some("a.txt\n".to_string()));
    assert_eq!(render_entry(EntryKind::File, ".hidden", ListMode::Normal), None);
    let dir = render_entry(EntryKind::Directory, "src", ListMode::Normal).unwrap();
    assert!(dir == "src/\n" || dir == "\u{1b}[1;34msrc\u{1b}[0m/\n");
    let link = render_entry(EntryKind::Symlink, "l", ListMode::Normal).unwrap();
    assert!(link == ">l\n" || link == ">\u{1b}[96ml\u{1b}[0m\n");
    assert_eq!(finish_entry("x".to_string(), EntryStyle::Link), ">x\n");
    assert_eq!(finish_entry("d".to_string(), EntryStyle::Directory), "d/\n");
    assert_eq!(finish_entry("f".to_string(), EntryStyle::Bare), "f\n");
}

#[test]
fn prompt_paints_user_and_directory() {
    let p = brick_shell::listing::prompt("me", "/tmp");
    let plain = "\u{2554}(me)-[/tmp] \n\u{255a}\u{2550}> ";
    let painted = "\u{2554}(\u{1b}[1;32mme\u{1b}[0m)-[\u{1b}[1;34m/tmp\u{1b}[0m] \n\u{255a}\u{2550}\u{1b}[1m>\u{1b}[0m ";
    assert!(p == plain || p == painted, "{:?}", p);
}

#[test]
fn painting_restarts_the_style_after_an_inner_reset() {
    let name = "a\u{1b}[0mb";
    let dir = render_entry(EntryKind::Directory, name, ListMode::Normal).unwrap();
    assert!(
        dir == format!("{}/\n", name) || dir == "\u{1b}[1;34ma\u{1b}[0m\u{1b}[1;34mb\u{1b}[0m/\n",
        "{:?}",
        dir
    );
}

#[test]
fn prompt_layout() {
    assert_eq!(compose_prompt("me", "/tmp", ">"), "\u{2554}(me)-[/tmp] \n\u{255a}\u{2550}> ");
}

#[test]
fn alias_table_insert_and_get() {
    let mut t = AliasTable::new();
    assert!(!t.contains("ll"));
    t.insert("ll".to_string(), "ls -e".to_string(), false);
    assert!(t.contains("ll"));
    assert_eq!(t.get("ll"), Some(&"ls -e".to_string()));
    assert!(!t.is_permanent("ll"));
    t.insert("ll".to_string(), "ls -a".to_string(), true);
    assert_eq!(t.get("ll"), Some(&"ls -a".to_string()));
    assert!(t.is_permanent("ll"));
    assert_eq!(t.get("la"), None);
}

#[test]
fn alias_file_keeps_permanent_aliases_only() {
    let mut t = AliasTable::new();
    t.insert("ll".to_string(), "ls -e".to_string(), true);
    t.insert("tmp".to_string(), "echo \"quoted\"".to_string(), false);
    t.insert("g".to_string(), "git status && git log".to_string(), true);
    let text = t.to_json().unwrap();
    assert!(AliasTable::new().to_json().is_ok());
    let back = AliasTable::from_json(&text).unwrap();
    assert_eq!(back.get("ll"), Some(&"ls -e".to_string()));
    assert_eq!(back.get("g"), Some(&"git status && git log".to_string()));
    assert!(back.is_permanent("g"));
    assert!(!back.contains("tmp"));
    let mut saved = back.saved_pairs();
    saved.sort();
    assert_eq!(
        saved,
        vec![
            ("g".to_string(), "git status && git log".to_string()),
            ("ll".to_string(), "ls -e".to_string())
        ]
    );
}

#[test]
fn alias_file_reads_json_object() {
    let t = AliasTable::from_json("{\"ll\": \"ls -e\"}").unwrap();
    assert_eq!(t.get("ll"), Some(&"ls -e".to_string()));
    assert!(t.is_permanent("ll"));
    assert!(matches!(AliasTable::from_json("not json"), Err(AliasFileError::Malformed)));
    assert!(matches!(AliasTable::from_json("{\"a\": 1}"), Err(AliasFileError::Malformed)));
}

#[test]
fn alias_args() {
    let d = parse_alias_args(&strings(&["-t", "ll", "ls -e"])).unwrap();
    assert_eq!((d.name.as_str(), d.content.as_str(), d.permanent), ("ll", "ls -e", false));
    let d = parse_alias_args(&strings(&["-p", "ll", "ls -e"])).unwrap();
    assert!(d.permanent);
    assert!(matches!(parse_alias_args(&strings(&["ll", "ls"])), Err(AliasError::InvalidArgument)));
    assert!(matches!(parse_alias_args(&[]), Err(AliasError::MissingName)));
    assert!(matches!(parse_alias_args(&strings(&["-t"])), Err(AliasError::MissingName)));
    match parse_alias_args(&strings(&["-t", "ll"])) {
        Err(AliasError::MissingContent(name)) => assert_eq!(name, "ll"),
        other => panic!("unexpected {:?}", other),
    }
}

#[test]
fn alias_messages() {
    assert_eq!(
        AliasError::InvalidArgument.message(),
        "Invalid Argument! Can only use '-t' for temporary and '-p' for permanent aliases"
    );
    assert_eq!(AliasError::MissingName.message(), "Expected alias");
    assert_eq!(
        AliasError::MissingContent("ll".to_string()).message(),
        "Expected what 'll' is supposed to be an alias for"
    );
}
