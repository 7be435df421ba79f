use brick_shell::aliases::AliasTable;
use brick_shell::commons::{
    alias_file, commons_file, commons_or_default, default_commons, history_file, home_of_user,
    join_commons, parse_commons, remember_command, shell_dir,
};
use brick_shell::completion::{get_dir_and_input, word_before, FileCompleter, FileEntry};
use brick_shell::listing::EntryKind;
use brick_shell::shell::{
    after_spawn_failure, cd_target, classify_command, cli_request, is_login_shell, next_command,
    not_found_message, session_end, split_trimmed, stage_wiring, CliRequest, CommandKind,
    PendingCommands, SpawnFailure,
};
use brick_shell::text::trim;

fn strings(v: &[&str]) -> Vec<String> {
    v.iter().map(|s| s.to_string()).collect()
}

#[test]
fn commons_lines() {
    assert_eq!(parse_commons("cd\nls\r\nexit\n"), strings(&["cd", "ls", "exit"]));
    assert_eq!(parse_commons("a\n\nb"), strings(&["a", "", "b"]));
    assert_eq!(parse_commons(""), Vec::<String>::new());
    assert_eq!(parse_commons("x\r"), strings(&["x\r"]));
    assert_eq!(join_commons(&strings(&["a", "b"])), "a\nb");
    assert_eq!(join_commons(&[]), "");
}

#[test]
fn commons_read_back_what_was_written() {
    let v = strings(&["cd", "", "git", "cargo\r"]);
    assert_eq!(parse_commons(&join_commons(&v)), v);
}

#[test]
fn commons_defaults_and_remembering() {
    assert_eq!(default_commons(), strings(&["cd", "ls", "exit", "restart", "clear", "clear-history"]));
    assert_eq!(commons_or_default(Vec::new()), default_commons());
    assert_eq!(commons_or_default(strings(&["vim"])), strings(&["vim"]));
    let mut c = strings(&["cd"]);
    remember_command(&mut c, "git");
    remember_command(&mut c, "cd");
    remember_command(&mut c, "git");
    assert_eq!(c, strings(&["cd", "git"]));
}

#[test]
fn shell_paths() {
    assert_eq!(home_of_user("ann"), "/home/ann");
    assert_eq!(shell_dir("/home/ann"), "/home/ann/brick_shell");
    assert_eq!(history_file("/h"), "/h/brick_shell/brick_shell_history.txt");
    assert_eq!(alias_file("/h"), "/h/brick_shell/brick_shell_aliases.txt");
    assert_eq!(commons_file("/h"), "/h/brick_shell/brick_shell_commons.txt");
}

#[test]
fn word_under_cursor() {
    assert_eq!(word_before("ls abc", 6), (3, "abc".to_string()));
    assert_eq!(word_before("ls abc", 4), (3, "a".to_string()));
    assert_eq!(word_before("abc", 2), (0, "ab".to_string()));
    assert_eq!(word_before("é x", 4), (3, "x".to_string()));
}

#[test]
fn dir_and_input() {
    assert_eq!(
        get_dir_and_input("cd src/ma", 9, "/home/u"),
        (3, "ma".to_string(), "/home/u/src/".to_string(), "src/".to_string())
    );
    assert_eq!(
        get_dir_and_input("cat ma", 6, "/w"),
        (4, "ma".to_string(), "/w".to_string(), String::new())
    );
    assert_eq!(
        get_dir_and_input("ls a/b/c", 8, "/w"),
        (3, "c".to_string(), "/w/a/b/".to_string(), "a/b/".to_string())
    );
}

fn entries() -> Vec<FileEntry> {
    vec![
        FileEntry { name: ".secret".to_string(), kind: EntryKind::File },
        FileEntry { name: "s.tmp".to_string(), kind: EntryKind::File },
        FileEntry { name: "src".to_string(), kind: EntryKind::Directory },
        FileEntry { name: "s.txt".to_string(), kind: EntryKind::File },
        FileEntry { name: "other".to_string(), kind: EntryKind::File },
    ]
}

#[test]
fn file_hints() {
    let fc = FileCompleter;
    assert_eq!(fc.file_hint(&entries(), "s"), Some("rc/".to_string()));
    assert_eq!(fc.file_hint(&entries(), "s."), Some("txt".to_string()));
    assert_eq!(fc.file_hint(&entries(), ".s"), None);
    assert_eq!(fc.file_hint(&entries(), ""), None);
    assert_eq!(fc.file_hint(&entries(), "zz"), None);
}

#[test]
fn file_completions() {
    let fc = FileCompleter;
    assert_eq!(
        fc.completions(&entries(), "s", "a/"),
        strings(&["a/s.tmp", "a/src/", "a/s.txt"])
    );
    assert_eq!(fc.completions(&entries(), "q", ""), Vec::<String>::new());
}

#[test]
fn command_hints() {
    let fc = FileCompleter;
    let commons = strings(&["git", "grep", "ls"]);
    assert_eq!(fc.command_hint(&commons, "gr"), Some("ep".to_string()));
    assert_eq!(fc.command_hint(&commons, "g"), Some("it".to_string()));
    assert_eq!(fc.command_hint(&commons, "x"), None);
    assert!(fc.hints_command("gi", 2));
    assert!(!fc.hints_command("", 0));
    assert!(!fc.hints_command("git status", 10));
    assert!(fc.hints_command("ls | g", 4));
    assert!(!fc.hints_command("ls | g", 6));
    assert_eq!(fc.highlight_hint("x"), "\u{1b}[37mx\u{1b}[0m");
}

#[test]
fn builtins() {
    assert_eq!(classify_command("cd"), CommandKind::Cd);
    assert_eq!(classify_command("exit"), CommandKind::Exit);
    assert_eq!(classify_command("restart"), CommandKind::Restart);
    assert_eq!(classify_command("clear-history"), CommandKind::ClearHistory);
    assert_eq!(classify_command("alias"), CommandKind::Alias);
    assert_eq!(classify_command("ls"), CommandKind::Ls);
    assert_eq!(classify_command("git"), CommandKind::External);
    assert_eq!(cd_target(&strings(&["/tmp"]), "/home/u"), "/tmp");
    assert_eq!(cd_target(&[], "/home/u"), "/home/u");
}

#[test]
fn trimming_and_splitting_lines() {
    assert_eq!(trim("  a b \t"), "a b");
    assert_eq!(trim("\u{3000}a\u{85}"), "a");
    assert_eq!(trim(" \n "), "");
    assert_eq!(split_trimmed("  ls && pwd  ", " && "), Some(strings(&["ls", "pwd"])));
}

#[test]
fn spawn_failures() {
    let mut aliases = AliasTable::new();
    aliases.insert("ll".to_string(), " ls -e && echo hi ".to_string(), false);
    let mut commons = strings(&["cd"]);
    match after_spawn_failure(&aliases, &mut commons, "ll") {
        Some(SpawnFailure::Expand(v)) => assert_eq!(v, strings(&["ls -e", "echo hi"])),
        other => panic!("unexpected {:?}", other),
    }
    assert_eq!(commons, strings(&["cd", "ll"]));
    assert!(matches!(after_spawn_failure(&aliases, &mut commons, "nope"), Some(SpawnFailure::NotFound)));
    assert!(matches!(after_spawn_failure(&aliases, &mut commons, ""), Some(SpawnFailure::Silent)));
    assert_eq!(commons, strings(&["cd", "ll"]));
    assert_eq!(not_found_message("nope"), "Command 'nope' was not found!");
}

#[test]
fn pending_commands_run_in_order() {
    let mut p = PendingCommands::new();
    assert!(p.is_empty());
    p.push_expansion(&strings(&["c"]));
    p.push_expansion(&strings(&["a", "b"]));
    assert_eq!(p.next(), Some("a".to_string()));
    assert_eq!(p.next(), Some("b".to_string()));
    assert_eq!(p.next(), Some("c".to_string()));
    assert_eq!(p.next(), None);
}

#[test]
fn shell_arguments() {
    assert_eq!(cli_request(Some("-h")), CliRequest::Help);
    assert_eq!(cli_request(Some("--help")), CliRequest::Help);
    assert_eq!(cli_request(Some("-v")), CliRequest::Version);
    assert_eq!(cli_request(Some("--version")), CliRequest::Version);
    assert_eq!(cli_request(Some("x")), CliRequest::Run);
    assert_eq!(cli_request(None), CliRequest::Run);
    assert!(is_login_shell(Some("-bash")));
    assert!(!is_login_shell(Some("brick_shell")));
    assert!(!is_login_shell(None));
}

#[test]
fn completions_begin_with_the_typed_word() {
    let fc = FileCompleter;
    for c in fc.completions(&entries(), "s", "dir/") {
        assert!(c.starts_with("dir/s"));
    }
}

#[test]
fn command_hint_completes_to_a_common_command() {
    let fc = FileCompleter;
    let commons = strings(&["cargo", "cat", "cd"]);
    for input in ["ca", "c", "car", "cd"] {
        let hint = fc.command_hint(&commons, input).unwrap();
        assert!(commons.contains(&format!("{}{}", input, hint)));
    }
}

#[test]
fn tab_offers_common_commands_for_the_first_word() {
    let fc = FileCompleter;
    let commons = strings(&["git", "grep", "ls"]);
    let none: Vec<FileEntry> = Vec::new();
    assert_eq!(fc.tab_candidates("gi", 2, &none, &commons), (0, strings(&["git"])));
    assert_eq!(fc.tab_candidates("g", 1, &entries(), &commons), (0, strings(&["git", "grep"])));
    assert_eq!(fc.tab_candidates("s", 1, &entries(), &commons), (0, strings(&["s.tmp", "src/", "s.txt"])));
    assert_eq!(fc.command_completions(&commons, "l"), strings(&["ls"]));
}

#[test]
fn tab_offers_only_files_after_the_first_word() {
    let fc = FileCompleter;
    let commons = strings(&["git", "src-tool"]);
    assert_eq!(fc.tab_candidates("cat s", 5, &entries(), &commons), (4, strings(&["s.tmp", "src/", "s.txt"])));
    assert_eq!(fc.tab_candidates("cat d/s", 7, &entries(), &commons), (4, strings(&["d/s.tmp", "d/src/", "d/s.txt"])));
}

#[test]
fn next_command_takes_pending_first() {
    let mut p = PendingCommands::new();
    let stages = strings(&["ls", "wc"]);
    let mut taken = 0;
    assert_eq!(next_command(&mut p, &stages, &mut taken), Some("ls".to_string()));
    p.push_expansion(&strings(&["a", "b"]));
    assert_eq!(next_command(&mut p, &stages, &mut taken), Some("a".to_string()));
    assert_eq!(next_command(&mut p, &stages, &mut taken), Some("b".to_string()));
    assert_eq!(taken, 1);
    assert_eq!(next_command(&mut p, &stages, &mut taken), Some("wc".to_string()));
    assert_eq!(next_command(&mut p, &stages, &mut taken), None);
    assert_eq!(taken, 2);
}

#[test]
fn pipe_stage_wiring() {
    let w = stage_wiring(false, 1, 2);
    assert!(!w.stdin_from_previous && w.stdout_piped);
    let w = stage_wiring(true, 2, 2);
    assert!(w.stdin_from_previous && !w.stdout_piped);
}

#[test]
fn exit_and_restart_end_the_session() {
    assert_eq!(session_end(CommandKind::Exit), Some(false));
    assert_eq!(session_end(CommandKind::Restart), Some(true));
    assert_eq!(session_end(CommandKind::Ls), None);
    assert_eq!(session_end(CommandKind::External), None);
}

#[test]
fn word_under_cursor_has_its_shape() {
    let (_, input, _, first) = get_dir_and_input("vim a b/c/de", 12, "/w");
    assert!(!input.contains('/'));
    assert!(first.is_empty() || first.ends_with('/'));
    assert_eq!(format!("{}{}", first, input), "b/c/de");
}

#[test]
fn hint_is_what_tab_completes_to() {
    let fc = FileCompleter;
    let commons = strings(&["git", "grep"]);
    let hint = fc.file_hint(&entries(), "sr").unwrap();
    let (_, offer) = fc.tab_candidates("cat d/sr", 8, &entries(), &commons);
    assert!(offer.contains(&format!("d/sr{}", hint)));
    let hint = fc.command_hint(&commons, "gi").unwrap();
    let (_, offer) = fc.tab_candidates("gi", 2, &entries(), &commons);
    assert!(offer.contains(&format!("gi{}", hint)));
}
