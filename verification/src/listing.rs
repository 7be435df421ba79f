//! The `ls` builtin: its option, which directory entries it shows and how,
//! and the prompt's colouring.

use colored::Colorize;
use vstd::prelude::*;
use vstd::string::*;
use crate::text::{chars_of, push_char, str_eq};

verus! {

/// Which entries `ls` shows.
#[derive(Clone, Copy, Debug, PartialEq, Eq, Structural)]
pub enum ListMode {
    /// Without an option: no hidden entries, no `.tmp` files.
    Normal,
    /// `-e`: hidden entries too.
    Extended,
    /// `-a`: hidden entries and `.tmp` files too.
    All,
}

/// `ls` was given an option other than `-e` and `-a`.
#[derive(Clone, Copy, Debug, PartialEq, Eq, Structural)]
pub enum ListError {
    InvalidArgument,
}

/// The mode for the first argument of `ls` (empty when there is none).
pub open spec fn list_mode_for(arg: Seq<char>) -> Option<ListMode> {
    if arg == "-e"@ {
        Some(ListMode::Extended)
    } else if arg == "-a"@ {
        Some(ListMode::All)
    } else if arg.len() == 0 {
        Some(ListMode::Normal)
    } else {
        None
    }
}

/// The first argument, or the empty text when there is none.
pub open spec fn first_arg(args: Seq<String>) -> Seq<char> {
    if args.len() > 0 {
        args[0]@
    } else {
        Seq::empty()
    }
}

impl ListError {
    /// The message that the shell prints for the error.
    pub fn message(&self) -> (r: String)
        ensures
            r@ == "Invalid Argument! Can only use '-e' for extended and '-a' for all-view"@,
    {
        "Invalid Argument! Can only use '-e' for extended and '-a' for all-view".to_owned()
    }
}

/// The mode of `ls` for its arguments: the first one decides.
pub fn parse_ls_args(args: &[String]) -> (r: Result<ListMode, ListError>)
    ensures
        list_mode_for(first_arg(args@)) matches Some(m) ==> r == Ok::<ListMode, ListError>(m),
        list_mode_for(first_arg(args@)) is None ==> r == Err::<ListMode, ListError>(
            ListError::InvalidArgument,
        ),
{
    proof {
        reveal_strlit("-e");
        reveal_strlit("-a");
    }
    if args.len() == 0 {
        assert(first_arg(args@) =~= Seq::<char>::empty());
        assert("-e"@.len() == 2 && "-a"@.len() == 2);
        return Ok(ListMode::Normal);
    }
    let arg = args[0].as_str();
    if str_eq(arg, "-e") {
        Ok(ListMode::Extended)
    } else if str_eq(arg, "-a") {
        Ok(ListMode::All)
    } else if arg.is_empty() {
        Ok(ListMode::Normal)
    } else {
        Err(ListError::InvalidArgument)
    }
}

/// What a directory entry is.
#[derive(Clone, Copy, Debug, PartialEq, Eq, Structural)]
pub enum EntryKind {
    Directory,
    File,
    Symlink,
    Other,
}

/// How `ls` shows an entry.
#[derive(Clone, Copy, Debug, PartialEq, Eq, Structural)]
pub enum EntryStyle {
    /// A hidden directory: purple and bold, with a `/` after it.
    HiddenDirectory,
    /// A directory: blue and bold, with a `/` after it.
    Directory,
    /// A file with a `.` in its name: as it is.
    Plain,
    /// A file without a `.` in its name: green and bold.
    Bare,
    /// A symbolic link: bright cyan, with a `>` before it.
    Link,
}

/// The name is hidden: it starts with a `.`.
pub open spec fn is_hidden(name: Seq<char>) -> bool {
    name.len() > 0 && name[0] == '.'
}

/// The name ends with `.tmp`.
pub open spec fn is_tmp(name: Seq<char>) -> bool {
    name.len() >= 4 && name.subrange(name.len() - 4, name.len() as int) == seq!['.', 't', 'm', 'p']
}

/// How `ls` in `mode` shows an entry of `kind` named `name`, or `None` where
/// it leaves the entry out.
pub open spec fn entry_style(kind: EntryKind, name: Seq<char>, mode: ListMode) -> Option<EntryStyle> {
    let hidden = is_hidden(name);
    let show_hidden = mode != ListMode::Normal;
    match kind {
        EntryKind::Directory => if hidden && show_hidden {
            Some(EntryStyle::HiddenDirectory)
        } else if !hidden {
            Some(EntryStyle::Directory)
        } else {
            None
        },
        EntryKind::File => if !is_tmp(name) || mode == ListMode::All {
            if hidden && show_hidden {
                Some(EntryStyle::Plain)
            } else if !hidden && name.contains('.') {
                Some(EntryStyle::Plain)
            } else if !hidden {
                Some(EntryStyle::Bare)
            } else {
                None
            }
        } else {
            None
        },
        EntryKind::Symlink => Some(EntryStyle::Link),
        EntryKind::Other => None,
    }
}

/// `-e` shows everything that `ls` alone shows, and `-a` everything that `-e`
/// shows; a hidden directory shows, as such, under either option.
pub proof fn options_only_add_entries(kind: EntryKind, name: Seq<char>)
    ensures
        entry_style(kind, name, ListMode::Normal) is Some ==> entry_style(kind, name, ListMode::Extended)
            is Some,
        entry_style(kind, name, ListMode::Extended) is Some ==> entry_style(kind, name, ListMode::All)
            is Some,
        kind == EntryKind::Directory && is_hidden(name) ==> entry_style(kind, name, ListMode::Extended)
            == Some(EntryStyle::HiddenDirectory) && entry_style(kind, name, ListMode::All) == Some(
            EntryStyle::HiddenDirectory,
        ) && entry_style(kind, name, ListMode::Normal) is None,
        kind == EntryKind::Directory && !is_hidden(name) ==> entry_style(kind, name, ListMode::Normal)
            == Some(EntryStyle::Directory),
        kind == EntryKind::Symlink ==> entry_style(kind, name, ListMode::Normal) == Some(EntryStyle::Link),
{
}

/// The line of the listing for an entry whose (painted) name is `painted`.
pub open spec fn entry_line(painted: Seq<char>, style: EntryStyle) -> Seq<char> {
    match style {
        EntryStyle::HiddenDirectory | EntryStyle::Directory => painted + seq!['/', '\n'],
        EntryStyle::Link => seq!['>'] + painted + seq!['\n'],
        _ => painted + seq!['\n'],
    }
}

/// How `ls` in `mode` shows an entry (see `entry_style`).
pub fn style_entry(kind: EntryKind, name: &str, mode: ListMode) -> (r: Option<EntryStyle>)
    ensures
        r == entry_style(kind, name@, mode),
{
    let cs = chars_of(name);
    let n = cs.len();
    let hidden = n > 0 && cs[0] == '.';
    let show_hidden = match mode {
        ListMode::Normal => false,
        _ => true,
    };
    let all = match mode {
        ListMode::All => true,
        _ => false,
    };
    match kind {
        EntryKind::Directory => {
            if hidden && show_hidden {
                Some(EntryStyle::HiddenDirectory)
            } else if !hidden {
                Some(EntryStyle::Directory)
            } else {
                None
            }
        },
        EntryKind::File => {
            let tmp = n >= 4 && cs[n - 4] == '.' && cs[n - 3] == 't' && cs[n - 2] == 'm' && cs[n
                - 1] == 'p';
            assert(tmp == is_tmp(name@)) by {
                if n >= 4 {
                    let tail = cs@.subrange(n - 4, n as int);
                    if tmp {
                        assert(tail =~= seq!['.', 't', 'm', 'p']);
                    } else {
                        assert(tail != seq!['.', 't', 'm', 'p'] || !(tail[0] == '.' && tail[1] == 't'
                            && tail[2] == 'm' && tail[3] == 'p'));
                    }
                }
            }
            if !tmp || all {
                if hidden && show_hidden {
                    Some(EntryStyle::Plain)
                } else if !hidden && has_dot(&cs) {
                    Some(EntryStyle::Plain)
                } else if !hidden {
                    Some(EntryStyle::Bare)
                } else {
                    None
                }
            } else {
                None
            }
        },
        EntryKind::Symlink => Some(EntryStyle::Link),
        EntryKind::Other => None,
    }
}

fn has_dot(cs: &Vec<char>) -> (r: bool)
    ensures
        r == cs@.contains('.'),
{
    let mut i: usize = 0;
    while i < cs.len()
        invariant
            i <= cs@.len(),
            forall|j: int| 0 <= j < i ==> cs@[j] != '.',
        decreases cs@.len() - i,
    {
        if cs[i] == '.' {
            assert(cs@[i as int] == '.');
            return true;
        }
        i += 1;
    }
    false
}

/// The escape sequence that ends a painted text: `ESC [ 0 m`.
pub open spec fn reset_code() -> Seq<char> {
    seq!['\u{1b}', '[', '0', 'm']
}

/// The escape sequence that starts the style `code`: `ESC [ code m`.
pub open spec fn style_start(code: Seq<char>) -> Seq<char> {
    seq!['\u{1b}', '['] + code + seq!['m']
}

/// `s` with the style `code` started again after each reset sequence in it,
/// so that a painted text nested in `s` does not end the style early.
pub open spec fn restyle_after_resets(s: Seq<char>, code: Seq<char>) -> Seq<char>
    decreases s.len(),
{
    if s.len() == 0 {
        s
    } else if s.len() >= 4 && s.take(4) == reset_code() {
        reset_code() + style_start(code) + restyle_after_resets(s.skip(4), code)
    } else {
        seq![s[0]] + restyle_after_resets(s.drop_first(), code)
    }
}

/// `s` painted with the style code `code`: `ESC [ code m`, `s` with the style
/// started again after each reset in it, `ESC [ 0 m`.
pub open spec fn painted_with(s: Seq<char>, code: Seq<char>) -> Seq<char> {
    style_start(code) + restyle_after_resets(s, code) + reset_code()
}

/// `p` is what `colored` shows of `s` in the style `code`: `s` itself where
/// colouring is off, `s` painted with `code` where it is on.
pub open spec fn paints(p: Seq<char>, s: Seq<char>, code: Seq<char>) -> bool {
    p == s || p == painted_with(s, code)
}

/// The style code of bold purple.
pub open spec fn purple_bold_code() -> Seq<char> {
    seq!['1', ';', '3', '5']
}

/// The style code of bold blue.
pub open spec fn blue_bold_code() -> Seq<char> {
    seq!['1', ';', '3', '4']
}

/// The style code of bold green.
pub open spec fn green_bold_code() -> Seq<char> {
    seq!['1', ';', '3', '2']
}

/// The style code of bright cyan.
pub open spec fn bright_cyan_code() -> Seq<char> {
    seq!['9', '6']
}

/// The style code of bold.
pub open spec fn bold_code() -> Seq<char> {
    seq!['1']
}

/// The style code with which `ls` paints an entry shown in `style`.
pub open spec fn style_code(style: EntryStyle) -> Seq<char> {
    match style {
        EntryStyle::HiddenDirectory => purple_bold_code(),
        EntryStyle::Directory => blue_bold_code(),
        EntryStyle::Bare => green_bold_code(),
        EntryStyle::Link => bright_cyan_code(),
        EntryStyle::Plain => Seq::empty(),
    }
}

/// `colored`: `s.purple().bold()`, displayed. Trusted to give `s` itself
/// where colouring is off, and `ESC[1;35m`, `s` with `ESC[1;35m` put back
/// after each `ESC[0m` in it, and `ESC[0m` where it is on (`ColoredString`'s
/// `Display` and `escape_inner_reset_sequences`). Which of the two depends on
/// the environment and the terminal.
#[verifier::external_body]
fn purple_bold(s: &str) -> (r: String)
    ensures
        paints(r@, s@, purple_bold_code()),
{
    format!("{}", s.purple().bold())
}

/// `colored`: `s.blue().bold()`, displayed: `s`, or `ESC[1;34m`, `s`,
/// `ESC[0m` (see `purple_bold`).
#[verifier::external_body]
fn blue_bold(s: &str) -> (r: String)
    ensures
        paints(r@, s@, blue_bold_code()),
{
    format!("{}", s.blue().bold())
}

/// `colored`: `s.green().bold()`, displayed: `s`, or `ESC[1;32m`, `s`,
/// `ESC[0m` (see `purple_bold`).
#[verifier::external_body]
fn green_bold(s: &str) -> (r: String)
    ensures
        paints(r@, s@, green_bold_code()),
{
    format!("{}", s.green().bold())
}

/// `colored`: `s.bright_cyan()`, displayed: `s`, or `ESC[96m`, `s`, `ESC[0m`
/// (see `purple_bold`).
#[verifier::external_body]
fn bright_cyan(s: &str) -> (r: String)
    ensures
        paints(r@, s@, bright_cyan_code()),
{
    format!("{}", s.bright_cyan())
}

/// `colored`: `s.bold()`, displayed: `s`, or `ESC[1m`, `s`, `ESC[0m` (see
/// `purple_bold`).
#[verifier::external_body]
fn bold(s: &str) -> (r: String)
    ensures
        paints(r@, s@, bold_code()),
{
    format!("{}", s.bold())
}

/// The line of the listing for an entry in `style` whose painted name is
/// `painted` (see `entry_line`).
pub fn finish_entry(painted: String, style: EntryStyle) -> (r: String)
    ensures
        r@ == entry_line(painted@, style),
{
    match style {
        EntryStyle::HiddenDirectory | EntryStyle::Directory => {
            let mut line = painted;
            push_char(&mut line, '/');
            push_char(&mut line, '\n');
            assert(line@ =~= painted@ + seq!['/', '\n']);
            line
        },
        EntryStyle::Link => {
            let mut line = String::new();
            push_char(&mut line, '>');
            line.append(painted.as_str());
            push_char(&mut line, '\n');
            assert(line@ =~= seq!['>'] + painted@ + seq!['\n']);
            line
        },
        _ => {
            let mut line = painted;
            push_char(&mut line, '\n');
            assert(line@ =~= painted@ + seq!['\n']);
            line
        },
    }
}

/// The line that `ls` in `mode` prints for an entry, or `None` where it
/// leaves the entry out. A plain name is printed as it is; the others are
/// the name painted in the style's colour, where colouring is on.
pub fn render_entry(kind: EntryKind, name: &str, mode: ListMode) -> (r: Option<String>)
    ensures
        r is Some <==> entry_style(kind, name@, mode) is Some,
        entry_style(kind, name@, mode) == Some(EntryStyle::Plain) ==> (r matches Some(t) && t@
            == entry_line(name@, EntryStyle::Plain)),
        r matches Some(t) ==> exists|painted: Seq<char>|
            #![trigger entry_line(painted, entry_style(kind, name@, mode)->0)]
            t@ == entry_line(painted, entry_style(kind, name@, mode)->0) && paints(
                painted,
                name@,
                style_code(entry_style(kind, name@, mode)->0),
            ),
{
    match style_entry(kind, name, mode) {
        None => None,
        Some(style) => {
            let painted = match style {
                EntryStyle::HiddenDirectory => purple_bold(name),
                EntryStyle::Directory => blue_bold(name),
                EntryStyle::Plain => name.to_owned(),
                EntryStyle::Bare => green_bold(name),
                EntryStyle::Link => bright_cyan(name),
            };
            assert(paints(painted@, name@, style_code(style)));
            let line = finish_entry(painted, style);
            Some(line)
        },
    }
}

/// The prompt around the painted user name, directory and arrow:
/// `╔(user)-[dir] ⏎╚═> `.
pub open spec fn prompt_text(user: Seq<char>, dir: Seq<char>, arrow: Seq<char>) -> Seq<char> {
    seq!['\u{2554}', '('] + user + seq![')', '-', '['] + dir + seq![']', ' ', '\n', '\u{255a}', '\u{2550}']
        + arrow + seq![' ']
}

/// The prompt for painted parts (see `prompt_text`).
pub fn compose_prompt(user: &str, dir: &str, arrow: &str) -> (r: String)
    ensures
        r@ == prompt_text(user@, dir@, arrow@),
{
    let mut p = String::new();
    push_char(&mut p, '\u{2554}');
    push_char(&mut p, '(');
    p.append(user);
    push_char(&mut p, ')');
    push_char(&mut p, '-');
    push_char(&mut p, '[');
    p.append(dir);
    push_char(&mut p, ']');
    push_char(&mut p, ' ');
    push_char(&mut p, '\n');
    push_char(&mut p, '\u{255a}');
    push_char(&mut p, '\u{2550}');
    p.append(arrow);
    push_char(&mut p, ' ');
    assert(p@ =~= prompt_text(user@, dir@, arrow@));
    p
}

/// The shell's prompt for `user` in the directory `dir`: the user green and
/// bold, the directory blue and bold, the arrow `>` bold, where colouring is
/// on.
pub fn prompt(user: &str, dir: &str) -> (r: String)
    ensures
        exists|u: Seq<char>, d: Seq<char>, a: Seq<char>|
            #![trigger prompt_text(u, d, a)]
            r@ == prompt_text(u, d, a) && paints(u, user@, green_bold_code()) && paints(
                d,
                dir@,
                blue_bold_code(),
            ) && paints(a, ">"@, bold_code()),
{
    let u = green_bold(user);
    let d = blue_bold(dir);
    let a = bold(">");
    compose_prompt(u.as_str(), d.as_str(), a.as_str())
}

} // verus!
