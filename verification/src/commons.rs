//! The list of common commands offered for completion, the text of the file
//! that keeps it, and the places of the shell's files under a home directory.

use vstd::prelude::*;
use vstd::string::*;
use crate::layout::{newline_scan, split_lines, split_on_newline};
use crate::text::{push_char, str_eq, views};

verus! {

/// `l` without a carriage return at its end.
pub open spec fn strip_cr(l: Seq<char>) -> Seq<char> {
    if l.len() > 0 && l.last() == '\r' {
        l.drop_last()
    } else {
        l
    }
}

/// The lines of a text (`str::lines`): split at newlines, a carriage return
/// before a newline dropped, and no empty last line after a final newline.
pub open spec fn text_lines(cs: Seq<char>) -> Seq<Seq<char>> {
    let ended = newline_scan(cs).0.map_values(|l: Seq<char>| strip_cr(l));
    if newline_scan(cs).1.len() > 0 {
        ended.push(newline_scan(cs).1)
    } else {
        ended
    }
}

/// The lines joined with a newline between each two of them.
pub open spec fn join_lines(v: Seq<Seq<char>>) -> Seq<char>
    decreases v.len(),
{
    if v.len() == 0 {
        seq![]
    } else if v.len() == 1 {
        v[0]
    } else {
        join_lines(v.drop_last()) + seq!['\n'] + v.last()
    }
}

/// The common commands in the text of the commons file: one per line.
pub fn parse_commons(text: &str) -> (r: Vec<String>)
    ensures
        views(r@) == text_lines(text@),
{
    let pieces = split_lines(text);
    let ghost ended = newline_scan(text@).0;
    let ghost last = newline_scan(text@).1;
    assert(views(pieces@) == ended.push(last));
    let n = pieces.len();
    let mut r: Vec<String> = Vec::new();
    let mut i: usize = 0;
    while i < n - 1
        invariant
            n == pieces@.len(),
            n == ended.len() + 1,
            views(pieces@) == ended.push(last),
            i <= ended.len(),
            views(r@) == ended.take(i as int).map_values(|l: Seq<char>| strip_cr(l)),
        decreases n - i,
    {
        let line = pieces[i].as_str();
        assert(views(pieces@)[i as int] == pieces@[i as int]@);
        assert(ended.push(last)[i as int] == ended[i as int]);
        assert(line@ == ended[i as int]);
        let k = line.unicode_len();
        let kept = if k > 0 && line.get_char(k - 1) == '\r' {
            line.substring_char(0, k - 1).to_owned()
        } else {
            line.to_owned()
        };
        assert(kept@ =~= strip_cr(ended[i as int]));
        let ghost before = views(r@);
        r.push(kept);
        assert(ended.take(i + 1).map_values(|l: Seq<char>| strip_cr(l)) =~= ended.take(i as int).map_values(|l: Seq<char>| strip_cr(l)).push(strip_cr(ended[i as int])));
        assert(views(r@) =~= before.push(kept@));
        assert(views(r@) =~= ended.take(i + 1).map_values(|l: Seq<char>| strip_cr(l)));
        i += 1;
    }
    assert(ended.take(ended.len() as int) =~= ended);
    let tail = pieces[n - 1].as_str();
    assert(views(pieces@)[n - 1] == pieces@[n - 1]@);
    assert(tail@ == last);
    if !tail.is_empty() {
        let ghost before = views(r@);
        r.push(tail.to_owned());
        assert(views(r@) =~= before.push(last));
    }
    r
}

/// The text of the commons file for `commons`: one command per line.
pub fn join_commons(commons: &[String]) -> (r: String)
    ensures
        r@ == join_lines(views(commons@)),
{
    let mut r = String::new();
    let mut i: usize = 0;
    while i < commons.len()
        invariant
            i <= commons@.len(),
            r@ == join_lines(views(commons@).take(i as int)),
        decreases commons@.len() - i,
    {
        let ghost vs = views(commons@);
        assert(vs.take(i + 1).drop_last() =~= vs.take(i as int));
        if i > 0 {
            push_char(&mut r, '\n');
        }
        r.append(commons[i].as_str());
        assert(r@ =~= join_lines(vs.take(i + 1)));
        i += 1;
    }
    assert(views(commons@).take(commons@.len() as int) =~= views(commons@));
    r
}

proof fn lemma_scan_append_plain(x: Seq<char>, y: Seq<char>)
    requires
        !y.contains('\n'),
    ensures
        newline_scan(x + y) == (newline_scan(x).0, newline_scan(x).1 + y),
    decreases y.len(),
{
    if y.len() == 0 {
        assert(x + y =~= x);
        assert(newline_scan(x).1 + y =~= newline_scan(x).1);
    } else {
        let z = x + y;
        assert(z.drop_last() =~= x + y.drop_last());
        assert(!y.drop_last().contains('\n')) by {
            if y.drop_last().contains('\n') {
                let j = choose|j: int| 0 <= j < y.drop_last().len() && y.drop_last()[j] == '\n';
                assert(y[j] == '\n');
            }
        }
        lemma_scan_append_plain(x, y.drop_last());
        assert(y.last() != '\n') by {
            assert(y[y.len() - 1] == y.last());
        }
        assert(newline_scan(x).1 + y.drop_last() + seq![y.last()] =~= newline_scan(x).1 + y);
        assert(z.last() == y.last());
    }
}

proof fn lemma_scan_join(v: Seq<Seq<char>>)
    requires
        v.len() >= 1,
        forall|i: int| 0 <= i < v.len() ==> !(#[trigger] v[i]).contains('\n'),
    ensures
        newline_scan(join_lines(v)) == (v.drop_last(), v.last()),
    decreases v.len(),
{
    if v.len() == 1 {
        lemma_scan_append_plain(seq![], v[0]);
        assert(Seq::<char>::empty() + v[0] =~= v[0]);
        assert(v.drop_last() =~= Seq::<Seq<char>>::empty());
        assert(Seq::<char>::empty() + v[0] =~= v.last());
    } else {
        let u = v.drop_last();
        assert forall|i: int| 0 <= i < u.len() implies !(#[trigger] u[i]).contains('\n') by {
            assert(u[i] == v[i]);
        }
        lemma_scan_join(u);
        let a = join_lines(u) + seq!['\n'];
        assert(a.drop_last() =~= join_lines(u));
        assert(newline_scan(a) == (u.drop_last().push(u.last()), Seq::<char>::empty()));
        assert(u.drop_last().push(u.last()) =~= u);
        assert(!v.last().contains('\n')) by {
            assert(v[v.len() - 1] == v.last());
        }
        lemma_scan_append_plain(a, v.last());
        assert(Seq::<char>::empty() + v.last() =~= v.last());
    }
}

/// Writing the commons file and reading it back gives the same commands,
/// where no command holds a newline, none but the last ends with a carriage
/// return, and the last is not empty.
pub proof fn commons_read_back(v: Seq<Seq<char>>)
    requires
        forall|i: int| 0 <= i < v.len() ==> !(#[trigger] v[i]).contains('\n'),
        forall|i: int| 0 <= i < v.len() - 1 ==> strip_cr(#[trigger] v[i]) == v[i],
        v.len() > 0 ==> v.last().len() > 0,
    ensures
        text_lines(join_lines(v)) == v,
{
    if v.len() == 0 {
        assert(text_lines(join_lines(v)) =~= v);
    } else {
        lemma_scan_join(v);
        let ended = v.drop_last();
        assert(ended.map_values(|l: Seq<char>| strip_cr(l)) =~= ended);
        assert(ended.push(v.last()) =~= v);
    }
}

/// The commands offered before any was remembered.
pub fn default_commons() -> (r: Vec<String>)
    ensures
        views(r@) == seq!["cd"@, "ls"@, "exit"@, "restart"@, "clear"@, "clear-history"@],
{
    let mut r: Vec<String> = Vec::new();
    r.push("cd".to_owned());
    r.push("ls".to_owned());
    r.push("exit".to_owned());
    r.push("restart".to_owned());
    r.push("clear".to_owned());
    r.push("clear-history".to_owned());
    assert(views(r@) =~= seq!["cd"@, "ls"@, "exit"@, "restart"@, "clear"@, "clear-history"@]);
    r
}

/// The commons read from the file, or the default ones where there are none.
pub fn commons_or_default(commons: Vec<String>) -> (r: Vec<String>)
    ensures
        commons@.len() > 0 ==> r@ == commons@,
        commons@.len() == 0 ==> views(r@) == seq!["cd"@, "ls"@, "exit"@, "restart"@, "clear"@, "clear-history"@],
{
    if commons.len() == 0 {
        default_commons()
    } else {
        commons
    }
}

/// Adds `command` to the common commands where it is not among them yet.
pub fn remember_command(commons: &mut Vec<String>, command: &str)
    ensures
        views(old(commons)@).contains(command@) ==> final(commons)@ == old(commons)@,
        !views(old(commons)@).contains(command@) ==> views(final(commons)@) == views(old(commons)@).push(
            command@,
        ),
{
    let mut i: usize = 0;
    while i < commons.len()
        invariant
            i <= commons@.len(),
            commons@ == old(commons)@,
            forall|j: int| 0 <= j < i ==> commons@[j]@ != command@,
        decreases commons@.len() - i,
    {
        if str_eq(commons[i].as_str(), command) {
            assert(views(commons@)[i as int] == command@);
            return;
        }
        i += 1;
    }
    assert(!views(commons@).contains(command@)) by {
        if views(commons@).contains(command@) {
            let j = choose|j: int| 0 <= j < views(commons@).len() && views(commons@)[j] == command@;
            assert(commons@[j]@ == command@);
        }
    }
    let ghost before = views(commons@);
    commons.push(command.to_owned());
    assert(views(commons@) =~= before.push(command@));
}

/// Remembering a command never loses one: afterwards the command is among the
/// commons, every earlier one is still there in its place, and none occurs
/// twice where none did before.
pub proof fn remembering_keeps_commons(before: Seq<Seq<char>>, after: Seq<Seq<char>>, command: Seq<char>)
    requires
        before.contains(command) ==> after == before,
        !before.contains(command) ==> after == before.push(command),
    ensures
        after.contains(command),
        after.len() >= before.len(),
        forall|i: int| 0 <= i < before.len() ==> after[i] == before[i],
        before.no_duplicates() ==> after.no_duplicates(),
{
    if !before.contains(command) {
        assert(after[before.len() as int] == command);
    }
}

/// The user's home directory for the user `name`: `/home/<name>`.
pub fn home_of_user(name: &str) -> (r: String)
    ensures
        r@ == "/home/"@ + name@,
{
    let mut r = "/home/".to_owned();
    r.append(name);
    r
}

/// The directory of the shell's files under `home`.
pub fn shell_dir(home: &str) -> (r: String)
    ensures
        r@ == home@ + "/brick_shell"@,
{
    let mut r = home.to_owned();
    r.append("/brick_shell");
    r
}

/// The history file under `home`.
pub fn history_file(home: &str) -> (r: String)
    ensures
        r@ == home@ + "/brick_shell/brick_shell_history.txt"@,
{
    let mut r = home.to_owned();
    r.append("/brick_shell/brick_shell_history.txt");
    r
}

/// The alias file under `home`.
pub fn alias_file(home: &str) -> (r: String)
    ensures
        r@ == home@ + "/brick_shell/brick_shell_aliases.txt"@,
{
    let mut r = home.to_owned();
    r.append("/brick_shell/brick_shell_aliases.txt");
    r
}

/// The commons file under `home`.
pub fn commons_file(home: &str) -> (r: String)
    ensures
        r@ == home@ + "/brick_shell/brick_shell_commons.txt"@,
{
    let mut r = home.to_owned();
    r.append("/brick_shell/brick_shell_commons.txt");
    r
}

} // verus!
