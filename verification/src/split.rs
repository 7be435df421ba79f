//! Splitting a command line: into the commands chained by a delimiter such as
//! `" && "` or `" | "`, and a command into its name and its arguments.

use vstd::prelude::*;
use vstd::string::*;
use std::vec::IntoIter;
use vstd::std_specs::vec::into_iter_elts;
use crate::text::{is_first, push_char, views, contains_bytes, contains_exec, is_char_start, occurs_at, occurs_at_exec, starts_char, substring_owned, utf8_all};

verus! {

/// The byte of a double quote.
pub const QUOTE: u8 = 0x22;

/// The pieces that the scan of `b` for the delimiter `d` yields from offset
/// `i` on, where the piece under way began at `start` and `quoted` tells
/// whether an odd number of quotes has been passed.
///
/// A delimiter counts only outside quotes; a quote is looked at only where no
/// delimiter is taken; the scan looks for delimiters only where one still
/// fits, and the text after the last delimiter is the last piece.
pub open spec fn scan_pieces(b: Seq<u8>, d: Seq<u8>, i: int, start: int, quoted: bool) -> Seq<Seq<u8>>
    decreases b.len() - i,
{
    if d.len() == 0 || i < 0 {
        seq![]
    } else if i > b.len() - d.len() {
        seq![b.subrange(start, b.len() as int)]
    } else if occurs_at(b, d, i) && !quoted {
        seq![b.subrange(start, i)] + scan_pieces(b, d, i + d.len(), i + d.len(), quoted)
    } else {
        scan_pieces(b, d, i + 1, start, if b[i] == QUOTE { !quoted } else { quoted })
    }
}

/// The scan of `scan_pieces` cuts `b` only where characters start: every
/// offset it looks at, and every piece boundary, falls on a character.
pub open spec fn scan_defined(b: Seq<u8>, d: Seq<u8>, i: int, start: int, quoted: bool) -> bool
    decreases b.len() - i,
{
    if d.len() == 0 || i < 0 {
        false
    } else if i > b.len() - d.len() {
        starts_char(b, start)
    } else if !starts_char(b, i) {
        false
    } else if occurs_at(b, d, i) && !quoted {
        starts_char(b, start) && scan_defined(b, d, i + d.len(), i + d.len(), quoted)
    } else {
        scan_defined(b, d, i + 1, start, if b[i] == QUOTE { !quoted } else { quoted })
    }
}

/// The pieces of `b` split at the delimiter `d` outside quotes; `b` itself
/// when `d` does not occur in it.
pub open spec fn split_pieces(b: Seq<u8>, d: Seq<u8>) -> Seq<Seq<u8>> {
    if !contains_bytes(b, d) {
        seq![b]
    } else {
        scan_pieces(b, d, 0, 0, false)
    }
}

/// The split of `b` at `d` is defined: `d` is not empty, and where `d` occurs
/// in `b` the scan cuts `b` only between characters.
pub open spec fn split_defined(b: Seq<u8>, d: Seq<u8>) -> bool {
    d.len() > 0 && (!contains_bytes(b, d) || scan_defined(b, d, 0, 0, false))
}

/// Splits `s` at each `delimiter` that stands outside double quotes, or
/// `None` where that split is not defined (see `split_defined`).
pub fn try_split_with_delimiter(s: &str, delimiter: &str) -> (r: Option<Vec<String>>)
    ensures
        r is Some <==> split_defined(s.spec_bytes(), delimiter.spec_bytes()),
        r matches Some(v) ==> utf8_all(v@) == split_pieces(s.spec_bytes(), delimiter.spec_bytes()),
{
    let b = s.as_bytes();
    let d = delimiter.as_bytes();
    let ghost bs = b@;
    let ghost ds = d@;
    if d.len() == 0 {
        return None;
    }
    let mut result: Vec<String> = Vec::new();
    if !contains_exec(b, d) {
        let whole = s.to_owned();
        result.push(whole);
        proof {
            assert(utf8_all(result@) =~= seq![bs]);
        }
        return Some(result);
    }
    let n = b.len();
    let m = d.len();
    proof {
        let w = choose|j: int| occurs_at(bs, ds, j);
        assert(occurs_at(bs, ds, w));
    }
    let mut start: usize = 0;
    let mut in_quotes = false;
    let mut i: usize = 0;
    assert(utf8_all(result@) + scan_pieces(bs, ds, 0, 0, false) =~= scan_pieces(bs, ds, 0, 0, false));
    while i <= n - m
        invariant
            bs == s.spec_bytes(),
            ds == delimiter.spec_bytes(),
            b@ == bs,
            d@ == ds,
            n == bs.len(),
            m == ds.len(),
            1 <= m <= n,
            start <= i <= n,
            contains_bytes(bs, ds),
            utf8_all(result@) + scan_pieces(bs, ds, i as int, start as int, in_quotes) == scan_pieces(
                bs,
                ds,
                0,
                0,
                false,
            ),
            scan_defined(bs, ds, i as int, start as int, in_quotes) == scan_defined(
                bs,
                ds,
                0,
                0,
                false,
            ),
        decreases n - i,
    {
        if !is_char_start(b, i) {
            return None;
        }
        if !in_quotes && occurs_at_exec(b, d, i) {
            if !is_char_start(b, start) {
                return None;
            }
            let piece = substring_owned(s, start, i);
            let ghost before = utf8_all(result@);
            let ghost rest = scan_pieces(bs, ds, (i + m) as int, (i + m) as int, in_quotes);
            result.push(piece);
            proof {
                assert(utf8_all(result@) =~= before.push(bs.subrange(start as int, i as int)));
                assert(before + (seq![bs.subrange(start as int, i as int)] + rest) =~= utf8_all(
                    result@,
                ) + rest);
            }
            i = i + m;
            start = i;
        } else {
            if b[i] == QUOTE {
                in_quotes = !in_quotes;
            }
            i = i + 1;
        }
    }
    if !is_char_start(b, start) {
        return None;
    }
    let last = substring_owned(s, start, n);
    let ghost before = utf8_all(result@);
    result.push(last);
    proof {
        assert(utf8_all(result@) =~= before + seq![bs.subrange(start as int, n as int)]);
    }
    Some(result)
}

/// Splits `s` at each `delimiter` that stands outside double quotes.
///
/// `"a && b"` split at `" && "` gives `["a", "b"]`; a delimiter between
/// double quotes is kept in its piece; a string without the delimiter comes
/// back whole.
pub fn split_with_delimiter(s: &str, delimiter: &str) -> (r: Vec<String>)
    requires
        split_defined(s.spec_bytes(), delimiter.spec_bytes()),
    ensures
        utf8_all(r@) == split_pieces(s.spec_bytes(), delimiter.spec_bytes()),
{
    match try_split_with_delimiter(s, delimiter) {
        Some(v) => v,
        None => {
            proof {
                assert(false);
            }
            Vec::new()
        },
    }
}

/// The state of the argument scan after reading `cs`: the arguments found,
/// the argument under way, and whether an odd number of quotes was read.
///
/// A quote only switches quoting; a space outside quotes ends the argument
/// under way, if it is not empty; every other character, and a space within
/// quotes, goes into the argument under way.
pub open spec fn arg_scan(cs: Seq<char>) -> (Seq<Seq<char>>, Seq<char>, bool)
    decreases cs.len(),
{
    if cs.len() == 0 {
        (seq![], seq![], false)
    } else {
        let (done, cur, quoted) = arg_scan(cs.drop_last());
        let c = cs.last();
        if c == '"' {
            (done, cur, !quoted)
        } else if c == ' ' && !quoted {
            if cur.len() > 0 {
                (done.push(cur), seq![], quoted)
            } else {
                (done, cur, quoted)
            }
        } else {
            (done, cur.push(c), quoted)
        }
    }
}

/// The arguments in `cs`: those of `arg_scan`, and the one under way at the
/// end if it is not empty.
pub open spec fn split_arguments(cs: Seq<char>) -> Seq<Seq<char>> {
    let (done, cur, _) = arg_scan(cs);
    if cur.len() > 0 {
        done.push(cur)
    } else {
        done
    }
}

proof fn lemma_arg_scan_clean(cs: Seq<char>)
    ensures
        forall|i: int| 0 <= i < arg_scan(cs).0.len() ==> (#[trigger] arg_scan(cs).0[i]).len() > 0
            && !arg_scan(cs).0[i].contains('"'),
        !arg_scan(cs).1.contains('"'),
    decreases cs.len(),
{
    if cs.len() > 0 {
        lemma_arg_scan_clean(cs.drop_last());
        let (done, cur, quoted) = arg_scan(cs.drop_last());
        let c = cs.last();
        if c != '"' && !(c == ' ' && !quoted) {
            assert(!cur.push(c).contains('"')) by {
                if cur.push(c).contains('"') {
                    let j = choose|j: int| 0 <= j < cur.push(c).len() && cur.push(c)[j] == '"';
                    if j < cur.len() {
                        assert(cur[j] == '"');
                    }
                }
            }
        }
        if c == ' ' && !quoted && cur.len() > 0 {
            assert forall|i: int| 0 <= i < done.push(cur).len() implies (#[trigger] done.push(cur)[i]).len() > 0
                && !done.push(cur)[i].contains('"') by {
                if i < done.len() {
                    assert(done.push(cur)[i] == done[i]);
                }
            }
            assert(!Seq::<char>::empty().contains('"'));
        }
    }
}

/// The arguments split out of a command are never empty and hold no double
/// quote: quotes only group, and empty arguments are dropped.
pub proof fn arguments_are_clean(cs: Seq<char>)
    ensures
        forall|i: int| 0 <= i < split_arguments(cs).len() ==> (#[trigger] split_arguments(cs)[i]).len() > 0
            && !split_arguments(cs)[i].contains('"'),
{
    lemma_arg_scan_clean(cs);
    let (done, cur, _) = arg_scan(cs);
    if cur.len() > 0 {
        assert forall|i: int| 0 <= i < done.push(cur).len() implies (#[trigger] done.push(cur)[i]).len() > 0
            && !done.push(cur)[i].contains('"') by {
            if i < done.len() {
                assert(done.push(cur)[i] == done[i]);
            }
        }
    }
}

/// Whether an odd number of double quotes stands in `cs`.
pub open spec fn odd_quotes(cs: Seq<char>) -> bool
    decreases cs.len(),
{
    if cs.len() == 0 {
        false
    } else if cs.last() == '"' {
        !odd_quotes(cs.drop_last())
    } else {
        odd_quotes(cs.drop_last())
    }
}

/// `cs` without its double quotes.
pub open spec fn without_quotes(cs: Seq<char>) -> Seq<char>
    decreases cs.len(),
{
    if cs.len() == 0 {
        cs
    } else if cs.last() == '"' {
        without_quotes(cs.drop_last())
    } else {
        without_quotes(cs.drop_last()).push(cs.last())
    }
}

/// Every space of `cs` stands between quotes: an odd number of quotes comes
/// before it.
pub open spec fn spaces_all_quoted(cs: Seq<char>) -> bool {
    forall|i: int| 0 <= i < cs.len() && #[trigger] cs[i] == ' ' ==> odd_quotes(cs.take(i))
}

proof fn lemma_one_word_scan(cs: Seq<char>)
    requires
        spaces_all_quoted(cs),
    ensures
        arg_scan(cs) == (Seq::<Seq<char>>::empty(), without_quotes(cs), odd_quotes(cs)),
    decreases cs.len(),
{
    if cs.len() > 0 {
        let d = cs.drop_last();
        assert forall|i: int| 0 <= i < d.len() && #[trigger] d[i] == ' ' implies odd_quotes(d.take(i)) by {
            assert(cs[i] == ' ');
            assert(cs.take(i) =~= d.take(i));
        }
        lemma_one_word_scan(d);
        if cs.last() == ' ' {
            assert(cs[cs.len() - 1] == ' ');
            assert(cs.take(cs.len() - 1) =~= d);
        }
    }
}

/// A quote only switches quoting and joins what it touches: a text whose
/// spaces all stand between quotes is one argument, the text without its
/// quotes (none where that is empty).
pub proof fn quoted_text_is_one_argument(cs: Seq<char>)
    requires
        spaces_all_quoted(cs),
    ensures
        without_quotes(cs).len() > 0 ==> split_arguments(cs) == seq![without_quotes(cs)],
        without_quotes(cs).len() == 0 ==> split_arguments(cs) == Seq::<Seq<char>>::empty(),
{
    lemma_one_word_scan(cs);
    assert(Seq::<Seq<char>>::empty().push(without_quotes(cs)) =~= seq![without_quotes(cs)]);
}

/// Splits the arguments out of `args`, a command line after its first space.
pub fn arguments(args: &str) -> (r: Vec<String>)
    ensures
        views(r@) == split_arguments(args@),
{
    broadcast use vstd::string::group_string_axioms;

    let mut result: Vec<String> = Vec::new();
    let mut in_quotes = false;
    let mut current = String::new();
    for c in it: args.chars()
        invariant
            it.seq() == args@,
            arg_scan(it.seq().take(it.index() as int)) == (views(result@), current@, in_quotes),
    {
        let ghost before = it.seq().take(it.index() as int);
        assert(it.seq().take(it.index() + 1).drop_last() =~= before);
        if c == '"' {
            in_quotes = !in_quotes;
        } else if c == ' ' && !in_quotes {
            if !current.as_str().is_empty() {
                let ghost done = views(result@);
                result.push(current.clone());
                assert(views(result@) =~= done.push(current@));
                current = String::new();
            }
        } else {
            push_char(&mut current, c);
        }
    }
    assert(args@.take(args@.len() as int) =~= args@);
    if !current.as_str().is_empty() {
        let ghost done = views(result@);
        result.push(current);
        assert(views(result@) =~= done.push(current@));
    }
    result
}

/// The remaining items of a vector's iterator, as character sequences.
pub open spec fn iter_views(it: IntoIter<String>) -> Seq<Seq<char>> {
    views(into_iter_elts(it))
}

/// Splits a command into its name, the text before the first space, and its
/// arguments, read from the text after that space by `split_arguments`;
/// a command without a space is all name, with no arguments.
pub fn split_args(command: &str) -> (r: (&str, IntoIter<String>))
    ensures
        !command@.contains(' ') ==> r.0@ == command@ && iter_views(r.1) == Seq::<Seq<char>>::empty(),
        forall|k: int|
            is_first(command@, ' ', k) ==> r.0@ == command@.take(k) && iter_views(r.1)
                == split_arguments(command@.skip(k + 1)),
{
    broadcast use vstd::string::group_string_axioms;
    broadcast use vstd::std_specs::vec::axiom_spec_into_iter;

    let n = command.unicode_len();
    let mut k: usize = 0;
    let mut found = false;
    for c in it: command.chars()
        invariant
            it.seq() == command@,
            n == command@.len(),
            !found ==> k == it.index(),
            found ==> is_first(command@, ' ', k as int),
            !found ==> forall|j: int| 0 <= j < it.index() ==> command@[j] != ' ',
    {
        if !found {
            if c == ' ' {
                found = true;
            } else {
                k = k + 1;
            }
        }
    }
    if found {
        let head = command.substring_char(0, k);
        let tail = command.substring_char(k + 1, n);
        let parts = arguments(tail);
        proof {
            assert(head@ =~= command@.take(k as int));
            assert(tail@ =~= command@.skip(k + 1));
            assert forall|j: int| is_first(command@, ' ', j) implies j == k by {
                if j < k {
                    assert(command@[j] != ' ');
                } else if j > k {
                    assert(command@[k as int] != ' ');
                }
            }
        }
        (head, parts.into_iter())
    } else {
        let none: Vec<String> = Vec::new();
        proof {
            assert(views(none@) =~= Seq::<Seq<char>>::empty());
        }
        (command, none.into_iter())
    }
}

proof fn lemma_ascii_scan_defined(b: Seq<u8>, d: Seq<u8>, i: int, start: int, quoted: bool)
    requires
        d.len() > 0,
        forall|k: int| 0 <= k < b.len() ==> #[trigger] b[k] < 0x80,
        0 <= start <= i <= b.len(),
    ensures
        scan_defined(b, d, i, start, quoted),
    decreases b.len() - i,
{
    if i > b.len() - d.len() {
    } else if occurs_at(b, d, i) && !quoted {
        lemma_ascii_scan_defined(b, d, i + d.len(), i + d.len(), quoted);
    } else {
        lemma_ascii_scan_defined(b, d, i + 1, start, if b[i] == QUOTE { !quoted } else { quoted });
    }
}

/// Splitting at a non-empty delimiter is defined for every text without the
/// delimiter, and for every ASCII text: there every offset starts a character.
pub proof fn ascii_or_undelimited_split_is_defined(b: Seq<u8>, d: Seq<u8>)
    requires
        d.len() > 0,
        !contains_bytes(b, d) || forall|k: int| 0 <= k < b.len() ==> #[trigger] b[k] < 0x80,
    ensures
        split_defined(b, d),
{
    if contains_bytes(b, d) {
        lemma_ascii_scan_defined(b, d, 0, 0, false);
    }
}

/// The pieces joined again, with `d` between each two of them.
pub open spec fn join_pieces(pieces: Seq<Seq<u8>>, d: Seq<u8>) -> Seq<u8>
    decreases pieces.len(),
{
    if pieces.len() == 0 {
        seq![]
    } else if pieces.len() == 1 {
        pieces[0]
    } else {
        pieces[0] + d + join_pieces(pieces.drop_first(), d)
    }
}

proof fn lemma_scan_rejoins(b: Seq<u8>, d: Seq<u8>, i: int, start: int, quoted: bool)
    requires
        d.len() > 0,
        0 <= start <= i <= b.len(),
    ensures
        scan_pieces(b, d, i, start, quoted).len() >= 1,
        join_pieces(scan_pieces(b, d, i, start, quoted), d) == b.subrange(start, b.len() as int),
    decreases b.len() - i,
{
    if i > b.len() - d.len() {
    } else if occurs_at(b, d, i) && !quoted {
        let x = b.subrange(start, i);
        let rest = scan_pieces(b, d, i + d.len(), i + d.len(), quoted);
        lemma_scan_rejoins(b, d, i + d.len(), i + d.len(), quoted);
        let all = seq![x] + rest;
        assert(all.drop_first() =~= rest);
        assert(all[0] == x);
        assert(x + d + b.subrange(i + d.len(), b.len() as int) =~= b.subrange(start, b.len() as int));
    } else {
        lemma_scan_rejoins(b, d, i + 1, start, if b[i] == QUOTE { !quoted } else { quoted });
    }
}

/// Splitting loses nothing: for a non-empty delimiter, the pieces joined again
/// with the delimiter between them give back the text that was split.
pub proof fn split_then_join(b: Seq<u8>, d: Seq<u8>)
    requires
        d.len() > 0,
    ensures
        join_pieces(split_pieces(b, d), d) == b,
{
    if contains_bytes(b, d) {
        lemma_scan_rejoins(b, d, 0, 0, false);
        assert(b.subrange(0, b.len() as int) =~= b);
    }
}

} // verus!
