//! Completion and hints while typing: the word under the cursor, the files
//! and common commands that it may continue to, and how a hint is shown.

use vstd::prelude::*;
use vstd::string::*;
use vstd::utf8::*;
use crate::listing::EntryKind;
use crate::text::{chars_of, push_char, starts_char, substring, utf8, views};

verus! {

/// An entry of a directory, as completion sees it.
pub struct FileEntry {
    pub name: String,
    pub kind: EntryKind,
}

/// The helper of the line editor: it completes file names, hints file names
/// and common commands, and shows hints in light gray.
pub struct FileCompleter;

/// The position of the last `c` in `cs`, or -1 where there is none.
pub open spec fn last_index_of(cs: Seq<char>, c: char) -> int
    decreases cs.len(),
{
    if cs.len() == 0 {
        -1
    } else if cs.last() == c {
        cs.len() - 1
    } else {
        last_index_of(cs.drop_last(), c)
    }
}

proof fn lemma_last_index_bounds(cs: Seq<char>, c: char)
    ensures
        -1 <= last_index_of(cs, c) < cs.len(),
        last_index_of(cs, c) >= 0 ==> cs[last_index_of(cs, c)] == c,
        last_index_of(cs, c) == -1 <==> !cs.contains(c),
        forall|j: int| last_index_of(cs, c) < j < cs.len() ==> cs[j] != c,
    decreases cs.len(),
{
    if cs.len() > 0 {
        lemma_last_index_bounds(cs.drop_last(), c);
        if cs.last() != c {
            assert forall|j: int| last_index_of(cs, c) < j < cs.len() implies cs[j] != c by {
                if j < cs.len() - 1 {
                    assert(cs[j] == cs.drop_last()[j]);
                }
            }
        }
        if cs.last() != c {
            if cs.contains(c) {
                let j = choose|j: int| 0 <= j < cs.len() && cs[j] == c;
                assert(cs.drop_last()[j] == c);
            }
            if cs.drop_last().contains(c) {
                let j = choose|j: int| 0 <= j < cs.drop_last().len() && cs.drop_last()[j] == c;
                assert(cs[j] == c);
            }
        } else {
            assert(cs[cs.len() - 1] == c);
        }
    }
}

/// The position of the last `c` in `cs`, or `None` where there is none.
fn find_last(cs: &Vec<char>, c: char) -> (r: Option<usize>)
    ensures
        r matches Some(k) ==> k == last_index_of(cs@, c) && k < cs@.len(),
        r is None ==> last_index_of(cs@, c) == -1,
{
    let mut k: usize = cs.len();
    assert(cs@.take(k as int) =~= cs@);
    while k > 0
        invariant
            k <= cs@.len(),
            last_index_of(cs@, c) == last_index_of(cs@.take(k as int), c),
        decreases k,
    {
        if cs[k - 1] == c {
            return Some(k - 1);
        }
        assert(cs@.take(k as int).drop_last() =~= cs@.take(k - 1));
        k -= 1;
    }
    None
}

/// The characters before the byte offset `pos` of `line`.
pub open spec fn chars_before(line: &str, pos: usize) -> Seq<char> {
    decode_utf8(line.spec_bytes().subrange(0, pos as int))
}

/// Where the word under the cursor starts, as a character position: after
/// the last space before the cursor, or at the start of the line.
pub open spec fn word_start(before: Seq<char>) -> int {
    last_index_of(before, ' ') + 1
}

/// The byte offset where the word under the cursor starts, and the word up to
/// the cursor: the text from after the last space before `pos` up to `pos`.
pub fn word_before(line: &str, pos: usize) -> (r: (usize, String))
    requires
        starts_char(line.spec_bytes(), pos as int),
    ensures
        r.0 == utf8(chars_before(line, pos).take(word_start(chars_before(line, pos)))).len(),
        r.1@ == chars_before(line, pos).skip(word_start(chars_before(line, pos))),
{
    proof {
        encode_utf8_valid_utf8(line@);
        if line.spec_bytes().len() > 0 {
            is_char_boundary_start_end_of_seq(line.spec_bytes());
            is_char_boundary_iff_not_is_continuation_byte(line.spec_bytes(), 0);
        }
    }
    let head = substring(line, 0, pos);
    proof {
        encode_utf8_decode_utf8(head@);
    }
    let cs = chars_of(head);
    let n = cs.len();
    let ws: usize = match find_last(&cs, ' ') {
        Some(k) => k + 1,
        None => 0,
    };
    proof {
        lemma_last_index_bounds(cs@, ' ');
    }
    let lead = head.substring_char(0, ws);
    let word = head.substring_char(ws, n);
    assert(lead@ =~= head@.take(ws as int));
    assert(word@ =~= head@.skip(ws as int));
    (lead.as_bytes().len(), word.to_owned())
}

/// The directory part of a word: up to and with its last `/` (empty where it
/// has none).
pub open spec fn dir_part(word: Seq<char>) -> Seq<char> {
    if last_index_of(word, '/') >= 0 {
        word.take(last_index_of(word, '/')) + seq!['/']
    } else {
        Seq::empty()
    }
}

/// The file part of a word: after its last `/`.
pub open spec fn file_part(word: Seq<char>) -> Seq<char> {
    word.skip(last_index_of(word, '/') + 1)
}

/// A word is its directory part followed by its file part.
pub proof fn word_parts_make_up_word(word: Seq<char>)
    ensures
        dir_part(word) + file_part(word) == word,
{
    lemma_last_index_bounds(word, '/');
    let k = last_index_of(word, '/');
    if k >= 0 {
        assert(word.take(k) + seq!['/'] + word.skip(k + 1) =~= word);
    } else {
        assert(Seq::<char>::empty() + word.skip(0) =~= word);
    }
}

/// The shape of the word under the cursor: it holds no space, its file part
/// holds no `/`, and its directory part is empty or ends in `/`.
pub proof fn word_shape(before: Seq<char>)
    ensures
        !before.skip(word_start(before)).contains(' '),
        !file_part(before.skip(word_start(before))).contains('/'),
        dir_part(before.skip(word_start(before))).len() == 0 || dir_part(
            before.skip(word_start(before)),
        ).last() == '/',
{
    lemma_last_index_bounds(before, ' ');
    let word = before.skip(word_start(before));
    if word.contains(' ') {
        let j = choose|j: int| 0 <= j < word.len() && word[j] == ' ';
        assert(before[word_start(before) + j] == ' ');
    }
    lemma_last_index_bounds(word, '/');
    let f = file_part(word);
    if f.contains('/') {
        let j = choose|j: int| 0 <= j < f.len() && f[j] == '/';
        assert(word[last_index_of(word, '/') + 1 + j] == '/');
    }
}

/// The file part and the directory part of a word (see `file_part` and
/// `dir_part`).
fn split_word(word: &str) -> (r: (String, String))
    ensures
        r.0@ == file_part(word@),
        r.1@ == dir_part(word@),
{
    let cs = chars_of(word);
    proof {
        lemma_last_index_bounds(cs@, '/');
    }
    match find_last(&cs, '/') {
        Some(k) => {
            let n = cs.len();
            let mut first = word.substring_char(0, k).to_owned();
            push_char(&mut first, '/');
            let input = word.substring_char(k + 1, n).to_owned();
            assert(first@ =~= dir_part(word@));
            assert(input@ =~= file_part(word@));
            (input, first)
        },
        None => {
            assert(word@.skip(0) =~= word@);
            (word.to_owned(), String::new())
        },
    }
}

proof fn lemma_utf8_empty(s: Seq<char>)
    ensures
        utf8(s).len() == 0 <==> s.len() == 0,
{
    if s.len() > 0 {
        assert(encode_scalar(s[0] as u32).len() >= 1);
        assert(utf8(s) == encode_scalar(s[0] as u32) + encode_utf8(s.drop_first()));
    }
}

/// The common commands that `input` begins, in their order.
pub open spec fn command_candidates(commons: Seq<Seq<char>>, input: Seq<char>) -> Seq<Seq<char>>
    decreases commons.len(),
{
    if commons.len() == 0 {
        seq![]
    } else {
        let earlier = command_candidates(commons.drop_last(), input);
        if begins_with(commons.last(), input) {
            earlier.push(commons.last())
        } else {
            earlier
        }
    }
}

/// The Tab candidate for an entry, after `first`: its name, with a `/` after
/// a directory.
pub open spec fn candidate_of(e: FileEntry, first: Seq<char>) -> Seq<char> {
    if e.kind == EntryKind::Directory {
        first + e.name@ + seq!['/']
    } else {
        first + e.name@
    }
}

proof fn lemma_candidate_listed(entries: Seq<FileEntry>, input: Seq<char>, first: Seq<char>, j: int)
    requires
        0 <= j < entries.len(),
        begins_with(entries[j].name@, input),
    ensures
        completions_of(entries, input, first).contains(candidate_of(entries[j], first)),
    decreases entries.len(),
{
    let all = completions_of(entries, input, first);
    if j == entries.len() - 1 {
        assert(all.last() == candidate_of(entries[j], first));
        assert(all[all.len() - 1] == all.last());
    } else {
        let rest = entries.drop_last();
        assert(rest[j] == entries[j]);
        lemma_candidate_listed(rest, input, first, j);
        let earlier = completions_of(rest, input, first);
        let k = choose|k: int| 0 <= k < earlier.len() && earlier[k] == candidate_of(entries[j], first);
        assert(all[k] == earlier[k]);
    }
}

proof fn lemma_file_hint_listed(entries: Seq<FileEntry>, input: Seq<char>, first: Seq<char>, i: int)
    requires
        0 <= i,
    ensures
        file_hint(entries, input, i) matches Some(h) ==> completions_of(entries, input, first).contains(
            first + input + h,
        ),
    decreases entries.len() - i,
{
    if i < entries.len() && input.len() > 0 {
        let e = entries[i];
        if begins_with(e.name@, input) && !hint_skips(e.name@) {
            lemma_candidate_listed(entries, input, first, i);
            let rest = e.name@.skip(input.len() as int);
            assert(e.name@ =~= input + rest);
            if e.kind == EntryKind::Directory {
                assert(first + input + (rest + seq!['/']) =~= candidate_of(e, first));
            } else {
                assert(first + input + rest =~= candidate_of(e, first));
            }
        } else {
            lemma_file_hint_listed(entries, input, first, i + 1);
        }
    }
}

proof fn lemma_command_listed(commons: Seq<Seq<char>>, input: Seq<char>, j: int)
    requires
        0 <= j < commons.len(),
        begins_with(commons[j], input),
    ensures
        command_candidates(commons, input).contains(commons[j]),
    decreases commons.len(),
{
    let all = command_candidates(commons, input);
    if j == commons.len() - 1 {
        assert(all[all.len() - 1] == commons[j]);
    } else {
        let rest = commons.drop_last();
        assert(rest[j] == commons[j]);
        lemma_command_listed(rest, input, j);
        let earlier = command_candidates(rest, input);
        let k = choose|k: int| 0 <= k < earlier.len() && earlier[k] == commons[j];
        assert(all[k] == earlier[k]);
    }
}

proof fn lemma_command_hint_listed(commons: Seq<Seq<char>>, input: Seq<char>, i: int)
    requires
        0 <= i,
    ensures
        command_hint(commons, input, i) matches Some(h) ==> command_candidates(commons, input).contains(
            input + h,
        ),
    decreases commons.len() - i,
{
    if i < commons.len() {
        if begins_with(commons[i], input) {
            lemma_command_listed(commons, input, i);
            assert(input + commons[i].skip(input.len() as int) =~= commons[i]);
        } else {
            lemma_command_hint_listed(commons, input, i + 1);
        }
    }
}

/// Tab offers every entry that the typed file part begins, an empty file part
/// included (then every entry), after the word's directory part; and for the
/// first word of the line every common command that the word begins.
pub proof fn tab_offers_every_match(line: &str, pos: usize, entries: Seq<FileEntry>, commons: Seq<Seq<char>>)
    ensures
        ({
            let before = chars_before(line, pos);
            let word = before.skip(word_start(before));
            &&& forall|j: int|
                0 <= j < entries.len() && begins_with(#[trigger] entries[j].name@, file_part(word))
                    ==> tab_offer(line, pos, entries, commons).contains(candidate_of(entries[j], dir_part(word)))
            &&& word_start(before) == 0 ==> forall|k: int|
                0 <= k < commons.len() && begins_with(#[trigger] commons[k], word) ==> tab_offer(
                    line,
                    pos,
                    entries,
                    commons,
                ).contains(commons[k])
        }),
{
    let before = chars_before(line, pos);
    let word = before.skip(word_start(before));
    let head = if word_start(before) == 0 {
        command_candidates(commons, word)
    } else {
        seq![]
    };
    let files = completions_of(entries, file_part(word), dir_part(word));
    let offer = tab_offer(line, pos, entries, commons);
    assert(offer == head + files);
    assert forall|j: int|
        0 <= j < entries.len() && begins_with(#[trigger] entries[j].name@, file_part(word)) implies offer.contains(
        candidate_of(entries[j], dir_part(word)),
    ) by {
        lemma_candidate_listed(entries, file_part(word), dir_part(word), j);
        let m = choose|m: int| 0 <= m < files.len() && files[m] == candidate_of(entries[j], dir_part(word));
        assert(offer[head.len() + m] == files[m]);
    }
    if word_start(before) == 0 {
        assert forall|k: int| 0 <= k < commons.len() && begins_with(#[trigger] commons[k], word) implies offer.contains(
            commons[k],
        ) by {
            lemma_command_listed(commons, word, k);
            let m = choose|m: int| 0 <= m < head.len() && head[m] == commons[k];
            assert(offer[m] == head[m]);
        }
    }
}

/// Every entry that `input` begins has its candidate among the completions;
/// so with an empty `input` every entry has.
pub proof fn completions_list_every_match(entries: Seq<FileEntry>, input: Seq<char>, first: Seq<char>)
    ensures
        forall|j: int|
            0 <= j < entries.len() && begins_with(#[trigger] entries[j].name@, input) ==> completions_of(
                entries,
                input,
                first,
            ).contains(candidate_of(entries[j], first)),
        forall|j: int| 0 <= j < entries.len() ==> begins_with(#[trigger] entries[j].name@, Seq::<char>::empty()),
{
    assert forall|j: int|
        0 <= j < entries.len() && begins_with(#[trigger] entries[j].name@, input) implies completions_of(
        entries,
        input,
        first,
    ).contains(candidate_of(entries[j], first)) by {
        lemma_candidate_listed(entries, input, first, j);
    }
    assert forall|j: int| 0 <= j < entries.len() implies begins_with(#[trigger] entries[j].name@, Seq::<char>::empty()) by {
        assert(entries[j].name@.take(0) =~= Seq::<char>::empty());
    }
}

/// The hint shows what Tab completes to: the word under the cursor followed
/// by the file hint is among what Tab offers, and so is the first word of the
/// line followed by the hint from the common commands.
pub proof fn hint_shows_a_tab_candidate(line: &str, pos: usize, entries: Seq<FileEntry>, commons: Seq<Seq<char>>)
    ensures
        ({
            let before = chars_before(line, pos);
            let word = before.skip(word_start(before));
            &&& file_hint(entries, file_part(word), 0) matches Some(h) ==> tab_offer(
                line,
                pos,
                entries,
                commons,
            ).contains(word + h)
            &&& word_start(before) == 0 ==> (command_hint(commons, word, 0) matches Some(h) ==> tab_offer(
                line,
                pos,
                entries,
                commons,
            ).contains(word + h))
        }),
{
    let before = chars_before(line, pos);
    let word = before.skip(word_start(before));
    let head = if word_start(before) == 0 {
        command_candidates(commons, word)
    } else {
        seq![]
    };
    let files = completions_of(entries, file_part(word), dir_part(word));
    let offer = tab_offer(line, pos, entries, commons);
    assert(offer == head + files);
    word_parts_make_up_word(word);
    lemma_file_hint_listed(entries, file_part(word), dir_part(word), 0);
    if let Some(h) = file_hint(entries, file_part(word), 0) {
        let k = choose|k: int| 0 <= k < files.len() && files[k] == dir_part(word) + file_part(word) + h;
        assert(dir_part(word) + file_part(word) + h =~= word + h);
        assert(offer[head.len() + k] == files[k]);
    }
    if word_start(before) == 0 {
        lemma_command_hint_listed(commons, word, 0);
        if let Some(h) = command_hint(commons, word, 0) {
            let k = choose|k: int| 0 <= k < head.len() && head[k] == word + h;
            assert(offer[k] == head[k]);
        }
    }
}

/// What Tab offers for the cursor at byte `pos` of `line`: for the first word
/// of the line, the common commands that it begins; then, for every word, the
/// entries of its directory that its file part begins (see `completions_of`).
pub open spec fn tab_offer(
    line: &str,
    pos: usize,
    entries: Seq<FileEntry>,
    commons: Seq<Seq<char>>,
) -> Seq<Seq<char>> {
    let before = chars_before(line, pos);
    let word = before.skip(word_start(before));
    (if word_start(before) == 0 {
        command_candidates(commons, word)
    } else {
        seq![]
    }) + completions_of(entries, file_part(word), dir_part(word))
}

/// For the cursor at byte `pos` of `line` in the working directory `cwd`:
/// where the word under the cursor starts, the part of the word after its
/// last `/`, the directory to look in (`cwd`, and the part up to and with
/// the last `/` after a `/`), and that part.
pub fn get_dir_and_input(line: &str, pos: usize, cwd: &str) -> (r: (usize, String, String, String))
    requires
        starts_char(line.spec_bytes(), pos as int),
    ensures
        ({
            let before = chars_before(line, pos);
            let word = before.skip(word_start(before));
            &&& r.0 == utf8(before.take(word_start(before))).len()
            &&& r.1@ == file_part(word)
            &&& r.3@ == dir_part(word)
            &&& r.2@ == (if word.contains('/') {
                cwd@ + seq!['/'] + dir_part(word)
            } else {
                cwd@
            })
        }),
{
    let (start, word) = word_before(line, pos);
    let cs = chars_of(word.as_str());
    proof {
        lemma_last_index_bounds(cs@, '/');
    }
    match find_last(&cs, '/') {
        Some(k) => {
            let n = cs.len();
            let w = word.as_str();
            let mut first = w.substring_char(0, k).to_owned();
            push_char(&mut first, '/');
            let input = w.substring_char(k + 1, n).to_owned();
            let mut dir = cwd.to_owned();
            push_char(&mut dir, '/');
            dir.append(first.as_str());
            assert(first@ =~= dir_part(word@));
            assert(input@ =~= file_part(word@));
            assert(dir@ =~= cwd@ + seq!['/'] + dir_part(word@));
            (start, input, dir, first)
        },
        None => {
            assert(word@.skip(0) =~= word@);
            (start, word, cwd.to_owned(), String::new())
        },
    }
}

/// `input` begins `name`.
pub open spec fn begins_with(name: Seq<char>, input: Seq<char>) -> bool {
    input.len() <= name.len() && name.take(input.len() as int) == input
}

/// Whether `input` begins `name`.
fn begins_with_exec(name: &Vec<char>, input: &Vec<char>) -> (r: bool)
    ensures
        r == begins_with(name@, input@),
{
    if input.len() > name.len() {
        return false;
    }
    let mut i: usize = 0;
    while i < input.len()
        invariant
            input@.len() <= name@.len(),
            i <= input@.len(),
            forall|j: int| 0 <= j < i ==> name@[j] == input@[j],
        decreases input@.len() - i,
    {
        if name[i] != input[i] {
            assert(name@.take(input@.len() as int)[i as int] != input@[i as int]);
            return false;
        }
        i += 1;
    }
    assert(name@.take(input@.len() as int) =~= input@);
    true
}

/// The name is hidden or a `.tmp` file, which the file hint passes over.
pub open spec fn hint_skips(name: Seq<char>) -> bool {
    (name.len() >= 4 && name.subrange(name.len() - 4, name.len() as int) == seq!['.', 't', 'm', 'p'])
        || (name.len() > 0 && name[0] == '.')
}

/// The file hint for `input` among `entries` from `i` on: the rest of the
/// name of the first entry that `input` begins and that is neither hidden nor
/// a `.tmp` file, with a `/` after a directory; none for an empty `input`.
pub open spec fn file_hint(entries: Seq<FileEntry>, input: Seq<char>, i: int) -> Option<Seq<char>>
    decreases entries.len() - i,
{
    if i < 0 || i >= entries.len() || input.len() == 0 {
        None
    } else {
        let name = entries[i].name@;
        if begins_with(name, input) && !hint_skips(name) {
            let rest = name.skip(input.len() as int);
            Some(if entries[i].kind == EntryKind::Directory { rest + seq!['/'] } else { rest })
        } else {
            file_hint(entries, input, i + 1)
        }
    }
}

/// The hint from common commands for `input` from `i` on: the rest of the
/// first command that `input` begins.
pub open spec fn command_hint(commons: Seq<Seq<char>>, input: Seq<char>, i: int) -> Option<Seq<char>>
    decreases commons.len() - i,
{
    if i < 0 || i >= commons.len() {
        None
    } else if begins_with(commons[i], input) {
        Some(commons[i].skip(input.len() as int))
    } else {
        command_hint(commons, input, i + 1)
    }
}

/// The completions of `input` among `entries`: for each entry that `input`
/// begins, in order, `first` and its name, with a `/` after a directory.
pub open spec fn completions_of(entries: Seq<FileEntry>, input: Seq<char>, first: Seq<char>) -> Seq<Seq<char>>
    decreases entries.len(),
{
    if entries.len() == 0 {
        seq![]
    } else {
        let e = entries.last();
        let earlier = completions_of(entries.drop_last(), input, first);
        if begins_with(e.name@, input) {
            earlier.push(
                if e.kind == EntryKind::Directory {
                    first + e.name@ + seq!['/']
                } else {
                    first + e.name@
                },
            )
        } else {
            earlier
        }
    }
}

/// The line holds a ` | ` somewhere.
pub open spec fn has_pipe(line: Seq<char>) -> bool {
    exists|i: int| 0 <= i && i + 3 <= line.len() && #[trigger] line.subrange(i, i + 3) == seq![' ', '|', ' ']
}

/// The hint comes from the common commands: the line is not empty, and it
/// has no space, or it has a ` | ` and its last space is at the cursor.
pub open spec fn hints_command(line: Seq<char>, pos: usize) -> bool {
    line.len() > 0 && (!line.contains(' ') || (has_pipe(line) && last_index_of(line, ' ') >= 0
        && utf8(line.take(last_index_of(line, ' '))).len() == pos))
}

/// Whether `cs` holds a ` | ` (see `has_pipe`).
fn has_pipe_exec(cs: &Vec<char>) -> (r: bool)
    ensures
        r == has_pipe(cs@),
{
    let n = cs.len();
    if n < 3 {
        return false;
    }
    let mut i: usize = 0;
    while i <= n - 3
        invariant
            n == cs@.len(),
            n >= 3,
            forall|j: int| 0 <= j < i ==> #[trigger] cs@.subrange(j, j + 3) != seq![' ', '|', ' '],
        decreases n - i,
    {
        if cs[i] == ' ' && cs[i + 1] == '|' && cs[i + 2] == ' ' {
            assert(cs@.subrange(i as int, i + 3) =~= seq![' ', '|', ' ']);
            return true;
        }
        assert(cs@.subrange(i as int, i + 3) != seq![' ', '|', ' ']) by {
            if cs@.subrange(i as int, i + 3) == seq![' ', '|', ' '] {
                assert(cs@.subrange(i as int, i + 3)[0] == cs@[i as int]);
                assert(cs@.subrange(i as int, i + 3)[1] == cs@[i + 1]);
                assert(cs@.subrange(i as int, i + 3)[2] == cs@[i + 2]);
            }
        }
        i += 1;
    }
    assert(!has_pipe(cs@)) by {
        if has_pipe(cs@) {
            let j = choose|j: int| 0 <= j && j + 3 <= cs@.len() && #[trigger] cs@.subrange(j, j + 3) == seq![' ', '|', ' '];
            assert(j < i);
        }
    }
    false
}

/// Every completion extends the typed word: it begins with `first` followed
/// by `input`.
pub proof fn completions_extend_input(entries: Seq<FileEntry>, input: Seq<char>, first: Seq<char>)
    ensures
        forall|i: int|
            0 <= i < completions_of(entries, input, first).len() ==> begins_with(
                #[trigger] completions_of(entries, input, first)[i],
                first + input,
            ),
    decreases entries.len(),
{
    if entries.len() > 0 {
        let rest = entries.drop_last();
        completions_extend_input(rest, input, first);
        let e = entries.last();
        let earlier = completions_of(rest, input, first);
        let all = completions_of(entries, input, first);
        assert forall|i: int| 0 <= i < all.len() implies begins_with(#[trigger] all[i], first + input) by {
            if i < earlier.len() {
                assert(all[i] == earlier[i]);
            } else {
                let c = all[i];
                assert(begins_with(e.name@, input));
                assert(e.name@.take(input.len() as int) == input);
                let n = (first.len() + input.len()) as int;
                if e.kind == EntryKind::Directory {
                    assert(c == first + e.name@ + seq!['/']);
                } else {
                    assert(c == first + e.name@);
                }
                assert(c.take(n) =~= first + input);
            }
        }
    }
}

/// A hint from the common commands completes the typed word to one of them:
/// the word followed by the hint is a common command.
pub proof fn command_hint_completes(commons: Seq<Seq<char>>, input: Seq<char>, i: int)
    requires
        0 <= i,
    ensures
        command_hint(commons, input, i) matches Some(h) ==> commons.contains(input + h),
    decreases commons.len() - i,
{
    if i < commons.len() {
        if begins_with(commons[i], input) {
            assert(input + commons[i].skip(input.len() as int) =~= commons[i]);
        } else {
            command_hint_completes(commons, input, i + 1);
        }
    }
}

impl FileCompleter {
    /// Whether the hint for the cursor at `pos` of `line` comes from the
    /// common commands rather than from the files (see `hints_command`).
    pub fn hints_command(&self, line: &str, pos: usize) -> (r: bool)
        ensures
            r == hints_command(line@, pos),
    {
        let cs = chars_of(line);
        let n = cs.len();
        if n == 0 {
            return false;
        }
        proof {
            lemma_last_index_bounds(cs@, ' ');
        }
        match find_last(&cs, ' ') {
            None => true,
            Some(k) => {
                if !has_pipe_exec(&cs) {
                    return false;
                }
                let lead = line.substring_char(0, k);
                assert(lead@ =~= line@.take(k as int));
                lead.as_bytes().len() == pos
            },
        }
    }

    /// The hint from the common commands for `input` (see `command_hint`).
    pub fn command_hint(&self, commons: &[String], input: &str) -> (r: Option<String>)
        ensures
            match command_hint(views(commons@), input@, 0) {
                Some(h) => r matches Some(t) && t@ == h,
                None => r is None,
            },
    {
        let inp = chars_of(input);
        let ghost vs = views(commons@);
        let mut i: usize = 0;
        while i < commons.len()
            invariant
                vs == views(commons@),
                inp@ == input@,
                i <= commons@.len(),
                command_hint(vs, input@, 0) == command_hint(vs, input@, i as int),
            decreases commons@.len() - i,
        {
            let c = commons[i].as_str();
            let cc = chars_of(c);
            assert(vs[i as int] == c@);
            if begins_with_exec(&cc, &inp) {
                let rest = c.substring_char(inp.len(), cc.len());
                assert(rest@ =~= c@.skip(input@.len() as int));
                return Some(rest.to_owned());
            }
            i += 1;
        }
        None
    }

    /// The hint from the files for `input` (see `file_hint`).
    pub fn file_hint(&self, entries: &[FileEntry], input: &str) -> (r: Option<String>)
        ensures
            match file_hint(entries@, input@, 0) {
                Some(h) => r matches Some(t) && t@ == h,
                None => r is None,
            },
    {
        let inp = chars_of(input);
        if inp.len() == 0 {
            return None;
        }
        let mut i: usize = 0;
        while i < entries.len()
            invariant
                input@.len() > 0,
                inp@ == input@,
                i <= entries@.len(),
                file_hint(entries@, input@, 0) == file_hint(entries@, input@, i as int),
            decreases entries@.len() - i,
        {
            let name = entries[i].name.as_str();
            let cs = chars_of(name);
            let n = cs.len();
            let tmp = n >= 4 && cs[n - 4] == '.' && cs[n - 3] == 't' && cs[n - 2] == 'm' && cs[n - 1] == 'p';
            let hidden = n > 0 && cs[0] == '.';
            assert((tmp || hidden) == hint_skips(name@)) by {
                if n >= 4 {
                    let tail = cs@.subrange(n - 4, n as int);
                    if tmp {
                        assert(tail =~= seq!['.', 't', 'm', 'p']);
                    } else if tail == seq!['.', 't', 'm', 'p'] {
                        assert(tail[0] == cs@[n - 4] && tail[1] == cs@[n - 3] && tail[2] == cs@[n - 2] && tail[3] == cs@[n - 1]);
                    }
                }
            }
            if begins_with_exec(&cs, &inp) && !tmp && !hidden {
                let mut rest = name.substring_char(inp.len(), n).to_owned();
                assert(rest@ =~= name@.skip(input@.len() as int));
                let is_dir = match entries[i].kind {
                    EntryKind::Directory => true,
                    _ => false,
                };
                if is_dir {
                    push_char(&mut rest, '/');
                }
                return Some(rest);
            }
            i += 1;
        }
        None
    }

    /// The completions of `input` among `entries`, each after `first` (see
    /// `completions_of`).
    pub fn completions(&self, entries: &[FileEntry], input: &str, first: &str) -> (r: Vec<String>)
        ensures
            views(r@) == completions_of(entries@, input@, first@),
    {
        let inp = chars_of(input);
        let mut r: Vec<String> = Vec::new();
        let mut i: usize = 0;
        while i < entries.len()
            invariant
                inp@ == input@,
                i <= entries@.len(),
                views(r@) == completions_of(entries@.take(i as int), input@, first@),
            decreases entries@.len() - i,
        {
            let e = &entries[i];
            let cs = chars_of(e.name.as_str());
            assert(entries@.take(i + 1).drop_last() =~= entries@.take(i as int));
            assert(entries@.take(i + 1).last() == entries@[i as int]);
            assert(cs@ == e.name@);
            if begins_with_exec(&cs, &inp) {
                let mut c = first.to_owned();
                c.append(e.name.as_str());
                let is_dir = match e.kind {
                    EntryKind::Directory => true,
                    _ => false,
                };
                if is_dir {
                    push_char(&mut c, '/');
                }
                assert(c@ =~= (if e.kind == EntryKind::Directory {
                    first@ + e.name@ + seq!['/']
                } else {
                    first@ + e.name@
                }));
                let ghost before = views(r@);
                r.push(c);
                assert(views(r@) =~= before.push(c@));
            }
            i += 1;
        }
        assert(entries@.take(entries@.len() as int) =~= entries@);
        r
    }

    /// The common commands that `input` begins (see `command_candidates`).
    pub fn command_completions(&self, commons: &[String], input: &str) -> (r: Vec<String>)
        ensures
            views(r@) == command_candidates(views(commons@), input@),
    {
        let inp = chars_of(input);
        let ghost vs = views(commons@);
        let mut r: Vec<String> = Vec::new();
        let mut i: usize = 0;
        while i < commons.len()
            invariant
                vs == views(commons@),
                inp@ == input@,
                i <= commons@.len(),
                views(r@) == command_candidates(vs.take(i as int), input@),
            decreases commons@.len() - i,
        {
            let c = commons[i].as_str();
            let cc = chars_of(c);
            assert(vs.take(i + 1).drop_last() =~= vs.take(i as int));
            assert(vs.take(i + 1).last() == c@);
            if begins_with_exec(&cc, &inp) {
                let ghost before = views(r@);
                r.push(c.to_owned());
                assert(views(r@) =~= before.push(c@));
            }
            i += 1;
        }
        assert(vs.take(vs.len() as int) =~= vs);
        r
    }

    /// What Tab offers for the cursor at byte `pos` of `line` (see
    /// `tab_offer`), `entries` being those of the directory that
    /// `get_dir_and_input` names, and where the word under the cursor starts.
    pub fn tab_candidates(&self, line: &str, pos: usize, entries: &[FileEntry], commons: &[String]) -> (r: (
        usize,
        Vec<String>,
    ))
        requires
            starts_char(line.spec_bytes(), pos as int),
        ensures
            r.0 == utf8(chars_before(line, pos).take(word_start(chars_before(line, pos)))).len(),
            views(r.1@) == tab_offer(line, pos, entries@, views(commons@)),
    {
        let (start, word) = word_before(line, pos);
        let (input, first) = split_word(word.as_str());
        let files = self.completions(entries, input.as_str(), first.as_str());
        let ghost before = chars_before(line, pos);
        let ghost ws = word_start(before);
        proof {
            lemma_last_index_bounds(before, ' ');
            lemma_utf8_empty(before.take(ws));
        }
        if start == 0 {
            let mut offer = self.command_completions(commons, word.as_str());
            let ghost a = views(offer@);
            let mut rest = files;
            offer.append(&mut rest);
            assert(views(offer@) =~= a + views(files@));
            (start, offer)
        } else {
            let none: Vec<String> = Vec::new();
            assert(views(files@) =~= views(none@) + views(files@));
            (start, files)
        }
    }

    /// The hint as the line editor shows it: in light gray.
    pub fn highlight_hint(&self, hint: &str) -> (r: String)
        ensures
            r@ == seq!['\u{1b}', '[', '3', '7', 'm'] + hint@ + seq!['\u{1b}', '[', '0', 'm'],
    {
        let mut r = String::new();
        push_char(&mut r, '\u{1b}');
        push_char(&mut r, '[');
        push_char(&mut r, '3');
        push_char(&mut r, '7');
        push_char(&mut r, 'm');
        r.append(hint);
        push_char(&mut r, '\u{1b}');
        push_char(&mut r, '[');
        push_char(&mut r, '0');
        push_char(&mut r, 'm');
        assert(r@ =~= seq!['\u{1b}', '[', '3', '7', 'm'] + hint@ + seq!['\u{1b}', '[', '0', 'm']);
        r
    }
}

} // verus!
