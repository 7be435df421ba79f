//! Byte-level views of strings and the few string primitives the shell needs.
//!
//! A `&str` is seen through its UTF-8 bytes (`spec_bytes`), a `String` through
//! `encode_utf8` of its characters; byte offsets are what the shell's line
//! editor and the string slicing of the shell work with.

use vstd::prelude::*;
use vstd::string::*;
use vstd::utf8::*;

verus! {

/// The UTF-8 bytes of a character sequence.
pub open spec fn utf8(s: Seq<char>) -> Seq<u8> {
    encode_utf8(s)
}

/// The UTF-8 bytes of each string of a sequence.
pub open spec fn utf8_all(v: Seq<String>) -> Seq<Seq<u8>> {
    v.map_values(|x: String| encode_utf8(x@))
}

/// `i` is an offset at which a character starts, or the end of `b`.
pub open spec fn starts_char(b: Seq<u8>, i: int) -> bool {
    0 <= i <= b.len() && (i == b.len() || !is_continuation_byte(b[i]))
}

/// `d` occurs in `b` at offset `i`.
pub open spec fn occurs_at(b: Seq<u8>, d: Seq<u8>, i: int) -> bool {
    0 <= i && i + d.len() <= b.len() && b.subrange(i, i + d.len()) == d
}

/// `d` occurs somewhere in `b`.
pub open spec fn contains_bytes(b: Seq<u8>, d: Seq<u8>) -> bool {
    exists|i: int| occurs_at(b, d, i)
}

pub proof fn lemma_starts_char_is_boundary(b: Seq<u8>, i: int)
    requires
        valid_utf8(b),
        starts_char(b, i),
    ensures
        is_char_boundary(b, i),
{
    if i == b.len() {
        is_char_boundary_start_end_of_seq(b);
    } else {
        is_char_boundary_iff_not_is_continuation_byte(b, i);
    }
}

/// Whether a character starts at offset `i` of `b` (or `i` is its end).
pub fn is_char_start(b: &[u8], i: usize) -> (r: bool)
    requires
        i <= b@.len(),
    ensures
        r == starts_char(b@, i as int),
{
    i == b.len() || b[i] < 0x80 || b[i] > 0xbf
}

/// The part of `s` between the byte offsets `from` and `to`.
pub fn substring<'a>(s: &'a str, from: usize, to: usize) -> (r: &'a str)
    requires
        from <= to,
        starts_char(s.spec_bytes(), from as int),
        starts_char(s.spec_bytes(), to as int),
    ensures
        r.spec_bytes() == s.spec_bytes().subrange(from as int, to as int),
{
    proof {
        encode_utf8_valid_utf8(s@);
        lemma_starts_char_is_boundary(s.spec_bytes(), from as int);
    }
    let (_, rest) = s.split_at(from);
    proof {
        encode_utf8_valid_utf8(rest@);
        let k = (to - from) as int;
        if to < s.spec_bytes().len() {
            assert(rest.spec_bytes()[k] == s.spec_bytes()[to as int]);
        }
        lemma_starts_char_is_boundary(rest.spec_bytes(), k);
    }
    let (piece, _) = rest.split_at(to - from);
    proof {
        assert(piece.spec_bytes() =~= s.spec_bytes().subrange(from as int, to as int));
    }
    piece
}

/// The owned copy of `s[from..to]`.
pub fn substring_owned(s: &str, from: usize, to: usize) -> (r: String)
    requires
        from <= to,
        starts_char(s.spec_bytes(), from as int),
        starts_char(s.spec_bytes(), to as int),
    ensures
        utf8(r@) == s.spec_bytes().subrange(from as int, to as int),
{
    let piece = substring(s, from, to);
    piece.to_owned()
}

/// Whether `d` occurs in `b` at offset `i`.
pub fn occurs_at_exec(b: &[u8], d: &[u8], i: usize) -> (r: bool)
    ensures
        r == occurs_at(b@, d@, i as int),
{
    if i > b.len() || d.len() > b.len() - i {
        return false;
    }
    let end = i + d.len();
    let mut k: usize = 0;
    while k < d.len()
        invariant
            k <= d@.len(),
            end == i + d@.len(),
            i + d@.len() <= b@.len(),
            forall|j: int| 0 <= j < k ==> b@[i + j] == d@[j],
        decreases d@.len() - k,
    {
        if b[i + k] != d[k] {
            assert(b@.subrange(i as int, i + d@.len())[k as int] != d@[k as int]);
            return false;
        }
        k += 1;
    }
    assert(b@.subrange(i as int, i + d@.len()) =~= d@);
    true
}

/// Whether `d` occurs anywhere in `b`.
pub fn contains_exec(b: &[u8], d: &[u8]) -> (r: bool)
    ensures
        r == contains_bytes(b@, d@),
{
    if d.len() > b.len() {
        return false;
    }
    let last = b.len() - d.len();
    let mut i: usize = 0;
    loop
        invariant
            last == b@.len() - d@.len(),
            i <= last,
            forall|j: int| 0 <= j < i ==> !occurs_at(b@, d@, j),
        decreases last - i,
    {
        if occurs_at_exec(b, d, i) {
            return true;
        }
        if i == last {
            return false;
        }
        i += 1;
    }
}

/// The characters of each string of a sequence.
pub open spec fn views(v: Seq<String>) -> Seq<Seq<char>> {
    v.map_values(|x: String| x@)
}

/// `k` is the first position of `c` in `cs`.
pub open spec fn is_first(cs: Seq<char>, c: char, k: int) -> bool {
    0 <= k < cs.len() && cs[k] == c && forall|j: int| 0 <= j < k ==> cs[j] != c
}

/// Appends `c` to `s` (`String::push`).
#[verifier::external_body]
pub fn push_char(s: &mut String, c: char)
    ensures
        final(s)@ == old(s)@.push(c),
{
    s.push(c)
}

/// Whether `a` and `b` hold the same text.
pub fn str_eq(a: &str, b: &str) -> (r: bool)
    ensures
        r == (a@ == b@),
{
    let x = a.as_bytes();
    let y = b.as_bytes();
    proof {
        assert(x@ == encode_utf8(a@));
        assert(y@ == encode_utf8(b@));
        if a@ == b@ {
            assert(x@ == y@);
        }
        encode_utf8_decode_utf8(a@);
        encode_utf8_decode_utf8(b@);
    }
    if x.len() != y.len() {
        return false;
    }
    let mut i: usize = 0;
    while i < x.len()
        invariant
            x@ == encode_utf8(a@),
            y@ == encode_utf8(b@),
            x@.len() == y@.len(),
            i <= x@.len(),
            forall|j: int| 0 <= j < i ==> x@[j] == y@[j],
        decreases x@.len() - i,
    {
        if x[i] != y[i] {
            assert(x@[i as int] != y@[i as int]);
            assert(x@ != y@);
            return false;
        }
        i += 1;
    }
    assert(x@ =~= y@);
    true
}

/// The characters of `s`, one by one.
pub fn chars_of(s: &str) -> (r: Vec<char>)
    ensures
        r@ == s@,
{
    broadcast use vstd::string::group_string_axioms;

    let mut r: Vec<char> = Vec::new();
    for c in it: s.chars()
        invariant
            it.seq() == s@,
            r@ == it.seq().take(it.index() as int),
    {
        r.push(c);
        assert(r@ =~= it.seq().take(it.index() + 1));
    }
    assert(s@.take(s@.len() as int) =~= s@);
    r
}

/// The white space characters of Unicode (`char::is_whitespace`).
pub open spec fn is_white(c: char) -> bool {
    let u = c as u32;
    (0x9 <= u <= 0xd) || u == 0x20 || u == 0x85 || u == 0xa0 || u == 0x1680 || (0x2000 <= u
        <= 0x200a) || u == 0x2028 || u == 0x2029 || u == 0x202f || u == 0x205f || u == 0x3000
}

/// Whether `c` is white space (see `is_white`).
pub fn is_white_char(c: char) -> (r: bool)
    ensures
        r == is_white(c),
{
    let u = c as u32;
    (0x9 <= u && u <= 0xd) || u == 0x20 || u == 0x85 || u == 0xa0 || u == 0x1680 || (0x2000 <= u
        && u <= 0x200a) || u == 0x2028 || u == 0x2029 || u == 0x202f || u == 0x205f || u == 0x3000
}

/// `cs` without its leading and trailing white space (`str::trim`).
pub open spec fn trim_white(cs: Seq<char>) -> Seq<char>
    decreases cs.len(),
{
    if cs.len() == 0 {
        cs
    } else if is_white(cs[0]) {
        trim_white(cs.drop_first())
    } else if is_white(cs.last()) {
        trim_white(cs.drop_last())
    } else {
        cs
    }
}

/// `s` without its leading and trailing white space.
pub fn trim(s: &str) -> (r: &str)
    ensures
        r@ == trim_white(s@),
{
    let cs = chars_of(s);
    let n = cs.len();
    let mut a: usize = 0;
    assert(cs@.subrange(0, n as int) =~= cs@);
    while a < n && is_white_char(cs[a])
        invariant
            n == cs@.len(),
            a <= n,
            trim_white(cs@) == trim_white(cs@.subrange(a as int, n as int)),
        decreases n - a,
    {
        assert(cs@.subrange(a as int, n as int).drop_first() =~= cs@.subrange(a + 1, n as int));
        a += 1;
    }
    let mut b: usize = n;
    while b > a && is_white_char(cs[b - 1])
        invariant
            n == cs@.len(),
            a <= b <= n,
            a < n ==> !is_white(cs@[a as int]),
            trim_white(cs@) == trim_white(cs@.subrange(a as int, b as int)),
        decreases b,
    {
        assert(cs@.subrange(a as int, b as int).drop_last() =~= cs@.subrange(a as int, b - 1));
        b -= 1;
    }
    s.substring_char(a, b)
}

} // verus!
