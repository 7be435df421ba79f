//! Text as it shows on a terminal: its width once ANSI escape sequences are
//! taken out, and padding on the right up to a width.

use vstd::prelude::*;
use vstd::string::*;
use crate::text::{push_char, utf8};

verus! {

/// What `strip_ansi_escapes::strip_str` leaves of a text: the text without
/// its ANSI escape sequences.
pub uninterp spec fn ansi_stripped(s: Seq<char>) -> Seq<char>;

/// `strip_ansi_escapes::strip_str`: the text without its ANSI escape
/// sequences. Trusted to give `ansi_stripped` of its argument; nothing more is
/// claimed of what it takes out.
#[verifier::external_body]
fn strip_escapes(s: &str) -> (r: String)
    ensures
        r@ == ansi_stripped(s@),
{
    strip_ansi_escapes::strip_str(s)
}

/// The width that `s` shows with: the length in bytes of what is left of it
/// without its escape sequences.
pub open spec fn visible_len(s: Seq<char>) -> nat {
    utf8(ansi_stripped(s)).len()
}

/// The longest `visible_len` among the strings of `v` (0 for none).
pub open spec fn longest_visible(v: Seq<Seq<char>>) -> nat
    decreases v.len(),
{
    if v.len() == 0 {
        0
    } else {
        let rest = longest_visible(v.drop_last());
        let last = visible_len(v.last());
        if last > rest {
            last
        } else {
            rest
        }
    }
}

/// The longest width bounds every string's width and is the width of one of
/// them (0 for none).
pub proof fn longest_is_the_widest(v: Seq<Seq<char>>)
    ensures
        forall|i: int| 0 <= i < v.len() ==> visible_len(#[trigger] v[i]) <= longest_visible(v),
        v.len() > 0 ==> exists|i: int| 0 <= i < v.len() && visible_len(#[trigger] v[i]) == longest_visible(v),
        v.len() == 0 ==> longest_visible(v) == 0,
    decreases v.len(),
{
    if v.len() > 0 {
        let d = v.drop_last();
        longest_is_the_widest(d);
        assert forall|i: int| 0 <= i < v.len() implies visible_len(#[trigger] v[i]) <= longest_visible(v) by {
            if i < v.len() - 1 {
                assert(v[i] == d[i]);
            } else {
                assert(v[i] == v.last());
            }
        }
        if visible_len(v.last()) > longest_visible(d) {
            assert(visible_len(v[v.len() - 1]) == longest_visible(v));
        } else if d.len() > 0 {
            let k = choose|k: int| 0 <= k < d.len() && visible_len(#[trigger] d[k]) == longest_visible(d);
            assert(v[k] == d[k]);
            assert(visible_len(v[k]) == longest_visible(v));
        } else {
            assert(visible_len(v[0]) == longest_visible(v));
        }
    }
}

/// `n` spaces.
pub open spec fn spaces(n: nat) -> Seq<char> {
    Seq::new(n, |i: int| ' ')
}

/// How many spaces the padding can add at most.
pub const PAD_LIMIT: usize = 91;

/// `s` padded on the right to the width `padded_to`.
pub open spec fn padded(s: Seq<char>, padded_to: nat) -> Seq<char> {
    s + spaces((padded_to - visible_len(s)) as nat)
}

/// `s` can be padded to `padded_to`: it is no wider, and no more than
/// `PAD_LIMIT` spaces are missing.
pub open spec fn pad_fits(s: Seq<char>, padded_to: nat) -> bool {
    visible_len(s) <= padded_to <= visible_len(s) + PAD_LIMIT
}

/// The width that `s` shows with (see `visible_len`).
pub fn display_len(s: &str) -> (n: usize)
    ensures
        n == visible_len(s@),
{
    let stripped = strip_escapes(s);
    stripped.as_str().as_bytes().len()
}

/// `s` followed by `padded_to - visible` spaces, `visible` being the width
/// that `s` shows with.
pub fn pad_right(s: String, visible: usize, padded_to: usize) -> (r: String)
    requires
        visible <= padded_to,
        padded_to - visible <= PAD_LIMIT,
    ensures
        r@ == s@ + spaces((padded_to - visible) as nat),
{
    let missing = padded_to - visible;
    let mut r = s;
    let mut k: usize = 0;
    while k < missing
        invariant
            k <= missing,
            r@ == s@ + spaces(k as nat),
        decreases missing - k,
    {
        push_char(&mut r, ' ');
        k += 1;
        assert(r@ =~= s@ + spaces(k as nat));
    }
    r
}

/// Pads `s` with spaces on the right so that it shows `padded_to` wide.
pub fn r_pad(s: String, padded_to: usize) -> (r: String)
    requires
        pad_fits(s@, padded_to as nat),
    ensures
        r@ == padded(s@, padded_to as nat),
{
    let visible = display_len(s.as_str());
    pad_right(s, visible, padded_to)
}

/// `r_pad` where `s` can be padded to `padded_to`, and `None` where it cannot.
pub fn r_pad_checked(s: String, padded_to: usize) -> (r: Option<String>)
    ensures
        r is Some <==> pad_fits(s@, padded_to as nat),
        r matches Some(t) ==> t@ == padded(s@, padded_to as nat),
{
    let visible = display_len(s.as_str());
    if visible <= padded_to && padded_to - visible <= PAD_LIMIT {
        Some(r_pad(s, padded_to))
    } else {
        None
    }
}

/// Pads each string of `v` on the right to the width `padded_to`.
pub fn r_pad_array(v: &[String], padded_to: usize) -> (r: Vec<String>)
    requires
        forall|i: int| 0 <= i < v@.len() ==> pad_fits(#[trigger] v@[i]@, padded_to as nat),
    ensures
        r@.len() == v@.len(),
        forall|i: int| 0 <= i < v@.len() ==> #[trigger] r@[i]@ == padded(v@[i]@, padded_to as nat),
{
    let mut r: Vec<String> = Vec::new();
    let mut i: usize = 0;
    while i < v.len()
        invariant
            i <= v@.len(),
            r@.len() == i,
            forall|j: int| 0 <= j < v@.len() ==> pad_fits(#[trigger] v@[j]@, padded_to as nat),
            forall|j: int| 0 <= j < i ==> #[trigger] r@[j]@ == padded(v@[j]@, padded_to as nat),
        decreases v@.len() - i,
    {
        let s = v[i].clone();
        r.push(r_pad(s, padded_to));
        i += 1;
    }
    r
}

/// The widest that a string of `v` shows (see `visible_len`), 0 for none.
pub fn find_longest(v: &[String]) -> (r: usize)
    ensures
        r == longest_visible(v@.map_values(|s: String| s@)),
{
    let ghost vs = v@.map_values(|s: String| s@);
    let mut longest: usize = 0;
    let mut i: usize = 0;
    while i < v.len()
        invariant
            i <= v@.len(),
            vs == v@.map_values(|s: String| s@),
            longest == longest_visible(vs.take(i as int)),
        decreases v@.len() - i,
    {
        let w = display_len(v[i].as_str());
        assert(vs.take(i + 1).drop_last() =~= vs.take(i as int));
        if w > longest {
            longest = w;
        }
        i += 1;
    }
    assert(vs.take(v@.len() as int) =~= vs);
    longest
}

} // verus!
