//! Small tools on text that the rest of the crate shares.

use vstd::prelude::*;
use vstd::string::*;

verus! {

/// Whether `v` is a Unicode scalar value.
pub open spec fn is_scalar_value(v: u32) -> bool {
    v < 0xD800 || (0xE000 <= v && v <= 0x10FFFF)
}

/// Calls `char::from_u32`.
///
/// Trusted: the result is `Some` exactly for a Unicode scalar value, and then
/// holds the character with that code point.
#[verifier::external_body]
pub(crate) fn char_from_u32(v: u32) -> (c: Option<char>)
    ensures
        c is Some <==> is_scalar_value(v),
        c is Some ==> c->0 as u32 == v,
{
    char::from_u32(v)
}

/// Calls `String::from` on one character.
///
/// Trusted: the result is the text made of that one character.
#[verifier::external_body]
pub(crate) fn char_to_string(c: char) -> (s: String)
    ensures
        s@ == seq![c],
{
    String::from(c)
}

/// The characters of `s`, one by one.
pub fn chars_of(s: &str) -> (out: Vec<char>)
    ensures
        out@ == s@,
{
    let n = s.unicode_len();
    let mut out: Vec<char> = Vec::new();
    let mut i: usize = 0;
    while i < n
        invariant
            i <= n,
            n == s@.len(),
            out@ == s@.subrange(0, i as int),
        decreases n - i,
    {
        out.push(s.get_char(i));
        proof {
            assert(s@.subrange(0, i + 1) =~= s@.subrange(0, i as int).push(s@[i as int]));
        }
        i += 1;
    }
    proof {
        assert(s@.subrange(0, n as int) =~= s@);
    }
    out
}

/// Whether two texts are the same.
pub fn same_text(a: &str, b: &str) -> (yes: bool)
    ensures
        yes == (a@ == b@),
{
    let x = chars_of(a);
    let y = chars_of(b);
    if x.len() != y.len() {
        return false;
    }
    let mut i: usize = 0;
    while i < x.len()
        invariant
            i <= x@.len(),
            x@.len() == y@.len(),
            x@ == a@,
            y@ == b@,
            forall|j: int| 0 <= j < i ==> x@[j] == y@[j],
        decreases x@.len() - i,
    {
        if x[i] != y[i] {
            assert(a@[i as int] != b@[i as int]);
            return false;
        }
        i += 1;
    }
    proof {
        assert(x@ =~= y@);
    }
    true
}

/// A list of texts as plain values.
pub open spec fn spellings(list: Seq<String>) -> Seq<Seq<char>> {
    Seq::new(list.len(), |i: int| list[i]@)
}

/// `sep` stands in `text` at position `at`.
pub open spec fn stands_at(text: Seq<char>, sep: Seq<char>, at: int) -> bool {
    0 <= at && at + sep.len() <= text.len() && text.subrange(at, at + sep.len()) == sep
}

/// The first position from `from` on at which `sep` stands in `text`, or `-1`
/// where there is none.
pub open spec fn next_at(text: Seq<char>, sep: Seq<char>, from: int) -> int
    decreases text.len() + 1 - from,
{
    if from < 0 || from + sep.len() > text.len() {
        -1
    } else if stands_at(text, sep, from) {
        from
    } else {
        next_at(text, sep, from + 1)
    }
}

/// The parts of `text` from `from` on that lie between occurrences of `sep`,
/// found from left to right without overlap.
pub open spec fn pieces_from(text: Seq<char>, sep: Seq<char>, from: int) -> Seq<Seq<char>>
    decreases text.len() - from,
{
    let at = next_at(text, sep, from);
    if sep.len() == 0 || at < from || from < 0 || at + sep.len() > text.len() {
        seq![text.subrange(from, text.len() as int)]
    } else {
        seq![text.subrange(from, at)] + pieces_from(text, sep, at + sep.len())
    }
}

/// The parts of `text` that lie between occurrences of `sep`. A text without
/// `sep` is one part; an empty `sep` separates nothing.
pub open spec fn pieces(text: Seq<char>, sep: Seq<char>) -> Seq<Seq<char>> {
    pieces_from(text, sep, 0)
}

/// There is always at least one part.
pub proof fn lemma_pieces_nonempty(text: Seq<char>, sep: Seq<char>, from: int)
    ensures
        pieces_from(text, sep, from).len() >= 1,
{
}

/// Where `next_at` finds something, `sep` stands there and nowhere before.
pub proof fn lemma_next_at(text: Seq<char>, sep: Seq<char>, from: int)
    requires
        0 <= from,
    ensures
        next_at(text, sep, from) == -1 || (from <= next_at(text, sep, from) && stands_at(
            text,
            sep,
            next_at(text, sep, from),
        )),
        forall|k: int|
            from <= k && (k < next_at(text, sep, from) || next_at(text, sep, from) == -1)
                ==> !stands_at(text, sep, k),
    decreases text.len() + 1 - from,
{
    if from + sep.len() > text.len() {
    } else if stands_at(text, sep, from) {
    } else {
        lemma_next_at(text, sep, from + 1);
    }
}

/// Whether `sep` stands in `text` at `at`.
pub fn matches_at(text: &Vec<char>, sep: &Vec<char>, at: usize) -> (yes: bool)
    requires
        at + sep@.len() <= text@.len(),
    ensures
        yes == stands_at(text@, sep@, at as int),
{
    let n = text.len();
    let mut k: usize = 0;
    while k < sep.len()
        invariant
            k <= sep@.len(),
            n == text@.len(),
            at + sep@.len() <= text@.len(),
            forall|j: int| 0 <= j < k ==> text@[at + j] == sep@[j],
        decreases sep@.len() - k,
    {
        if text[at + k] != sep[k] {
            proof {
                assert(text@.subrange(at as int, at + sep@.len())[k as int] == text@[at + k]);
            }
            return false;
        }
        k += 1;
    }
    proof {
        assert(text@.subrange(at as int, at + sep@.len()) =~= sep@);
    }
    true
}

/// The first position from `from` on at which `sep` stands in `text`.
pub fn find_from(text: &Vec<char>, sep: &Vec<char>, from: usize) -> (found: Option<usize>)
    ensures
        match found {
            Some(at) => at == next_at(text@, sep@, from as int),
            None => next_at(text@, sep@, from as int) == -1,
        },
{
    if sep.len() == 0 {
        if from <= text.len() {
            proof {
                assert(text@.subrange(from as int, from as int) =~= sep@);
            }
            return Some(from);
        }
        return None;
    }
    let mut k: usize = from;
    while k < text.len() && sep.len() <= text.len() - k
        invariant
            from <= k,
            sep@.len() > 0,
            next_at(text@, sep@, from as int) == next_at(text@, sep@, k as int),
        decreases text@.len() - k,
    {
        if matches_at(text, sep, k) {
            return Some(k);
        }
        k += 1;
    }
    None
}

/// Cuts `text` at every occurrence of `sep`.
pub fn split(text: &str, sep: &str) -> (out: Vec<String>)
    ensures
        spellings(out@) == pieces(text@, sep@),
{
    let t = chars_of(text);
    let p = chars_of(sep);
    let n = text.unicode_len();
    let mut out: Vec<String> = Vec::new();
    let mut from: usize = 0;
    if p.len() == 0 {
        out.push(String::from_str(text));
        proof {
            assert(text@.subrange(0, text@.len() as int) =~= text@);
            assert(spellings(out@) =~= pieces(text@, sep@));
        }
        return out;
    }
    loop
        invariant
            t@ == text@,
            p@ == sep@,
            n == text@.len(),
            p@.len() > 0,
            from <= n,
            spellings(out@) + pieces_from(text@, sep@, from as int) == pieces(text@, sep@),
        decreases n - from,
    {
        let ghost before = spellings(out@);
        proof {
            lemma_next_at(text@, sep@, from as int);
        }
        match find_from(&t, &p, from) {
            None => {
                out.push(String::from_str(text.substring_char(from, n)));
                proof {
                    assert(spellings(out@) =~= before + pieces_from(text@, sep@, from as int));
                }
                return out;
            },
            Some(at) => {
                out.push(String::from_str(text.substring_char(from, at)));
                proof {
                    assert(spellings(out@) =~= before + seq![text@.subrange(from as int, at as int)]);
                    assert(spellings(out@) + pieces_from(text@, sep@, at + p@.len()) =~= before
                        + pieces_from(text@, sep@, from as int));
                }
                from = at + p.len();
            },
        }
    }
}

} // verus!
