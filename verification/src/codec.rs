//! The multigraph codec.
//!
//! A grapheme written with several characters is folded into one private-use
//! code point while rules are applied, so that a pattern sees it as one unit,
//! and unfolded again at the end. The table's order is the order of
//! precedence: an earlier entry is folded first, whatever its length.

use crate::pattern::{all_replaced, regex_compiles, regex_spans, replace_all};
use crate::text::{char_from_u32, char_to_string, chars_of, spellings};
use vstd::prelude::*;
use vstd::string::*;

verus! {

/// How many multigraphs a table may hold: the size of the private-use block.
pub const CAPACITY: usize = 6400;

/// The first private-use code point.
pub const FIRST_STAND_IN: u32 = 0xE000;

/// The code point that stands for entry `i` of a table.
pub open spec fn stand_in(i: int) -> char {
    (0xE000 + i) as char
}

/// The table fits the private-use block.
pub open spec fn within_capacity(table: Seq<Seq<char>>) -> bool {
    table.len() <= CAPACITY
}

/// Every entry is a pattern the engine accepts.
pub open spec fn all_compile(table: Seq<Seq<char>>) -> bool {
    forall|i: int| 0 <= i < table.len() ==> regex_compiles(#[trigger] table[i])
}

/// `text` after the first `n` entries have been folded, in order.
pub open spec fn encoded_upto(text: Seq<char>, table: Seq<Seq<char>>, n: nat) -> Seq<char>
    decreases n,
{
    if n == 0 {
        text
    } else {
        let prev = encoded_upto(text, table, (n - 1) as nat);
        all_replaced(prev, regex_spans(table[n - 1], prev), seq![stand_in(n - 1)])
    }
}

/// `text` with every entry of the table folded into its stand-in.
pub open spec fn encoded(text: Seq<char>, table: Seq<Seq<char>>) -> Seq<char> {
    encoded_upto(text, table, table.len())
}

/// `text` with each `c` swapped for `with`.
pub open spec fn substituted(text: Seq<char>, c: char, with: Seq<char>) -> Seq<char>
    decreases text.len(),
{
    if text.len() == 0 {
        Seq::empty()
    } else {
        substituted(text.drop_last(), c, with) + if text.last() == c {
            with
        } else {
            seq![text.last()]
        }
    }
}

/// `text` after the first `n` stand-ins have been unfolded, in order.
pub open spec fn decoded_upto(text: Seq<char>, table: Seq<Seq<char>>, n: nat) -> Seq<char>
    decreases n,
{
    if n == 0 {
        text
    } else {
        substituted(decoded_upto(text, table, (n - 1) as nat), stand_in(n - 1), table[n - 1])
    }
}

/// `text` with every stand-in unfolded into its entry's spelling.
pub open spec fn decoded(text: Seq<char>, table: Seq<Seq<char>>) -> Seq<char> {
    decoded_upto(text, table, table.len())
}

/// No stand-in of a table of `n` entries occurs in `text`.
pub open spec fn free_of_stand_ins(text: Seq<char>, n: int) -> bool {
    forall|k: int, i: int| 0 <= k < text.len() && 0 <= i < n ==> text[k] != stand_in(i)
}

/// No entry of the table has a match in `text`.
pub open spec fn free_of_multigraphs(text: Seq<char>, table: Seq<Seq<char>>) -> bool {
    forall|i: int| 0 <= i < table.len() ==> (#[trigger] regex_spans(table[i], text)).len() == 0
}

/// The code point that stands for entry `i` of a table.
pub fn stand_in_char(i: usize) -> (c: char)
    requires
        i < CAPACITY,
    ensures
        c == stand_in(i as int),
{
    let v: u32 = FIRST_STAND_IN + (i as u32);
    let c = char_from_u32(v).unwrap();
    proof {
        vstd::utf8::char_u32_cast(c, v);
        assert(v as int == 0xE000 + i);
        assert(v as char == (0xE000 + i as int) as char);
    }
    c
}

/// The text that holds only the stand-in of entry `i`.
pub fn stand_in_text(i: usize) -> (s: String)
    requires
        i < CAPACITY,
    ensures
        s@ == seq![stand_in(i as int)],
{
    char_to_string(stand_in_char(i))
}

/// Swaps each `c` in `text` for `with`.
pub fn substitute(text: &str, c: char, with: &str) -> (out: String)
    ensures
        out@ == substituted(text@, c, with@),
{
    let chars = chars_of(text);
    let mut out = String::new();
    let mut i: usize = 0;
    while i < chars.len()
        invariant
            i <= chars@.len(),
            chars@ == text@,
            out@ == substituted(text@.subrange(0, i as int), c, with@),
        decreases chars@.len() - i,
    {
        proof {
            assert(text@.subrange(0, i + 1).drop_last() =~= text@.subrange(0, i as int));
        }
        if chars[i] == c {
            out.append(with);
        } else {
            let one = char_to_string(chars[i]);
            out.append(one.as_str());
        }
        i += 1;
    }
    proof {
        assert(text@.subrange(0, chars@.len() as int) =~= text@);
    }
    out
}

/// Folds every multigraph of the table, in the table's order, into its
/// stand-in.
pub fn multigraph_to_unigraph(s: &str, multigraphs: &Vec<String>) -> (out: String)
    requires
        within_capacity(spellings(multigraphs@)),
        all_compile(spellings(multigraphs@)),
    ensures
        out@ == encoded(s@, spellings(multigraphs@)),
{
    let ghost table = spellings(multigraphs@);
    let mut out = String::from_str(s);
    let mut i: usize = 0;
    while i < multigraphs.len()
        invariant
            i <= multigraphs@.len(),
            table == spellings(multigraphs@),
            within_capacity(table),
            all_compile(table),
            out@ == encoded_upto(s@, table, i as nat),
        decreases multigraphs@.len() - i,
    {
        assert(regex_compiles(table[i as int]));
        let unigraph = stand_in_text(i);
        out = replace_all(multigraphs[i].as_str(), out.as_str(), unigraph.as_str());
        i += 1;
    }
    out
}

/// Unfolds every stand-in, in the table's order, into its entry's spelling.
pub fn unigraph_to_multigraph(s: &str, multigraphs: &Vec<String>) -> (out: String)
    requires
        within_capacity(spellings(multigraphs@)),
    ensures
        out@ == decoded(s@, spellings(multigraphs@)),
{
    let ghost table = spellings(multigraphs@);
    let mut out = String::from_str(s);
    let mut i: usize = 0;
    while i < multigraphs.len()
        invariant
            i <= multigraphs@.len(),
            table == spellings(multigraphs@),
            within_capacity(table),
            out@ == decoded_upto(s@, table, i as nat),
        decreases multigraphs@.len() - i,
    {
        let c = stand_in_char(i);
        out = substitute(out.as_str(), c, multigraphs[i].as_str());
        i += 1;
    }
    out
}

/// Swapping a character that does not occur changes nothing.
pub proof fn lemma_substituted_absent(text: Seq<char>, c: char, with: Seq<char>)
    requires
        forall|k: int| 0 <= k < text.len() ==> text[k] != c,
    ensures
        substituted(text, c, with) == text,
    decreases text.len(),
{
    if text.len() > 0 {
        lemma_substituted_absent(text.drop_last(), c, with);
        assert(text.drop_last().push(text.last()) =~= text);
        assert(text.drop_last() + seq![text.last()] =~= text);
    }
}

/// Replacing the matches of a pattern that has none changes nothing.
pub proof fn lemma_all_replaced_none(text: Seq<char>, with: Seq<char>)
    ensures
        all_replaced(text, Seq::<(int, int)>::empty(), with) == text,
{
    assert(text.subrange(0, text.len() as int) =~= text);
    assert(Seq::<char>::empty() + text =~= text);
}

/// Decoding a text that holds no stand-in of the table gives the text back.
pub proof fn lemma_decoded_without_stand_ins(text: Seq<char>, table: Seq<Seq<char>>, n: nat)
    requires
        n <= table.len(),
        free_of_stand_ins(text, n as int),
    ensures
        decoded_upto(text, table, n) == text,
    decreases n,
{
    if n > 0 {
        lemma_decoded_without_stand_ins(text, table, (n - 1) as nat);
        lemma_substituted_absent(text, stand_in(n - 1), table[n - 1]);
    }
}

/// Encoding a text in which no entry of the table has a match gives the text
/// back.
pub proof fn lemma_encoded_without_multigraphs(text: Seq<char>, table: Seq<Seq<char>>, n: nat)
    requires
        n <= table.len(),
        free_of_multigraphs(text, table),
    ensures
        encoded_upto(text, table, n) == text,
    decreases n,
{
    if n > 0 {
        lemma_encoded_without_multigraphs(text, table, (n - 1) as nat);
        assert(regex_spans(table[n - 1], text).len() == 0);
        assert(regex_spans(table[n - 1], text) =~= Seq::<(int, int)>::empty());
        lemma_all_replaced_none(text, seq![stand_in(n - 1)]);
    }
}

/// Encoding and then decoding a token gives the token back, when no entry of
/// the table has a match in it and it holds none of the table's stand-ins.
pub proof fn round_trip_without_multigraphs(token: Seq<char>, table: Seq<Seq<char>>)
    requires
        free_of_multigraphs(token, table),
        free_of_stand_ins(token, table.len() as int),
    ensures
        decoded(encoded(token, table), table) == token,
{
    lemma_encoded_without_multigraphs(token, table, table.len());
    lemma_decoded_without_stand_ins(token, table, table.len());
}

} // verus!
