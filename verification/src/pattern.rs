//! The boundary to the regular-expression engine.
//!
//! Everything the rest of the crate knows about patterns comes from the three
//! functions at the end of this file. Their contracts are taken on trust; what
//! they claim is said above each.

use regex::NoExpand;
use regex::Regex;
use vstd::prelude::*;

verus! {

/// Whether the engine accepts `pattern`: `Regex::new` returns `Ok` on it.
pub uninterp spec fn regex_compiles(pattern: Seq<char>) -> bool;

/// The successive non-overlapping matches of `pattern` in `text`, as
/// `Regex::find_iter` yields them, each as a half-open span of character
/// positions in `text`.
pub uninterp spec fn regex_spans(pattern: Seq<char>, text: Seq<char>) -> Seq<(int, int)>;

/// One match together with the text on either side of it.
pub struct Occurrence {
    pub before: String,
    pub matched: String,
    pub after: String,
}

impl Occurrence {
    /// The three pieces are `text` cut at the two ends of `span`.
    pub open spec fn cuts(&self, text: Seq<char>, span: (int, int)) -> bool {
        &&& 0 <= span.0 <= span.1 <= text.len()
        &&& self.before@ == text.subrange(0, span.0)
        &&& self.matched@ == text.subrange(span.0, span.1)
        &&& self.after@ == text.subrange(span.1, text.len() as int)
    }
}

/// Each span lies inside a text of length `len`, and a later span starts no
/// earlier than an earlier one ends.
pub open spec fn spans_in_order(spans: Seq<(int, int)>, len: int) -> bool {
    &&& forall|i: int| 0 <= i < spans.len() ==> 0 <= (#[trigger] spans[i]).0 <= spans[i].1 <= len
    &&& forall|i: int, j: int|
        0 <= i < j < spans.len() ==> (#[trigger] spans[i]).1 <= (#[trigger] spans[j]).0
}

/// `found` is `text` cut at each of `spans` in turn.
pub open spec fn cut_at(found: Seq<Occurrence>, text: Seq<char>, spans: Seq<(int, int)>) -> bool {
    &&& found.len() == spans.len()
    &&& spans_in_order(spans, text.len() as int)
    &&& forall|i: int| 0 <= i < found.len() ==> (#[trigger] found[i]).cuts(text, spans[i])
}

/// Where the text between spans `n - 1` and `n` begins.
pub open spec fn gap_start(spans: Seq<(int, int)>, n: int) -> int {
    if n <= 0 {
        0
    } else {
        spans[n - 1].1
    }
}

/// `text` up to the end of span `n - 1`, with span `i` swapped for `fills[i]`.
pub open spec fn spliced_upto(
    text: Seq<char>,
    spans: Seq<(int, int)>,
    fills: Seq<Seq<char>>,
    n: nat,
) -> Seq<char>
    decreases n,
{
    if n == 0 {
        Seq::empty()
    } else {
        spliced_upto(text, spans, fills, (n - 1) as nat) + text.subrange(
            gap_start(spans, n - 1),
            spans[n - 1].0,
        ) + fills[n - 1]
    }
}

/// `text` with span `i` swapped for `fills[i]`, and all else kept.
pub open spec fn spliced(text: Seq<char>, spans: Seq<(int, int)>, fills: Seq<Seq<char>>) -> Seq<
    char,
> {
    spliced_upto(text, spans, fills, spans.len()) + text.subrange(
        gap_start(spans, spans.len() as int),
        text.len() as int,
    )
}

/// `text` with every span swapped for the same `with`.
pub open spec fn all_replaced(text: Seq<char>, spans: Seq<(int, int)>, with: Seq<char>) -> Seq<
    char,
> {
    spliced(text, spans, Seq::new(spans.len(), |i: int| with))
}

/// Calls `Regex::new` and reports whether it returned `Ok`.
///
/// Trusted: the answer depends on the pattern alone, which is what gives
/// `regex_compiles` its meaning.
#[verifier::external_body]
pub(crate) fn compiles(pattern: &str) -> (ok: bool)
    ensures
        ok == regex_compiles(pattern@),
{
    Regex::new(pattern).is_ok()
}

/// Calls `Regex::find_iter` and hands out each match with the text before and
/// after it.
///
/// Trusted: the matches depend on the pattern and the text alone; every match
/// lies inside the text and starts and ends between characters; and the
/// iterator yields them from left to right without overlap.
#[verifier::external_body]
pub(crate) fn occurrences(pattern: &str, text: &str) -> (found: Vec<Occurrence>)
    requires
        regex_compiles(pattern@),
    ensures
        cut_at(found@, text@, regex_spans(pattern@, text@)),
{
    let re = Regex::new(pattern).unwrap();
    re.find_iter(text).map(
        |m|
            Occurrence {
                before: text[..m.start()].to_string(),
                matched: m.as_str().to_string(),
                after: text[m.end()..].to_string(),
            },
    ).collect()
}

/// Calls `Regex::replace_all` with a replacement that is taken literally
/// (`NoExpand`).
///
/// Trusted: the result is the text with each match that `Regex::find_iter`
/// yields swapped for the replacement, and the rest copied.
#[verifier::external_body]
pub(crate) fn replace_all(pattern: &str, text: &str, with: &str) -> (out: String)
    requires
        regex_compiles(pattern@),
    ensures
        out@ == all_replaced(text@, regex_spans(pattern@, text@), with@),
{
    let re = Regex::new(pattern).unwrap();
    re.replace_all(text, NoExpand(with)).into_owned()
}

} // verus!
