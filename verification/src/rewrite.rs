//! Applying one rule to a token.
//!
//! The target's matches are found from left to right. A match is replaced when
//! the rule's environment meets it on both sides and the exception does not;
//! every other character is copied.

use crate::pattern::{
    cut_at, gap_start, occurrences, regex_compiles, regex_spans, spliced, spliced_upto, Occurrence,
};
use crate::rule::{RuleView, SCRule};
use crate::text::spellings;
use vstd::prelude::*;
use vstd::string::*;

verus! {

/// Some match of `pattern` in `before` ends where `before` ends, or the
/// pattern is empty.
pub open spec fn meets_left(pattern: Seq<char>, before: Seq<char>) -> bool {
    pattern.len() == 0 || exists|j: int|
        0 <= j < regex_spans(pattern, before).len() && (#[trigger] regex_spans(
            pattern,
            before,
        )[j]).1 == before.len()
}

/// The first match of `pattern` in `after` starts where `after` starts, or the
/// pattern is empty.
pub open spec fn meets_right(pattern: Seq<char>, after: Seq<char>) -> bool {
    pattern.len() == 0 || (regex_spans(pattern, after).len() > 0 && regex_spans(
        pattern,
        after,
    )[0].0 == 0)
}

impl RuleView {
    /// The environment admits a match that stands between `before` and `after`.
    pub open spec fn qualifies(self, before: Seq<char>, after: Seq<char>) -> bool {
        meets_left(self.pos_left, before) && meets_right(self.pos_right, after)
    }

    /// The rule has an exception clause at all.
    pub open spec fn has_exception(self) -> bool {
        self.neg_left.len() > 0 || self.neg_right.len() > 0
    }

    /// The exception clause covers a match that stands between `before` and
    /// `after`.
    pub open spec fn exempts(self, before: Seq<char>, after: Seq<char>) -> bool {
        self.has_exception() && meets_left(self.neg_left, before) && meets_right(
            self.neg_right,
            after,
        )
    }

    /// A match that stands between `before` and `after` is replaced.
    pub open spec fn replaces(self, before: Seq<char>, after: Seq<char>) -> bool {
        self.qualifies(before, after) && !self.exempts(before, after)
    }

    /// What is written for the target's match at `span` of `token`.
    pub open spec fn fill(self, token: Seq<char>, span: (int, int)) -> Seq<char> {
        if self.replaces(token.subrange(0, span.0), token.subrange(span.1, token.len() as int)) {
            self.replacement
        } else {
            token.subrange(span.0, span.1)
        }
    }

    /// What is written for each of the target's matches in `token`.
    pub open spec fn fills(self, token: Seq<char>) -> Seq<Seq<char>> {
        Seq::new(
            regex_spans(self.target, token).len(),
            |i: int| self.fill(token, regex_spans(self.target, token)[i]),
        )
    }

    /// The token after the rule has been applied once.
    pub open spec fn rewritten(self, token: Seq<char>) -> Seq<char> {
        spliced(token, regex_spans(self.target, token), self.fills(token))
    }

    /// The first line of the rule's trace: the rule and the token it is
    /// applied to.
    pub open spec fn heading(self, token: Seq<char>) -> Seq<char> {
        "Evaluating "@ + self.shown() + " on \u{ab}"@ + token + "\u{bb}"@
    }

    /// The line of the trace for a match of the target that stands between
    /// `before` and `after`: the three pieces, and what became of the match.
    pub open spec fn verdict(self, before: Seq<char>, matched: Seq<char>, after: Seq<char>) -> Seq<
        char,
    > {
        "Test: "@ + before + "#"@ + matched + "#"@ + after + if self.replaces(before, after) {
            ": replaced"@
        } else if self.qualifies(before, after) {
            ": excepted"@
        } else {
            ": kept"@
        }
    }

    /// The trace of one application of the rule: the heading, then a line
    /// for each match of the target, from left to right.
    pub open spec fn trace(self, token: Seq<char>) -> Seq<Seq<char>> {
        seq![self.heading(token)] + Seq::new(
            regex_spans(self.target, token).len(),
            |i: int|
                self.verdict(
                    token.subrange(0, regex_spans(self.target, token)[i].0),
                    token.subrange(
                        regex_spans(self.target, token)[i].0,
                        regex_spans(self.target, token)[i].1,
                    ),
                    token.subrange(regex_spans(self.target, token)[i].1, token.len() as int),
                ),
        )
    }
}

/// An exception clause can only withhold a replacement. A match that the
/// environment admits and the exception covers is left as it is; the same
/// rule without the clause replaces it; and whatever the rule replaces, the
/// rule without the clause replaces too.
pub proof fn exception_only_suppresses(rule: RuleView, before: Seq<char>, after: Seq<char>)
    ensures
        rule.qualifies(before, after) && rule.exempts(before, after) ==> !rule.replaces(
            before,
            after,
        ),
        rule.qualifies(before, after) ==> rule.without_exception().replaces(before, after),
        rule.replaces(before, after) ==> rule.without_exception().replaces(before, after),
{
}

/// Over a whole token: the rule finds the matches that the rule without its
/// exception clause finds, and writes for each either what that rule writes
/// or the match itself.
pub proof fn exception_only_suppresses_in_token(rule: RuleView, token: Seq<char>, i: int)
    requires
        0 <= i < regex_spans(rule.target, token).len(),
    ensures
        regex_spans(rule.without_exception().target, token) == regex_spans(rule.target, token),
        rule.fills(token)[i] == rule.without_exception().fills(token)[i] || rule.fills(token)[i]
            == token.subrange(
            regex_spans(rule.target, token)[i].0,
            regex_spans(rule.target, token)[i].1,
        ),
{
    let span = regex_spans(rule.target, token)[i];
    exception_only_suppresses(
        rule,
        token.subrange(0, span.0),
        token.subrange(span.1, token.len() as int),
    );
}

/// The spans at which a list of occurrences stands in its text.
pub open spec fn spans_of(found: Seq<Occurrence>) -> Seq<(int, int)> {
    Seq::new(
        found.len(),
        |i: int|
            (
                found[i].before@.len() as int,
                (found[i].before@.len() + found[i].matched@.len()) as int,
            ),
    )
}

/// What `stitch` writes for each occurrence.
pub open spec fn picks(found: Seq<Occurrence>, choices: Seq<bool>, replacement: Seq<char>) -> Seq<
    Seq<char>,
> {
    Seq::new(
        found.len(),
        |i: int|
            if choices[i] {
                replacement
            } else {
                found[i].matched@
            },
    )
}

/// Whether some occurrence reaches the end of its text.
pub fn ends_flush(found: &Vec<Occurrence>) -> (yes: bool)
    ensures
        yes == exists|j: int| 0 <= j < found@.len() && (#[trigger] found@[j]).after@.len() == 0,
{
    let mut i: usize = 0;
    while i < found.len()
        invariant
            i <= found@.len(),
            forall|j: int| 0 <= j < i ==> (#[trigger] found@[j]).after@.len() != 0,
        decreases found@.len() - i,
    {
        if found[i].after.as_str().is_empty() {
            return true;
        }
        i += 1;
    }
    false
}

/// Whether the first occurrence stands at the start of its text.
pub fn starts_flush(found: &Vec<Occurrence>) -> (yes: bool)
    ensures
        yes == (found@.len() > 0 && found@[0].before@.len() == 0),
{
    found.len() > 0 && found[0].before.as_str().is_empty()
}

/// The pattern is empty, or one the engine accepts.
pub open spec fn empty_or_compiles(pattern: Seq<char>) -> bool {
    pattern.len() == 0 || regex_compiles(pattern)
}

/// Whether `pattern` meets the end of `before`.
pub fn adjoins_left(pattern: &str, before: &str) -> (yes: bool)
    requires
        empty_or_compiles(pattern@),
    ensures
        yes == meets_left(pattern@, before@),
{
    if pattern.is_empty() {
        return true;
    }
    let found = occurrences(pattern, before);
    let yes = ends_flush(&found);
    proof {
        let spans = regex_spans(pattern@, before@);
        if yes {
            let j = choose|j: int| 0 <= j < found@.len() && (#[trigger] found@[j]).after@.len() == 0;
            assert(found@[j].cuts(before@, spans[j]));
            assert(spans[j].1 == before@.len());
        } else {
            assert forall|j: int| 0 <= j < spans.len() implies (#[trigger] spans[j]).1
                != before@.len() by {
                assert(found@[j].cuts(before@, spans[j]));
            }
        }
    }
    yes
}

/// Whether `pattern` meets the start of `after`.
pub fn adjoins_right(pattern: &str, after: &str) -> (yes: bool)
    requires
        empty_or_compiles(pattern@),
    ensures
        yes == meets_right(pattern@, after@),
{
    if pattern.is_empty() {
        return true;
    }
    let found = occurrences(pattern, after);
    let yes = starts_flush(&found);
    proof {
        let spans = regex_spans(pattern@, after@);
        if found@.len() > 0 {
            assert(found@[0].cuts(after@, spans[0]));
        }
    }
    yes
}

/// Whether the rule replaces a match of its target that stands between
/// `before` and `after`.
pub fn applies(rule: &SCRule, before: &str, after: &str) -> (yes: bool)
    requires
        rule@.well_formed(),
    ensures
        yes == rule@.replaces(before@, after@),
{
    if !adjoins_left(rule.pos_env.0.as_str(), before) {
        return false;
    }
    if !adjoins_right(rule.pos_env.1.as_str(), after) {
        return false;
    }
    if rule.neg_env.0.as_str().is_empty() && rule.neg_env.1.as_str().is_empty() {
        return true;
    }
    !(adjoins_left(rule.neg_env.0.as_str(), before) && adjoins_right(
        rule.neg_env.1.as_str(),
        after,
    ))
}

/// Writes `token` out again, with each occurrence either kept or swapped for
/// `replacement` as `choices` says.
pub fn stitch(token: &str, found: &Vec<Occurrence>, choices: &Vec<bool>, replacement: &str) -> (out:
    String)
    requires
        cut_at(found@, token@, spans_of(found@)),
        choices@.len() == found@.len(),
    ensures
        out@ == spliced(token@, spans_of(found@), picks(found@, choices@, replacement@)),
{
    let ghost spans = spans_of(found@);
    let ghost fills = picks(found@, choices@, replacement@);
    let n = token.unicode_len();
    let mut out = String::new();
    let mut last: usize = 0;
    let mut i: usize = 0;
    while i < found.len()
        invariant
            i <= found@.len(),
            n == token@.len(),
            choices@.len() == found@.len(),
            spans == spans_of(found@),
            fills == picks(found@, choices@, replacement@),
            cut_at(found@, token@, spans),
            last == gap_start(spans, i as int),
            last <= token@.len(),
            out@ == spliced_upto(token@, spans, fills, i as nat),
        decreases found@.len() - i,
    {
        let o = &found[i];
        assert(o.cuts(token@, spans[i as int]));
        assert(i > 0 ==> spans[i - 1].1 <= spans[i as int].0);
        let start = o.before.as_str().unicode_len();
        let width = o.matched.as_str().unicode_len();
        out.append(token.substring_char(last, start));
        if choices[i] {
            out.append(replacement);
        } else {
            out.append(o.matched.as_str());
        }
        last = start + width;
        i += 1;
    }
    out.append(token.substring_char(last, n));
    out
}

/// Whether the rule's environment admits a match of its target that stands
/// between `before` and `after`.
pub fn admits(rule: &SCRule, before: &str, after: &str) -> (yes: bool)
    requires
        rule@.well_formed(),
    ensures
        yes == rule@.qualifies(before@, after@),
{
    adjoins_left(rule.pos_env.0.as_str(), before) && adjoins_right(rule.pos_env.1.as_str(), after)
}

/// The line of the trace for one occurrence of the rule's target.
pub fn verdict_line(rule: &SCRule, found: &Occurrence) -> (out: String)
    requires
        rule@.well_formed(),
    ensures
        out@ == rule@.verdict(found.before@, found.matched@, found.after@),
{
    let mut out = String::from_str("Test: ");
    out.append(found.before.as_str());
    out.append("#");
    out.append(found.matched.as_str());
    out.append("#");
    out.append(found.after.as_str());
    if applies(rule, found.before.as_str(), found.after.as_str()) {
        out.append(": replaced");
    } else if admits(rule, found.before.as_str(), found.after.as_str()) {
        out.append(": excepted");
    } else {
        out.append(": kept");
    }
    out
}

/// The trace of one application of `rule` to `token`.
pub fn sca_trace(token: &str, rule: &SCRule) -> (out: Vec<String>)
    requires
        rule@.well_formed(),
    ensures
        spellings(out@) == rule@.trace(token@),
{
    let found = occurrences(rule.target.as_str(), token);
    let ghost spans = regex_spans(rule@.target, token@);
    let mut heading = String::from_str("Evaluating ");
    let shown = rule.to_text();
    heading.append(shown.as_str());
    heading.append(" on \u{ab}");
    heading.append(token);
    heading.append("\u{bb}");
    let mut out: Vec<String> = Vec::new();
    out.push(heading);
    let mut i: usize = 0;
    while i < found.len()
        invariant
            i <= found@.len(),
            rule@.well_formed(),
            cut_at(found@, token@, spans),
            spans == regex_spans(rule@.target, token@),
            out@.len() == i + 1,
            out@[0]@ == rule@.heading(token@),
            forall|k: int|
                0 <= k < i ==> (#[trigger] out@[k + 1])@ == rule@.verdict(
                    token@.subrange(0, spans[k].0),
                    token@.subrange(spans[k].0, spans[k].1),
                    token@.subrange(spans[k].1, token@.len() as int),
                ),
        decreases found@.len() - i,
    {
        assert(found@[i as int].cuts(token@, spans[i as int]));
        let line = verdict_line(rule, &found[i]);
        out.push(line);
        i += 1;
    }
    proof {
        let lines = rule@.trace(token@);
        assert(lines.len() == spans.len() + 1);
        assert forall|k: int| 0 <= k < lines.len() implies spellings(out@)[k] == lines[k] by {
            if k > 0 {
                assert(out@[(k - 1) + 1]@ == lines[k]);
            }
        }
        assert(spellings(out@) =~= lines);
    }
    out
}

/// Applies `rule` to `token` once.
pub fn sca(token: &str, rule: &SCRule) -> (out: String)
    requires
        rule@.well_formed(),
    ensures
        out@ == rule@.rewritten(token@),
{
    let found = occurrences(rule.target.as_str(), token);
    let ghost spans = regex_spans(rule@.target, token@);
    assert(spans_of(found@) =~= spans) by {
        assert forall|i: int| 0 <= i < spans.len() implies spans_of(found@)[i] == spans[i] by {
            assert(found@[i].cuts(token@, spans[i]));
        }
    }
    let mut choices: Vec<bool> = Vec::new();
    let mut i: usize = 0;
    while i < found.len()
        invariant
            i <= found@.len(),
            rule@.well_formed(),
            cut_at(found@, token@, spans),
            choices@.len() == i,
            forall|k: int|
                0 <= k < i ==> choices@[k] == rule@.replaces(
                    token@.subrange(0, (#[trigger] spans[k]).0),
                    token@.subrange(spans[k].1, token@.len() as int),
                ),
        decreases found@.len() - i,
    {
        let o = &found[i];
        assert(o.cuts(token@, spans[i as int]));
        let yes = applies(rule, o.before.as_str(), o.after.as_str());
        choices.push(yes);
        i += 1;
    }
    assert(picks(found@, choices@, rule@.replacement) =~= rule@.fills(token@)) by {
        assert forall|k: int| 0 <= k < spans.len() implies picks(
            found@,
            choices@,
            rule@.replacement,
        )[k] == rule@.fills(token@)[k] by {
            assert(found@[k].cuts(token@, spans[k]));
        }
    }
    stitch(token, &found, &choices, rule.replacement.as_str())
}

} // verus!
