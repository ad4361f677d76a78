//! Sound-change rules: a target, what replaces it, and the environments in
//! which it does or does not.

use crate::category::{category_views, expand, expanded, Category, CategoryView};
use crate::codec::{all_compile, encoded, multigraph_to_unigraph, within_capacity};
use crate::pattern::{compiles, regex_compiles};
use crate::text::{pieces, spellings, split};
use vstd::prelude::*;
use vstd::string::*;

verus! {

/// A sound change. `target` and the four environment sides are patterns;
/// `replacement` is literal text. An empty environment side places no
/// constraint.
pub struct SCRule {
    pub target: String,
    pub replacement: String,
    pub pos_env: (String, String),
    pub neg_env: (String, String),
}

/// A rule as plain text values.
pub struct RuleView {
    pub target: Seq<char>,
    pub replacement: Seq<char>,
    pub pos_left: Seq<char>,
    pub pos_right: Seq<char>,
    pub neg_left: Seq<char>,
    pub neg_right: Seq<char>,
}

impl View for SCRule {
    type V = RuleView;

    open spec fn view(&self) -> RuleView {
        RuleView {
            target: self.target@,
            replacement: self.replacement@,
            pos_left: self.pos_env.0@,
            pos_right: self.pos_env.1@,
            neg_left: self.neg_env.0@,
            neg_right: self.neg_env.1@,
        }
    }
}

impl RuleView {
    /// Every pattern of the rule is one the engine accepts.
    pub open spec fn well_formed(self) -> bool {
        &&& regex_compiles(self.target)
        &&& regex_compiles(self.pos_left)
        &&& regex_compiles(self.pos_right)
        &&& regex_compiles(self.neg_left)
        &&& regex_compiles(self.neg_right)
    }

    /// The same rule with no exception clause.
    pub open spec fn without_exception(self) -> RuleView {
        RuleView { neg_left: Seq::empty(), neg_right: Seq::empty(), ..self }
    }

    /// The rule with its categories written out and its multigraphs folded.
    /// An identifier is looked for only in what the rule's text holds, not in
    /// what was written out for a category. The replacement is literal text:
    /// its multigraphs are folded, and nothing else is done to it.
    pub open spec fn resolved(self, cats: Seq<CategoryView>, table: Seq<Seq<char>>) -> RuleView {
        RuleView {
            target: encoded(expanded(self.target, cats), table),
            replacement: encoded(self.replacement, table),
            pos_left: encoded(expanded(self.pos_left, cats), table),
            pos_right: encoded(expanded(self.pos_right, cats), table),
            neg_left: encoded(expanded(self.neg_left, cats), table),
            neg_right: encoded(expanded(self.neg_right, cats), table),
        }
    }

    /// The rule written out for a reader.
    pub open spec fn shown(self) -> Seq<char> {
        "`"@ + self.target + "` \u{2192} `"@ + self.replacement + "` / "@ + self.pos_left + "_"@
            + self.pos_right + if self.neg_left.len() == 0 && self.neg_right.len() == 0 {
            Seq::<char>::empty()
        } else {
            " /! "@ + self.neg_left + "_"@ + self.neg_right
        }
    }
}

/// The two sides of an exception clause, where the rule's text holds one with
/// exactly one `_`; two empty sides where it holds none.
pub open spec fn parsed_exception(segments: Seq<Seq<char>>) -> Option<(Seq<char>, Seq<char>)> {
    if segments.len() < 3 {
        Some((Seq::empty(), Seq::empty()))
    } else {
        let sides = pieces(segments[2], seq!['_']);
        if sides.len() == 2 {
            Some((sides[0], sides[1]))
        } else {
            None
        }
    }
}

/// The rule that `text` spells, `TARGET->REPLACEMENT/LEFT_RIGHT` with an
/// optional `/NEGLEFT_NEGRIGHT` behind it; `None` where the text has no `/`,
/// no `->` before it, or no `_` behind it, or where the exception clause does
/// not have exactly one `_`. What follows a second `->` or `_`, or a third
/// `/`, is not read.
pub open spec fn parsed(text: Seq<char>) -> Option<RuleView> {
    let segments = pieces(text, seq!['/']);
    if segments.len() < 2 {
        None
    } else {
        let change = pieces(segments[0], seq!['-', '>']);
        let sides = pieces(segments[1], seq!['_']);
        match parsed_exception(segments) {
            Some((neg_left, neg_right)) if change.len() >= 2 && sides.len() >= 2 => Some(
                RuleView {
                    target: change[0],
                    replacement: change[1],
                    pos_left: sides[0],
                    pos_right: sides[1],
                    neg_left,
                    neg_right,
                },
            ),
            _ => None,
        }
    }
}

impl SCRule {
    /// Reads a rule from its text, without looking into its patterns.
    pub fn parse(text: &str) -> (out: Option<SCRule>)
        ensures
            match out {
                Some(rule) => parsed(text@) == Some(rule@),
                None => parsed(text@) is None,
            },
    {
        proof {
            reveal_strlit("/");
            reveal_strlit("->");
            reveal_strlit("_");
            assert("/"@ =~= seq!['/']);
            assert("->"@ =~= seq!['-', '>']);
            assert("_"@ =~= seq!['_']);
        }
        let segments = split(text, "/");
        if segments.len() < 2 {
            return None;
        }
        let change = split(segments[0].as_str(), "->");
        let sides = split(segments[1].as_str(), "_");
        if change.len() < 2 || sides.len() < 2 {
            return None;
        }
        let mut neg_env = (String::new(), String::new());
        if segments.len() >= 3 {
            let exception = split(segments[2].as_str(), "_");
            if exception.len() != 2 {
                return None;
            }
            neg_env = (exception[0].clone(), exception[1].clone());
        }
        Some(
            SCRule {
                target: change[0].clone(),
                replacement: change[1].clone(),
                pos_env: (sides[0].clone(), sides[1].clone()),
                neg_env,
            },
        )
    }

    /// Whether the engine accepts every pattern of the rule.
    pub fn is_well_formed(&self) -> (ok: bool)
        ensures
            ok == self@.well_formed(),
    {
        compiles(self.target.as_str()) && compiles(self.pos_env.0.as_str()) && compiles(
            self.pos_env.1.as_str(),
        ) && compiles(self.neg_env.0.as_str()) && compiles(self.neg_env.1.as_str())
    }

    /// The rule written out for a reader: target, replacement and
    /// environment, and the exception clause where there is one.
    pub fn to_text(&self) -> (out: String)
        ensures
            out@ == self@.shown(),
    {
        let mut out = String::from_str("`");
        out.append(self.target.as_str());
        out.append("` \u{2192} `");
        out.append(self.replacement.as_str());
        out.append("` / ");
        out.append(self.pos_env.0.as_str());
        out.append("_");
        out.append(self.pos_env.1.as_str());
        if !(self.neg_env.0.as_str().is_empty() && self.neg_env.1.as_str().is_empty()) {
            out.append(" /! ");
            out.append(self.neg_env.0.as_str());
            out.append("_");
            out.append(self.neg_env.1.as_str());
        } else {
            assert(out@ + Seq::<char>::empty() =~= out@);
        }
        out
    }
}

/// Writes out the categories in every pattern of the rule, then folds the
/// multigraphs in every pattern and in the replacement.
pub fn from_cats(rule: SCRule, cats: &Vec<Category>, multigraphs: &Vec<String>) -> (out: SCRule)
    requires
        within_capacity(spellings(multigraphs@)),
        all_compile(spellings(multigraphs@)),
    ensures
        out@ == rule@.resolved(category_views(cats@), spellings(multigraphs@)),
{
    let target = expand(rule.target.as_str(), cats);
    let pos_left = expand(rule.pos_env.0.as_str(), cats);
    let pos_right = expand(rule.pos_env.1.as_str(), cats);
    let neg_left = expand(rule.neg_env.0.as_str(), cats);
    let neg_right = expand(rule.neg_env.1.as_str(), cats);
    SCRule {
        target: multigraph_to_unigraph(target.as_str(), multigraphs),
        replacement: multigraph_to_unigraph(rule.replacement.as_str(), multigraphs),
        pos_env: (
            multigraph_to_unigraph(pos_left.as_str(), multigraphs),
            multigraph_to_unigraph(pos_right.as_str(), multigraphs),
        ),
        neg_env: (
            multigraph_to_unigraph(neg_left.as_str(), multigraphs),
            multigraph_to_unigraph(neg_right.as_str(), multigraphs),
        ),
    }
}

} // verus!
