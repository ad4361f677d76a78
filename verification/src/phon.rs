//! The cascade: a list of rules applied to a token one after another, each to
//! what the one before it left.

use crate::category::{category_views, Category, CategoryView};
use crate::codec::{
    all_compile, decoded, encoded, free_of_stand_ins, lemma_decoded_without_stand_ins,
    multigraph_to_unigraph, unigraph_to_multigraph, within_capacity, CAPACITY,
};
use crate::error::{ErrorView, GlossError};
use crate::pattern::{compiles, regex_compiles};
use crate::rewrite::{sca, sca_trace};
use crate::rule::{from_cats, parsed, RuleView, SCRule};
use crate::text::spellings;
use vstd::prelude::*;
use vstd::string::*;

verus! {

/// A list of rules as plain text values.
pub open spec fn rule_views(rules: Seq<SCRule>) -> Seq<RuleView> {
    Seq::new(rules.len(), |i: int| rules[i]@)
}

/// Every rule of the list is well formed.
pub open spec fn all_well_formed(rules: Seq<RuleView>) -> bool {
    forall|i: int| 0 <= i < rules.len() ==> (#[trigger] rules[i]).well_formed()
}

/// The token after the first `n` rules: before each rule the multigraphs of
/// the table are folded, then the rule is applied.
pub open spec fn cascaded_upto(
    token: Seq<char>,
    rules: Seq<RuleView>,
    table: Seq<Seq<char>>,
    n: nat,
) -> Seq<char>
    decreases n,
{
    if n == 0 {
        token
    } else {
        rules[n - 1].rewritten(encoded(cascaded_upto(token, rules, table, (n - 1) as nat), table))
    }
}

/// The token after every rule, with the multigraphs unfolded again.
pub open spec fn cascaded(token: Seq<char>, rules: Seq<RuleView>, table: Seq<Seq<char>>) -> Seq<
    char,
> {
    decoded(cascaded_upto(token, rules, table, rules.len()), table)
}

/// The trace of the first `n` rules: the trace of each rule in turn, on the
/// token as that rule finds it.
pub open spec fn cascade_trace_upto(
    token: Seq<char>,
    rules: Seq<RuleView>,
    table: Seq<Seq<char>>,
    n: nat,
) -> Seq<Seq<char>>
    decreases n,
{
    if n == 0 {
        Seq::empty()
    } else {
        cascade_trace_upto(token, rules, table, (n - 1) as nat) + rules[n - 1].trace(
            encoded(cascaded_upto(token, rules, table, (n - 1) as nat), table),
        )
    }
}

/// The trace of the whole cascade.
pub open spec fn cascade_trace(token: Seq<char>, rules: Seq<RuleView>, table: Seq<Seq<char>>) -> Seq<
    Seq<char>,
> {
    cascade_trace_upto(token, rules, table, rules.len())
}

/// The rule that `text` spells, made ready for use; `None` where the text is
/// no rule, or one of its patterns is not accepted as written or as resolved.
pub open spec fn compiled(text: Seq<char>, cats: Seq<CategoryView>, table: Seq<Seq<char>>) -> Option<
    RuleView,
> {
    match parsed(text) {
        Some(raw) if raw.well_formed() && raw.resolved(cats, table).well_formed() => Some(
            raw.resolved(cats, table),
        ),
        _ => None,
    }
}

/// The first position from `from` on whose text the engine does not accept as
/// a pattern, or the list's length where it accepts them all.
pub open spec fn first_rejected(list: Seq<Seq<char>>, from: int) -> int
    decreases list.len() - from,
{
    if from < 0 || from >= list.len() {
        list.len() as int
    } else if !regex_compiles(list[from]) {
        from
    } else {
        first_rejected(list, from + 1)
    }
}

/// The first position from `from` on whose text is no usable rule, or the
/// list's length where all are.
pub open spec fn first_unusable(
    sc: Seq<Seq<char>>,
    cats: Seq<CategoryView>,
    table: Seq<Seq<char>>,
    from: int,
) -> int
    decreases sc.len() - from,
{
    if from < 0 || from >= sc.len() {
        sc.len() as int
    } else if compiled(sc[from], cats, table) is None {
        from
    } else {
        first_unusable(sc, cats, table, from + 1)
    }
}

/// Every rule text of the list, made ready for use.
pub open spec fn all_compiled(sc: Seq<Seq<char>>, cats: Seq<CategoryView>, table: Seq<Seq<char>>) -> Seq<
    RuleView,
> {
    Seq::new(sc.len(), |i: int| compiled(sc[i], cats, table)->0)
}

/// What a glossing pass gives for `token`. Nothing is rewritten unless the
/// whole description is usable: the table must fit the private-use block,
/// every multigraph must be an accepted pattern, and every rule must be
/// usable. The first fault, in that order and then in the order of the lists,
/// is the error.
pub open spec fn glossed(
    token: Seq<char>,
    sc: Seq<Seq<char>>,
    cats: Seq<CategoryView>,
    table: Seq<Seq<char>>,
) -> Result<Seq<char>, ErrorView> {
    if table.len() > CAPACITY {
        Err(ErrorView::MultigraphCapacity(table.len()))
    } else if first_rejected(table, 0) < table.len() {
        Err(ErrorView::Schema(table[first_rejected(table, 0)]))
    } else if first_unusable(sc, cats, table, 0) < sc.len() {
        Err(ErrorView::RuleSyntax(sc[first_unusable(sc, cats, table, 0)]))
    } else {
        Ok(cascaded(token, all_compiled(sc, cats, table), table))
    }
}

/// The trace that a glossing pass gives for `token`: that of the cascade
/// where a trace is asked for and the description is usable, else none.
pub open spec fn gloss_trace(
    token: Seq<char>,
    sc: Seq<Seq<char>>,
    cats: Seq<CategoryView>,
    table: Seq<Seq<char>>,
    verbose: bool,
) -> Seq<Seq<char>> {
    if verbose && glossed(token, sc, cats, table) is Ok {
        cascade_trace(token, all_compiled(sc, cats, table), table)
    } else {
        Seq::empty()
    }
}

/// A rewritten token with the trace of how it came about; the trace is empty
/// where none was asked for.
pub struct Traced {
    pub text: String,
    pub trace: Vec<String>,
}

/// The trace of applying the rules to the token in order: for each rule a
/// heading, then a line for each match of its target.
pub fn run_trace(token: &str, rules: &Vec<SCRule>, multigraphs: &Vec<String>) -> (out: Vec<String>)
    requires
        all_well_formed(rule_views(rules@)),
        within_capacity(spellings(multigraphs@)),
        all_compile(spellings(multigraphs@)),
    ensures
        spellings(out@) == cascade_trace(token@, rule_views(rules@), spellings(multigraphs@)),
{
    let ghost views = rule_views(rules@);
    let ghost table = spellings(multigraphs@);
    let mut out: Vec<String> = Vec::new();
    let mut s = String::from_str(token);
    let mut i: usize = 0;
    proof {
        assert(spellings(out@) =~= cascade_trace_upto(token@, views, table, 0));
    }
    while i < rules.len()
        invariant
            i <= rules@.len(),
            views == rule_views(rules@),
            table == spellings(multigraphs@),
            all_well_formed(views),
            within_capacity(table),
            all_compile(table),
            s@ == cascaded_upto(token@, views, table, i as nat),
            spellings(out@) == cascade_trace_upto(token@, views, table, i as nat),
        decreases rules@.len() - i,
    {
        assert(views[i as int].well_formed());
        let folded = multigraph_to_unigraph(s.as_str(), multigraphs);
        let mut lines = sca_trace(folded.as_str(), &rules[i]);
        let ghost before = spellings(out@);
        let ghost added = spellings(lines@);
        out.append(&mut lines);
        proof {
            assert(spellings(out@) =~= before + added);
        }
        s = sca(folded.as_str(), &rules[i]);
        i += 1;
    }
    out
}

/// Applies the rules to the token in order and unfolds the multigraphs of
/// the result.
pub fn run(token: &str, rules: &Vec<SCRule>, multigraphs: &Vec<String>) -> (out: String)
    requires
        all_well_formed(rule_views(rules@)),
        within_capacity(spellings(multigraphs@)),
        all_compile(spellings(multigraphs@)),
    ensures
        out@ == cascaded(token@, rule_views(rules@), spellings(multigraphs@)),
{
    let ghost views = rule_views(rules@);
    let ghost table = spellings(multigraphs@);
    let mut s = String::from_str(token);
    let mut i: usize = 0;
    while i < rules.len()
        invariant
            i <= rules@.len(),
            views == rule_views(rules@),
            table == spellings(multigraphs@),
            all_well_formed(views),
            within_capacity(table),
            all_compile(table),
            s@ == cascaded_upto(token@, views, table, i as nat),
        decreases rules@.len() - i,
    {
        assert(views[i as int].well_formed());
        let folded = multigraph_to_unigraph(s.as_str(), multigraphs);
        s = sca(folded.as_str(), &rules[i]);
        i += 1;
    }
    unigraph_to_multigraph(s.as_str(), multigraphs)
}

/// Reads a rule from its text and makes it ready for use.
pub fn compile(text: &str, cats: &Vec<Category>, multigraphs: &Vec<String>) -> (out: Option<SCRule>)
    requires
        within_capacity(spellings(multigraphs@)),
        all_compile(spellings(multigraphs@)),
    ensures
        match out {
            Some(rule) => compiled(text@, category_views(cats@), spellings(multigraphs@)) == Some(
                rule@,
            ),
            None => compiled(text@, category_views(cats@), spellings(multigraphs@)) is None,
        },
{
    match SCRule::parse(text) {
        None => None,
        Some(raw) => {
            if !raw.is_well_formed() {
                return None;
            }
            let rule = from_cats(raw, cats, multigraphs);
            if rule.is_well_formed() {
                Some(rule)
            } else {
                None
            }
        },
    }
}

/// The first text of the list that the engine does not accept as a pattern.
pub fn find_rejected(list: &Vec<String>) -> (found: Option<usize>)
    ensures
        match found {
            Some(at) => at < list@.len() && at == first_rejected(spellings(list@), 0),
            None => first_rejected(spellings(list@), 0) == list@.len() && all_compile(
                spellings(list@),
            ),
        },
{
    let ghost texts = spellings(list@);
    let mut i: usize = 0;
    while i < list.len()
        invariant
            i <= list@.len(),
            texts == spellings(list@),
            first_rejected(texts, 0) == first_rejected(texts, i as int),
            forall|j: int| 0 <= j < i ==> regex_compiles(#[trigger] texts[j]),
        decreases list@.len() - i,
    {
        if !compiles(list[i].as_str()) {
            return Some(i);
        }
        i += 1;
    }
    None
}

/// Carries `token` through the sound changes `sc`, given the categories and
/// multigraphs that the rules refer to. `verbose` asks for a trace of the
/// pass, which comes back with the text for the caller to print; the text is
/// the same with and without it.
pub fn to_orthography(
    token: String,
    sc: &Vec<String>,
    cats: &Vec<Category>,
    multigraphs: &Vec<String>,
    verbose: bool,
) -> (out: Result<Traced, GlossError>)
    ensures
        match out {
            Ok(traced) => {
                &&& glossed(
                    token@,
                    spellings(sc@),
                    category_views(cats@),
                    spellings(multigraphs@),
                ) == Ok::<Seq<char>, ErrorView>(traced.text@)
                &&& spellings(traced.trace@) == gloss_trace(
                    token@,
                    spellings(sc@),
                    category_views(cats@),
                    spellings(multigraphs@),
                    verbose,
                )
            },
            Err(e) => glossed(
                token@,
                spellings(sc@),
                category_views(cats@),
                spellings(multigraphs@),
            ) == Err::<Seq<char>, ErrorView>(e@),
        },
{
    let ghost texts = spellings(sc@);
    let ghost views = category_views(cats@);
    let ghost table = spellings(multigraphs@);
    if multigraphs.len() > CAPACITY {
        return Err(GlossError::MultigraphCapacity(multigraphs.len()));
    }
    match find_rejected(multigraphs) {
        Some(at) => {
            return Err(GlossError::Schema(multigraphs[at].clone()));
        },
        None => {},
    }
    let mut rules: Vec<SCRule> = Vec::new();
    let mut i: usize = 0;
    while i < sc.len()
        invariant
            i <= sc@.len(),
            texts == spellings(sc@),
            views == category_views(cats@),
            table == spellings(multigraphs@),
            within_capacity(table),
            all_compile(table),
            first_rejected(table, 0) == table.len(),
            first_unusable(texts, views, table, 0) == first_unusable(texts, views, table, i as int),
            rules@.len() == i,
            forall|j: int|
                0 <= j < i ==> compiled(texts[j], views, table) == Some((#[trigger] rules@[j])@),
        decreases sc@.len() - i,
    {
        match compile(sc[i].as_str(), cats, multigraphs) {
            None => {
                proof {
                    assert(texts[i as int] == sc@[i as int]@);
                    assert(first_unusable(texts, views, table, i as int) == i);
                }
                return Err(GlossError::RuleSyntax(sc[i].clone()));
            },
            Some(rule) => {
                proof {
                    assert(texts[i as int] == sc@[i as int]@);
                }
                rules.push(rule);
            },
        }
        i += 1;
    }
    proof {
        assert(rule_views(rules@) =~= all_compiled(texts, views, table));
    }
    let trace = if verbose {
        run_trace(token.as_str(), &rules, multigraphs)
    } else {
        Vec::new()
    };
    proof {
        if !verbose {
            assert(spellings(trace@) =~= Seq::<Seq<char>>::empty());
        }
    }
    Ok(Traced { text: run(token.as_str(), &rules, multigraphs), trace })
}

/// The first `n` rules do to a token what they do as part of any longer list.
pub proof fn lemma_cascaded_prefix(
    token: Seq<char>,
    rules: Seq<RuleView>,
    more: Seq<RuleView>,
    table: Seq<Seq<char>>,
    n: nat,
)
    requires
        n <= rules.len(),
    ensures
        cascaded_upto(token, rules + more, table, n) == cascaded_upto(token, rules, table, n),
    decreases n,
{
    if n > 0 {
        lemma_cascaded_prefix(token, rules, more, table, (n - 1) as nat);
        assert((rules + more)[n - 1] == rules[n - 1]);
    }
}

/// Order is significant: a rule added at the end of a list is applied to what
/// the rules before it have made of the token, with the multigraphs folded
/// once more, and to nothing else.
pub proof fn later_rule_sees_earlier_output(
    token: Seq<char>,
    rules: Seq<RuleView>,
    last: RuleView,
    table: Seq<Seq<char>>,
)
    ensures
        cascaded(token, rules.push(last), table) == decoded(
            last.rewritten(encoded(cascaded_upto(token, rules, table, rules.len()), table)),
            table,
        ),
{
    assert(rules.push(last) =~= rules + seq![last]);
    lemma_cascaded_prefix(token, rules, seq![last], table, rules.len());
}

/// A cascade without rules gives every token back that holds none of the
/// table's stand-ins.
pub proof fn empty_rule_set_is_identity(token: Seq<char>, table: Seq<Seq<char>>)
    requires
        free_of_stand_ins(token, table.len() as int),
    ensures
        cascaded(token, Seq::<RuleView>::empty(), table) == token,
{
    lemma_decoded_without_stand_ins(token, table, table.len());
}

/// A glossing pass without rules gives the token back, when the description
/// is usable and the token holds none of the table's stand-ins.
pub proof fn gloss_without_rules_is_identity(
    token: Seq<char>,
    cats: Seq<CategoryView>,
    table: Seq<Seq<char>>,
)
    requires
        within_capacity(table),
        first_rejected(table, 0) == table.len(),
        free_of_stand_ins(token, table.len() as int),
    ensures
        glossed(token, Seq::<Seq<char>>::empty(), cats, table) == Ok::<Seq<char>, ErrorView>(token),
{
    empty_rule_set_is_identity(token, table);
    assert(all_compiled(Seq::<Seq<char>>::empty(), cats, table) =~= Seq::<RuleView>::empty());
}

} // verus!
