use glosser::phon::{compile, run, run_trace, to_orthography};
use glosser::category::Category;
use glosser::error::GlossError;
use glosser::rewrite::{
    adjoins_left, adjoins_right, admits, applies, ends_flush, sca, sca_trace, starts_flush, stitch,
    verdict_line,
};
use glosser::pattern::Occurrence;
use glosser::rule::{from_cats, SCRule};

fn texts(items: &[&str]) -> Vec<String> {
    items.iter().map(|s| s.to_string()).collect()
}

fn rule(target: &str, replacement: &str, pos: (&str, &str), neg: (&str, &str)) -> SCRule {
    SCRule {
        target: target.to_string(),
        replacement: replacement.to_string(),
        pos_env: (pos.0.to_string(), pos.1.to_string()),
        neg_env: (neg.0.to_string(), neg.1.to_string()),
    }
}

fn occurrence(before: &str, matched: &str, after: &str) -> Occurrence {
    Occurrence {
        before: before.to_string(),
        matched: matched.to_string(),
        after: after.to_string(),
    }
}

fn gloss(token: &str, sc: &[&str], cats: Vec<Category>, multigraphs: &[&str]) -> Result<String, GlossError> {
    to_orthography(token.to_string(), &texts(sc), &cats, &texts(multigraphs), false).map(|t| t.text)
}

#[test]
fn empty_rule_set_gives_the_token_back() {
    assert_eq!(gloss("banana", &[], vec![], &[]), Ok("banana".to_string()));
    assert_eq!(gloss("", &[], vec![], &[]), Ok(String::new()));
    assert_eq!(gloss("tsatsa", &[], vec![], &["ts"]), Ok("tsatsa".to_string()));
}

#[test]
fn empty_rule_set_unfolds_a_stand_in_already_in_the_token() {
    assert_eq!(gloss("a\u{E000}", &[], vec![], &["ts"]), Ok("ats".to_string()));
}

#[test]
fn unconstrained_rule_replaces_everywhere() {
    assert_eq!(gloss("banana", &["a->o/_"], vec![], &[]), Ok("bonono".to_string()));
}

#[test]
fn anchored_environment_replaces_only_between_its_sides() {
    assert_eq!(gloss("akat", &["a->e/k_t"], vec![], &[]), Ok("aket".to_string()));
}

#[test]
fn left_environment_must_touch_the_match() {
    assert_eq!(gloss("kxat", &["a->e/k_"], vec![], &[]), Ok("kxat".to_string()));
    assert_eq!(gloss("kat", &["a->e/k_"], vec![], &[]), Ok("ket".to_string()));
}

#[test]
fn right_environment_must_touch_the_match() {
    assert_eq!(gloss("axt", &["a->e/_t"], vec![], &[]), Ok("axt".to_string()));
    assert_eq!(gloss("at", &["a->e/_t"], vec![], &[]), Ok("et".to_string()));
}

#[test]
fn exception_clause_withholds_the_replacement() {
    assert_eq!(gloss("akat", &["a->e/k_t/ak_"], vec![], &[]), Ok("akat".to_string()));
    assert_eq!(gloss("akat", &["a->e/k_t"], vec![], &[]), Ok("aket".to_string()));
}

#[test]
fn exception_clause_that_does_not_touch_changes_nothing() {
    assert_eq!(gloss("akat", &["a->e/k_t/x_"], vec![], &[]), Ok("aket".to_string()));
    assert_eq!(gloss("akat", &["a->e/k_t/_x"], vec![], &[]), Ok("aket".to_string()));
}

#[test]
fn exception_clause_needs_both_of_its_sides() {
    assert_eq!(gloss("akat", &["a->e/_/k_t"], vec![], &[]), Ok("ekat".to_string()));
    assert_eq!(gloss("akat", &["a->e/_/k_x"], vec![], &[]), Ok("eket".to_string()));
    assert_eq!(gloss("akat", &["a->e/_/x_t"], vec![], &[]), Ok("eket".to_string()));
    assert_eq!(gloss("akat", &["a->e/_/_t"], vec![], &[]), Ok("ekat".to_string()));
    assert_eq!(gloss("akat", &["a->e/_/k_"], vec![], &[]), Ok("ekat".to_string()));
}

#[test]
fn category_prefers_its_longest_member() {
    let declared = vec![Category { id: "@C".to_string(), seqs: texts(&["kh", "k"]) }];
    assert_eq!(gloss("kha", &["@C->x/_"], declared, &[]), Ok("xa".to_string()));
    let reversed = vec![Category { id: "@C".to_string(), seqs: texts(&["k", "kh"]) }];
    assert_eq!(gloss("kha", &["@C->x/_"], reversed, &[]), Ok("xa".to_string()));
}

#[test]
fn category_in_an_environment() {
    let cats = vec![Category { id: "@V".to_string(), seqs: texts(&["a", "e", "i"]) }];
    assert_eq!(gloss("atata", &["t->d/@V_@V"], cats, &[]), Ok("adada".to_string()));
}

#[test]
fn multigraph_is_one_unit() {
    assert_eq!(gloss("tsat", &["[stp]->x/_"], vec![], &["ts"]), Ok("tsax".to_string()));
    assert_eq!(gloss("tsat", &["[stp]->x/_"], vec![], &[]), Ok("xxax".to_string()));
}

#[test]
fn multigraph_in_rule_text_is_folded_too() {
    assert_eq!(gloss("tsatsa", &["ts->ch/_"], vec![], &["ts", "ch"]), Ok("chacha".to_string()));
}

#[test]
fn earlier_multigraph_takes_precedence() {
    assert_eq!(gloss("tsh", &["sh->x/_"], vec![], &["ts", "sh"]), Ok("tsh".to_string()));
    assert_eq!(gloss("tsh", &["sh->x/_"], vec![], &["sh", "ts"]), Ok("tx".to_string()));
}

#[test]
fn rule_order_matters() {
    assert_eq!(gloss("a", &["a->b/_", "b->c/_"], vec![], &[]), Ok("c".to_string()));
    assert_eq!(gloss("a", &["b->c/_", "a->b/_"], vec![], &[]), Ok("b".to_string()));
}

#[test]
fn later_rule_sees_what_the_earlier_one_wrote() {
    assert_eq!(gloss("pat", &["p->b/_", "a->o/b_"], vec![], &[]), Ok("bot".to_string()));
}

#[test]
fn text_does_not_depend_on_verbose() {
    let quiet = to_orthography("banana".to_string(), &texts(&["a->o/_"]), &vec![], &vec![], false).unwrap();
    let loud = to_orthography("banana".to_string(), &texts(&["a->o/_"]), &vec![], &vec![], true).unwrap();
    assert_eq!(quiet.text, "bonono");
    assert_eq!(loud.text, "bonono");
    assert!(quiet.trace.is_empty());
    assert!(!loud.trace.is_empty());
}

#[test]
fn verbose_gives_a_line_for_each_rule_and_each_match() {
    let got = to_orthography("akat".to_string(), &texts(&["a->e/k_t/ak_", "t->d/_"]), &vec![], &vec![], true)
        .unwrap();
    assert_eq!(got.text, "akad");
    assert_eq!(
        got.trace,
        texts(&[
            "Evaluating `a` \u{2192} `e` / k_t /! ak_ on \u{ab}akat\u{bb}",
            "Test: #a#kat: kept",
            "Test: ak#a#t: excepted",
            "Evaluating `t` \u{2192} `d` / _ on \u{ab}akat\u{bb}",
            "Test: aka#t#: replaced",
        ])
    );
}

#[test]
fn verbose_shows_the_token_as_the_rule_finds_it() {
    let got = to_orthography("tsa".to_string(), &texts(&["a->o/_"]), &vec![], &texts(&["ts"]), true).unwrap();
    assert_eq!(got.text, "tso");
    assert_eq!(
        got.trace,
        texts(&["Evaluating `a` \u{2192} `o` / _ on \u{ab}\u{E000}a\u{bb}", "Test: \u{E000}#a#: replaced"])
    );
}

#[test]
fn verbose_without_rules_gives_no_lines() {
    let got = to_orthography("akat".to_string(), &vec![], &vec![], &vec![], true).unwrap();
    assert!(got.trace.is_empty());
}

#[test]
fn sca_trace_has_a_heading_and_a_line_for_each_match() {
    let r = rule("a", "o", ("b", ""), ("", ""));
    assert_eq!(
        sca_trace("baxa", &r),
        texts(&["Evaluating `a` \u{2192} `o` / b_ on \u{ab}baxa\u{bb}", "Test: b#a#xa: replaced", "Test: bax#a#: kept"])
    );
    assert_eq!(sca_trace("xyz", &r), texts(&["Evaluating `a` \u{2192} `o` / b_ on \u{ab}xyz\u{bb}"]));
}

#[test]
fn verdict_line_names_what_became_of_the_match() {
    let r = rule("a", "e", ("k", "t"), ("ak", ""));
    assert_eq!(verdict_line(&r, &occurrence("k", "a", "t")), "Test: k#a#t: replaced");
    assert_eq!(verdict_line(&r, &occurrence("ak", "a", "t")), "Test: ak#a#t: excepted");
    assert_eq!(verdict_line(&r, &occurrence("x", "a", "t")), "Test: x#a#t: kept");
    assert_eq!(verdict_line(&r, &occurrence("", "", "")), "Test: ##: kept");
}

#[test]
fn admits_looks_at_the_environment_only() {
    let r = rule("a", "e", ("k", "t"), ("ak", ""));
    assert!(admits(&r, "ak", "t"));
    assert!(admits(&r, "k", "ta"));
    assert!(!admits(&r, "k", "at"));
    assert!(!admits(&r, "ka", "t"));
}

#[test]
fn run_trace_follows_the_token_through_the_rules() {
    let rules = vec![rule("a", "b", ("", ""), ("", "")), rule("b", "c", ("", ""), ("x", ""))];
    assert_eq!(
        run_trace("xa", &rules, &vec![]),
        texts(&[
            "Evaluating `a` \u{2192} `b` / _ on \u{ab}xa\u{bb}",
            "Test: x#a#: replaced",
            "Evaluating `b` \u{2192} `c` / _ /! x_ on \u{ab}xb\u{bb}",
            "Test: x#b#: excepted",
        ])
    );
    assert!(run_trace("xa", &vec![], &vec![]).is_empty());
}

#[test]
fn rule_without_arrow_is_a_syntax_error() {
    assert_eq!(gloss("a", &["a>o/_"], vec![], &[]), Err(GlossError::RuleSyntax("a>o/_".to_string())));
}

#[test]
fn rule_without_environment_is_a_syntax_error() {
    assert_eq!(gloss("a", &["a->o"], vec![], &[]), Err(GlossError::RuleSyntax("a->o".to_string())));
    assert_eq!(gloss("a", &["a->o/x"], vec![], &[]), Err(GlossError::RuleSyntax("a->o/x".to_string())));
}

#[test]
fn exception_clause_needs_exactly_one_underscore() {
    assert_eq!(gloss("a", &["a->o/_/x"], vec![], &[]), Err(GlossError::RuleSyntax("a->o/_/x".to_string())));
    assert_eq!(
        gloss("a", &["a->o/_/x_y_z"], vec![], &[]),
        Err(GlossError::RuleSyntax("a->o/_/x_y_z".to_string()))
    );
}

#[test]
fn unreadable_pattern_is_a_syntax_error() {
    assert_eq!(gloss("a", &["(->o/_"], vec![], &[]), Err(GlossError::RuleSyntax("(->o/_".to_string())));
    assert_eq!(gloss("a", &["a->o/[_"], vec![], &[]), Err(GlossError::RuleSyntax("a->o/[_".to_string())));
}

#[test]
fn first_bad_rule_is_reported_and_nothing_is_rewritten() {
    assert_eq!(
        gloss("a", &["a->b/_", "oops", "also bad"], vec![], &[]),
        Err(GlossError::RuleSyntax("oops".to_string()))
    );
}

#[test]
fn too_many_multigraphs() {
    let many: Vec<String> = (0..6401).map(|i| format!("q{}", i)).collect();
    let got = to_orthography("a".to_string(), &vec![], &vec![], &many, false).map(|t| t.text);
    assert_eq!(got, Err(GlossError::MultigraphCapacity(6401)));
    let full: Vec<String> = (0..6400).map(|i| format!("q{}q", i)).collect();
    let got = to_orthography("aq6399q".to_string(), &texts(&["a->o/_"]), &vec![], &full, false).map(|t| t.text);
    assert_eq!(got, Ok("oq6399q".to_string()));
}

#[test]
fn unreadable_multigraph_is_a_schema_error() {
    assert_eq!(gloss("a", &[], vec![], &["ts", "("]), Err(GlossError::Schema("(".to_string())));
}

#[test]
fn category_identifier_is_a_label_not_a_pattern() {
    let cats = vec![Category { id: "[".to_string(), seqs: texts(&["a"]) }];
    assert_eq!(gloss("a", &[], cats, &[]), Ok("a".to_string()));
    let cats = vec![Category { id: "C.".to_string(), seqs: texts(&["k", "t"]) }];
    assert_eq!(gloss("kata", &["C.->x/_"], cats, &[]), Ok("xaxa".to_string()));
    let cats = vec![Category { id: "C.".to_string(), seqs: texts(&["k", "t"]) }];
    assert_eq!(gloss("Cakta", &["Ca->x/_"], cats, &[]), Ok("xkta".to_string()));
}

#[test]
fn nested_category_is_not_written_out_again() {
    let cats = vec![
        Category { id: "@A".to_string(), seqs: texts(&["@B"]) },
        Category { id: "@B".to_string(), seqs: texts(&["x"]) },
    ];
    let r = from_cats(rule("@A", "", ("", ""), ("", "")), &cats, &vec![]);
    assert_eq!(r.target, "(@B)");
    assert_eq!(gloss("a@Bx", &["@A->y/_"], cats, &[]), Ok("ayx".to_string()));
}

#[test]
fn capacity_comes_before_anything_else() {
    let mut many: Vec<String> = (0..6401).map(|i| format!("q{}", i)).collect();
    many[0] = "(".to_string();
    let got = to_orthography("a".to_string(), &texts(&["bad"]), &vec![], &many, false).map(|t| t.text);
    assert_eq!(got, Err(GlossError::MultigraphCapacity(6401)));
}

#[test]
fn sca_rewrites_each_qualifying_match() {
    let r = rule("a", "o", ("", ""), ("", ""));
    assert_eq!(sca("banana", &r), "bonono");
    let r = rule("a", "e", ("k", "t"), ("", ""));
    assert_eq!(sca("akat", &r), "aket");
    assert_eq!(sca("", &r), "");
    assert_eq!(sca("xyz", &r), "xyz");
}

#[test]
fn sca_replacement_is_literal() {
    let r = rule("(a)", "$1$1", ("", ""), ("", ""));
    assert_eq!(sca("bab", &r), "b$1$1b");
}

#[test]
fn sca_handles_characters_of_several_bytes() {
    let r = rule("é", "e", ("ñ", ""), ("", ""));
    assert_eq!(sca("ñééñé", &r), "ñeéñe");
}

#[test]
fn applies_decides_one_occurrence() {
    let r = rule("a", "e", ("k", "t"), ("ak", ""));
    assert!(!applies(&r, "ak", "t"));
    assert!(applies(&r, "k", "t"));
    assert!(!applies(&r, "k", "x"));
    assert!(!applies(&r, "x", "t"));
}

#[test]
fn adjoins_looks_only_at_the_touching_end() {
    assert!(adjoins_left("k", "aak"));
    assert!(!adjoins_left("k", "aka"));
    assert!(adjoins_left("", "anything"));
    assert!(adjoins_right("t", "ta"));
    assert!(!adjoins_right("t", "at"));
    assert!(adjoins_right("", "anything"));
}

#[test]
fn flush_tests_read_the_pieces() {
    let found = vec![occurrence("a", "k", "at"), occurrence("aka", "k", "")];
    assert!(ends_flush(&found));
    assert!(!starts_flush(&found));
    let found = vec![occurrence("", "k", "at")];
    assert!(!ends_flush(&found));
    assert!(starts_flush(&found));
    assert!(!ends_flush(&vec![]));
    assert!(!starts_flush(&vec![]));
}

#[test]
fn stitch_writes_choices_and_copies_the_rest() {
    let found = vec![occurrence("b", "a", "nana"), occurrence("ban", "a", "na"), occurrence("banan", "a", "")];
    assert_eq!(stitch("banana", &found, &vec![true, false, true], "o"), "bonano");
    assert_eq!(stitch("banana", &found, &vec![false, false, false], "o"), "banana");
    assert_eq!(stitch("banana", &vec![], &vec![], "o"), "banana");
    let found = vec![occurrence("", "b", "a")];
    assert_eq!(stitch("ba", &found, &vec![true], "xyz"), "xyza");
}

#[test]
fn from_cats_resolves_patterns_and_folds_the_replacement() {
    let cats = vec![Category { id: "@C".to_string(), seqs: texts(&["k", "ts"]) }];
    let table = texts(&["ts"]);
    let r = from_cats(rule("@C", "ts", ("@Ca", ""), ("", "")), &cats, &table);
    assert_eq!(r.target, "(\u{E000}|k)");
    assert_eq!(r.replacement, "\u{E000}");
    assert_eq!(r.pos_env.0, "(\u{E000}|k)a");
    assert_eq!(r.pos_env.1, "");
    assert_eq!(r.neg_env.0, "");
    assert_eq!(r.neg_env.1, "");
}

#[test]
fn from_cats_leaves_category_names_in_the_replacement() {
    let cats = vec![Category { id: "@C".to_string(), seqs: texts(&["k"]) }];
    let r = from_cats(rule("a", "@C", ("", ""), ("", "")), &cats, &vec![]);
    assert_eq!(r.replacement, "@C");
}

#[test]
fn compile_reads_and_resolves() {
    let cats = vec![Category { id: "@C".to_string(), seqs: texts(&["k", "kh"]) }];
    let r = compile("@C->x/a_/b_c", &cats, &vec![]).unwrap();
    assert_eq!(r.target, "(kh|k)");
    assert_eq!(r.replacement, "x");
    assert_eq!(r.pos_env, ("a".to_string(), "".to_string()));
    assert_eq!(r.neg_env, ("b".to_string(), "c".to_string()));
    assert!(compile("nothing", &cats, &vec![]).is_none());
    assert!(compile("(->x/_", &cats, &vec![]).is_none());
}

#[test]
fn run_applies_ready_rules_in_order() {
    let rules = vec![rule("a", "b", ("", ""), ("", "")), rule("b", "c", ("", ""), ("", ""))];
    assert_eq!(run("aba", &rules, &vec![]), "ccc");
    assert_eq!(run("aba", &vec![], &vec![]), "aba");
}

#[test]
fn run_folds_before_each_rule() {
    let rules = vec![rule("x", "", ("", ""), ("", "")), rule("[ts]", "z", ("", ""), ("", ""))];
    assert_eq!(run("txs", &rules, &texts(&["ts"])), "ts");
}
