use glosser::category::Category;
use glosser::error::GlossError;
use glosser::lex::{AttrEntry, DefaultWordclass, Placement, WordEntry, Wordclass};
use glosser::table::{build_forms, build_word, get_gloss_info, Language};

fn list(items: &[&str]) -> Vec<String> {
    items.iter().map(|s| s.to_string()).collect()
}

fn entry(lemma: &str, gloss: &str, class: &str) -> WordEntry {
    WordEntry { lemma: lemma.to_string(), gloss: Some(gloss.to_string()), class: Some(class.to_string()) }
}

fn attr_entry(name: &str, form: &str, pos: i64, affects: &[&str]) -> AttrEntry {
    AttrEntry {
        name: name.to_string(),
        form: Some(form.to_string()),
        pos: Some(pos),
        affects: Some(affects.iter().map(|c| Some(c.to_string())).collect()),
    }
}

fn language() -> Language {
    Language {
        vocab: vec![entry("kata", "house", "N"), entry("mitsa", "see", "V")],
        attributes: vec![
            attr_entry("PL", "ri", 1, &["N"]),
            attr_entry("PST", "ta", -1, &["V"]),
            attr_entry("BAD", "x", 1, &["Q"]),
        ],
        sc: list(&["-->/_", "t->d/@V_@V"]),
        phonetic: list(&["ts->c/_", "@V->\u{259}/_$"]),
        cats: vec![Category { id: "@V".to_string(), seqs: list(&["a", "i"]) }],
        multigraphs: list(&["ts"]),
    }
}

#[test]
fn build_word_offers_each_attribute() {
    let lang = language();
    let w = build_word("kata+PL", &lang).unwrap();
    assert_eq!(w.lemma, "kata");
    assert_eq!(w.class, Wordclass::Default(DefaultWordclass::N));
    assert_eq!(w.attributes.len(), 1);
    assert_eq!(w.attributes[0].form, "ri");
    assert_eq!(w.attributes[0].place, Placement::Greater);
    let w = build_word("kata+PST+PL+3SG", &lang).unwrap();
    assert_eq!(w.attributes.len(), 2);
    assert_eq!(w.attributes[0].name, "PL");
    assert_eq!(w.attributes[1].name, "3SG");
    let w = build_word("kata", &lang).unwrap();
    assert!(w.attributes.is_empty());
}

#[test]
fn build_word_reports_the_first_fault() {
    let lang = language();
    assert_eq!(build_word("nothing+PL", &lang).err(), Some(GlossError::UnknownWord("nothing".to_string())));
    assert_eq!(build_word("", &lang).err(), Some(GlossError::UnknownWord(String::new())));
    assert_eq!(
        build_word("kata+PL+BAD+PST", &lang).err(),
        Some(GlossError::UnknownCategoryOrClass("Q".to_string()))
    );
}

#[test]
fn build_forms_spells_and_pronounces() {
    let lang = language();
    let forms = build_forms(&"kata-ri".to_string(), &lang, false).ok().unwrap();
    assert_eq!(forms.orthographic, "kadari");
    assert_eq!(forms.phonetic, "kadar\u{259}");
    assert!(forms.trace.is_empty());
    let forms = build_forms(&"ta-mitsa".to_string(), &lang, false).ok().unwrap();
    assert_eq!(forms.orthographic, "tamitsa");
    assert_eq!(forms.phonetic, "tamic\u{259}");
}

#[test]
fn build_forms_reports_a_bad_rule_of_either_list() {
    let mut lang = language();
    lang.phonetic = list(&["oops"]);
    assert_eq!(
        build_forms(&"kata".to_string(), &lang, false).err(),
        Some(GlossError::RuleSyntax("oops".to_string()))
    );
    lang.sc = list(&["a->b/_", "worse"]);
    assert_eq!(
        build_forms(&"kata".to_string(), &lang, true).err(),
        Some(GlossError::RuleSyntax("worse".to_string()))
    );
}

#[test]
fn gloss_table_has_a_column_for_each_expression() {
    let lang = language();
    let table = get_gloss_info(&list(&["kata+PL", "mitsa+PST", "kata"]), &lang, false).ok().unwrap();
    assert_eq!(table.len, 3);
    assert_eq!(table.inflections, list(&["kata-ri", "ta-mitsa", "kata"]));
    assert_eq!(table.orthographic, list(&["kadari", "tamitsa", "kada"]));
    assert_eq!(table.phonetic, list(&["kadar\u{259}", "tamic\u{259}", "kad\u{259}"]));
    assert_eq!(table.glosses, list(&["house-PL", "PST-see", "house"]));
}

#[test]
fn build_forms_traces_the_spelling_and_then_the_pronunciation() {
    let mut lang = language();
    lang.sc = list(&["t->d/a_a"]);
    lang.phonetic = list(&["d->z/_"]);
    lang.multigraphs = vec![];
    let forms = build_forms(&"kata".to_string(), &lang, true).ok().unwrap();
    assert_eq!(forms.orthographic, "kada");
    assert_eq!(forms.phonetic, "kaza");
    assert_eq!(
        forms.trace,
        list(&[
            "Evaluating `t` \u{2192} `d` / a_a on \u{ab}kata\u{bb}",
            "Test: ka#t#a: replaced",
            "Evaluating `d` \u{2192} `z` / _ on \u{ab}kada\u{bb}",
            "Test: ka#d#a: replaced",
        ])
    );
}

#[test]
fn gloss_table_carries_a_trace_for_each_column() {
    let mut lang = language();
    lang.sc = list(&["t->d/a_a"]);
    lang.phonetic = vec![];
    lang.multigraphs = vec![];
    let quiet = get_gloss_info(&list(&["kata", "mitsa"]), &lang, false).ok().unwrap();
    assert_eq!(quiet.traces, vec![Vec::<String>::new(), Vec::<String>::new()]);
    let loud = get_gloss_info(&list(&["kata", "mitsa"]), &lang, true).ok().unwrap();
    assert_eq!(loud.orthographic, quiet.orthographic);
    assert_eq!(
        loud.traces,
        vec![
            list(&["Evaluating `t` \u{2192} `d` / a_a on \u{ab}kata\u{bb}", "Test: ka#t#a: replaced"]),
            list(&["Evaluating `t` \u{2192} `d` / a_a on \u{ab}mitsa\u{bb}", "Test: mi#t#sa: kept"]),
        ]
    );
}

#[test]
fn gloss_table_of_nothing_is_empty() {
    let table = get_gloss_info(&vec![], &language(), false).ok().unwrap();
    assert_eq!(table.len, 0);
    assert!(table.traces.is_empty());
    assert!(table.inflections.is_empty() && table.orthographic.is_empty());
    assert!(table.phonetic.is_empty() && table.glosses.is_empty());
}

#[test]
fn gloss_table_looks_every_word_up_before_it_rewrites_any() {
    let mut lang = language();
    lang.sc = list(&["oops"]);
    assert_eq!(
        get_gloss_info(&list(&["kata", "nothing"]), &lang, false).err(),
        Some(GlossError::UnknownWord("nothing".to_string()))
    );
    assert_eq!(
        get_gloss_info(&list(&["kata", "mitsa"]), &lang, false).err(),
        Some(GlossError::RuleSyntax("oops".to_string()))
    );
}
