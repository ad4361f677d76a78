use glosser::category::{assemble, expand, join, sort_longest_first, write_out, Category, Segment};

fn list(items: &[&str]) -> Vec<String> {
    items.iter().map(|s| s.to_string()).collect()
}

fn category(id: &str, members: &[&str]) -> Category {
    Category { id: id.to_string(), seqs: list(members) }
}

#[test]
fn sort_puts_the_longest_first() {
    assert_eq!(sort_longest_first(&list(&["k", "kh", "khw"])), list(&["khw", "kh", "k"]));
    assert_eq!(sort_longest_first(&list(&["kh", "k"])), list(&["kh", "k"]));
    assert_eq!(sort_longest_first(&vec![]), Vec::<String>::new());
    assert_eq!(sort_longest_first(&list(&["a"])), list(&["a"]));
}

#[test]
fn sort_keeps_the_declared_order_among_equals() {
    assert_eq!(
        sort_longest_first(&list(&["b", "aa", "a", "cc", "c", "ddd"])),
        list(&["ddd", "aa", "cc", "b", "a", "c"])
    );
}

#[test]
fn sort_counts_characters_not_bytes() {
    assert_eq!(sort_longest_first(&list(&["ñ", "ab"])), list(&["ab", "ñ"]));
}

#[test]
fn sort_keeps_every_member() {
    let members = list(&["t", "ts", "t", "tsh", "s", "ts"]);
    let mut sorted = sort_longest_first(&members);
    assert_eq!(sorted.len(), members.len());
    for pair in sorted.windows(2) {
        assert!(pair[0].chars().count() >= pair[1].chars().count());
    }
    let mut expected = members.clone();
    expected.sort();
    sorted.sort();
    assert_eq!(sorted, expected);
}

#[test]
fn join_puts_the_separator_between() {
    assert_eq!(join(&list(&["a", "b", "c"]), "|"), "a|b|c");
    assert_eq!(join(&list(&["a"]), "|"), "a");
    assert_eq!(join(&vec![], "|"), "");
    assert_eq!(join(&list(&["", ""]), ", "), ", ");
}

#[test]
fn disjunction_is_a_parenthesised_alternation() {
    assert_eq!(category("@C", &["k", "kh"]).disjunction(), "(kh|k)");
    assert_eq!(category("@C", &["p"]).disjunction(), "(p)");
    assert_eq!(category("@C", &[]).disjunction(), "()");
}

#[test]
fn expand_writes_out_every_category() {
    let cats = vec![category("@C", &["k", "kh"]), category("@V", &["a", "i"])];
    assert_eq!(expand("@C@V@C", &cats), "(kh|k)(a|i)(kh|k)");
    assert_eq!(expand("x", &cats), "x");
    assert_eq!(expand("", &cats), "");
    assert_eq!(expand("@C", &vec![]), "@C");
}

#[test]
fn expand_does_not_search_what_it_wrote_for_the_same_category() {
    let cats = vec![category("C", &["aC", "b"])];
    assert_eq!(expand("C", &cats), "(aC|b)");
}

#[test]
fn expand_does_not_search_what_it_wrote_for_another_category() {
    let cats = vec![category("A", &["B"]), category("B", &["x"])];
    assert_eq!(expand("A", &cats), "(B)");
    assert_eq!(expand("AB", &cats), "(B)(x)");
    let cats = vec![category("@A", &["@B"]), category("@B", &["x"])];
    assert_eq!(expand("@A", &cats), "(@B)");
    let cats = vec![category("@B", &["x"]), category("@A", &["@B"])];
    assert_eq!(expand("@A", &cats), "(@B)");
}

#[test]
fn expand_reads_an_identifier_letter_by_letter() {
    let cats = vec![category("C.", &["k"]), category("$V", &["a"]), category("[", &["x"])];
    assert_eq!(expand("Ca", &cats), "Ca");
    assert_eq!(expand("C.a", &cats), "(k)a");
    assert_eq!(expand("$V$", &cats), "(a)$");
    assert_eq!(expand("[ab]", &cats), "(x)ab]");
}

#[test]
fn expand_with_an_empty_identifier_changes_nothing() {
    let cats = vec![category("", &["k"])];
    assert_eq!(expand("abc", &cats), "abc");
}

#[test]
fn expand_gives_the_earlier_category_the_overlapping_text() {
    let cats = vec![category("@A", &["a"]), category("@AB", &["b"])];
    assert_eq!(expand("@AB", &cats), "(a)B");
    let cats = vec![category("@AB", &["b"]), category("@A", &["a"])];
    assert_eq!(expand("@AB", &cats), "(b)");
}

fn stretch(written_out: bool, text: &str) -> Segment {
    Segment { written_out, text: text.to_string() }
}

fn shape(segments: &[Segment]) -> Vec<(bool, String)> {
    segments.iter().map(|s| (s.written_out, s.text.clone())).collect()
}

#[test]
fn write_out_cuts_only_what_is_as_written() {
    let segments = vec![stretch(false, "aCb"), stretch(true, "(C)"), stretch(false, "C")];
    let out = write_out(&segments, &category("C", &["k", "kh"]));
    assert_eq!(
        shape(&out),
        shape(&[
            stretch(false, "a"),
            stretch(true, "(kh|k)"),
            stretch(false, "b"),
            stretch(true, "(C)"),
            stretch(false, ""),
            stretch(true, "(kh|k)"),
            stretch(false, ""),
        ])
    );
    assert_eq!(assemble(&out), "a(kh|k)b(C)(kh|k)");
    assert!(write_out(&vec![], &category("C", &["k"])).is_empty());
}

#[test]
fn assemble_puts_the_stretches_together() {
    assert_eq!(assemble(&vec![stretch(false, "a"), stretch(true, "(b)"), stretch(false, "")]), "a(b)");
    assert_eq!(assemble(&vec![]), "");
}

#[test]
fn expand_writes_members_as_they_are() {
    let cats = vec![category("@C", &["$1"])];
    assert_eq!(expand("a@C", &cats), "a($1)");
}
