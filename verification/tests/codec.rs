use glosser::codec::{
    multigraph_to_unigraph, stand_in_char, stand_in_text, substitute, unigraph_to_multigraph,
    CAPACITY, FIRST_STAND_IN,
};

fn table(items: &[&str]) -> Vec<String> {
    items.iter().map(|s| s.to_string()).collect()
}

#[test]
fn capacity_is_the_private_use_block() {
    assert_eq!(CAPACITY, 6400);
    assert_eq!(FIRST_STAND_IN, 0xE000);
    assert_eq!(FIRST_STAND_IN as usize + CAPACITY - 1, 0xF8FF);
}

#[test]
fn stand_ins_count_up_from_the_first() {
    assert_eq!(stand_in_char(0), '\u{E000}');
    assert_eq!(stand_in_char(1), '\u{E001}');
    assert_eq!(stand_in_char(6399), '\u{F8FF}');
    assert_eq!(stand_in_text(2), "\u{E002}");
}

#[test]
fn encode_folds_each_entry_into_its_stand_in() {
    let t = table(&["ts", "kh"]);
    assert_eq!(multigraph_to_unigraph("tsakha", &t), "\u{E000}a\u{E001}a");
    assert_eq!(multigraph_to_unigraph("khats", &t), "\u{E001}a\u{E000}");
}

#[test]
fn encode_without_a_match_changes_nothing() {
    let t = table(&["ts", "kh"]);
    assert_eq!(multigraph_to_unigraph("banana", &t), "banana");
    assert_eq!(multigraph_to_unigraph("", &t), "");
    assert_eq!(multigraph_to_unigraph("tsa", &vec![]), "tsa");
}

#[test]
fn encode_goes_by_the_order_of_the_table_not_by_length() {
    assert_eq!(multigraph_to_unigraph("tsh", &table(&["ts", "tsh"])), "\u{E000}h");
    assert_eq!(multigraph_to_unigraph("tsh", &table(&["tsh", "ts"])), "\u{E000}");
    assert_eq!(multigraph_to_unigraph("tsh", &table(&["sh", "ts"])), "t\u{E000}");
}

#[test]
fn encode_reads_entries_as_patterns() {
    assert_eq!(multigraph_to_unigraph("taatat", &table(&["ta+"])), "\u{E000}\u{E000}t");
}

#[test]
fn decode_unfolds_each_stand_in() {
    let t = table(&["ts", "kh"]);
    assert_eq!(unigraph_to_multigraph("\u{E000}a\u{E001}a", &t), "tsakha");
    assert_eq!(unigraph_to_multigraph("banana", &t), "banana");
    assert_eq!(unigraph_to_multigraph("", &t), "");
}

#[test]
fn decode_leaves_stand_ins_beyond_the_table() {
    let t = table(&["ts"]);
    assert_eq!(unigraph_to_multigraph("\u{E001}\u{E000}", &t), "\u{E001}ts");
}

#[test]
fn decode_writes_the_spelling_as_it_is() {
    assert_eq!(unigraph_to_multigraph("a\u{E000}", &table(&["$0x"])), "a$0x");
}

#[test]
fn round_trip_gives_the_token_back() {
    let t = table(&["ts", "kh", "ng"]);
    for token in ["banana", "tsatsa", "khang", "", "ñandú", "tskhng"] {
        let folded = multigraph_to_unigraph(token, &t);
        assert_eq!(unigraph_to_multigraph(&folded, &t), token);
    }
}

#[test]
fn substitute_swaps_one_character() {
    assert_eq!(substitute("banana", 'a', "oo"), "boonoonoo");
    assert_eq!(substitute("banana", 'x', "oo"), "banana");
    assert_eq!(substitute("banana", 'n', ""), "baaa");
    assert_eq!(substitute("", 'a', "b"), "");
    assert_eq!(substitute("añb", 'ñ', "ny"), "anyb");
}
