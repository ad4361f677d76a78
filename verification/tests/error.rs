use glosser::error::GlossError;

#[test]
fn subject_is_the_text_at_fault() {
    assert_eq!(GlossError::RuleSyntax("a>b".to_string()).subject(), "a>b");
    assert_eq!(GlossError::UnknownCategoryOrClass("Q".to_string()).subject(), "Q");
    assert_eq!(GlossError::UnknownWord("kata".to_string()).subject(), "kata");
    assert_eq!(GlossError::Schema("(".to_string()).subject(), "(");
    assert_eq!(GlossError::MultigraphCapacity(6401).subject(), "");
}

#[test]
fn kind_names_the_variant() {
    assert_eq!(GlossError::RuleSyntax(String::new()).kind(), "rule syntax error");
    assert_eq!(GlossError::UnknownCategoryOrClass(String::new()).kind(), "unknown category or class");
    assert_eq!(GlossError::UnknownWord(String::new()).kind(), "unknown word");
    assert_eq!(GlossError::Schema(String::new()).kind(), "schema error");
    assert_eq!(GlossError::MultigraphCapacity(0).kind(), "too many multigraphs");
}
