use glosser::text::{chars_of, find_from, matches_at, same_text, split};

fn chars(s: &str) -> Vec<char> {
    s.chars().collect()
}

fn list(items: &[&str]) -> Vec<String> {
    items.iter().map(|s| s.to_string()).collect()
}

#[test]
fn chars_of_gives_each_character() {
    assert_eq!(chars_of("añb"), vec!['a', 'ñ', 'b']);
    assert_eq!(chars_of(""), Vec::<char>::new());
}

#[test]
fn same_text_compares_whole_texts() {
    assert!(same_text("abc", "abc"));
    assert!(same_text("", ""));
    assert!(!same_text("abc", "abd"));
    assert!(!same_text("abc", "ab"));
    assert!(!same_text("", "a"));
}

#[test]
fn matches_at_looks_at_one_position() {
    assert!(matches_at(&chars("a->b"), &chars("->"), 1));
    assert!(!matches_at(&chars("a->b"), &chars("->"), 0));
    assert!(!matches_at(&chars("a->b"), &chars("->"), 2));
    assert!(matches_at(&chars("ab"), &chars(""), 2));
}

#[test]
fn find_from_gives_the_first_position() {
    assert_eq!(find_from(&chars("a/b/c"), &chars("/"), 0), Some(1));
    assert_eq!(find_from(&chars("a/b/c"), &chars("/"), 1), Some(1));
    assert_eq!(find_from(&chars("a/b/c"), &chars("/"), 2), Some(3));
    assert_eq!(find_from(&chars("a/b/c"), &chars("/"), 4), None);
    assert_eq!(find_from(&chars("a/b/c"), &chars("/"), 9), None);
    assert_eq!(find_from(&chars("abc"), &chars("abcd"), 0), None);
    assert_eq!(find_from(&chars("abc"), &chars(""), 3), Some(3));
    assert_eq!(find_from(&chars("abc"), &chars(""), 4), None);
}

#[test]
fn split_cuts_at_every_separator() {
    assert_eq!(split("a/b/c", "/"), list(&["a", "b", "c"]));
    assert_eq!(split("a->b", "->"), list(&["a", "b"]));
    assert_eq!(split("abc", "/"), list(&["abc"]));
    assert_eq!(split("", "/"), list(&[""]));
    assert_eq!(split("/", "/"), list(&["", ""]));
    assert_eq!(split("a//b", "/"), list(&["a", "", "b"]));
    assert_eq!(split("_", "_"), list(&["", ""]));
}

#[test]
fn split_does_not_overlap_separators() {
    assert_eq!(split("aaa", "aa"), list(&["", "a"]));
    assert_eq!(split("a->->b", "->"), list(&["a", "", "b"]));
}

#[test]
fn split_with_an_empty_separator_gives_the_text() {
    assert_eq!(split("abc", ""), list(&["abc"]));
}

#[test]
fn split_agrees_with_the_standard_library() {
    for text in ["a->o/_", "a->e/k_t/x_y", "ñ+ü+é", "++", "no separator", ""] {
        for sep in ["/", "->", "_", "+"] {
            let expected: Vec<String> = text.split(sep).map(|s| s.to_string()).collect();
            assert_eq!(split(text, sep), expected);
        }
    }
}
