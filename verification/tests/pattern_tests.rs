use file_finder::pattern::Pattern;
use file_finder::pattern::glob_to_regex;

#[test]
fn star_becomes_wildcard_outside_brackets() {
    assert_eq!(glob_to_regex("*.rs"), "^.*\\.rs$");
}

#[test]
fn star_stays_literal_inside_brackets() {
    assert_eq!(glob_to_regex("a[*]b"), "^a[*]b$");
}

#[test]
fn question_mark_becomes_single_wildcard_outside_brackets() {
    assert_eq!(glob_to_regex("?x"), "^.x$");
}

#[test]
fn question_mark_stays_literal_inside_brackets() {
    assert_eq!(glob_to_regex("a[?]b"), "^a[?]b$");
}

#[test]
fn metacharacters_are_escaped_outside_brackets() {
    assert_eq!(glob_to_regex("a.b+c(d)e|f^g$h@i%j"), "^a\\.b\\+c\\(d\\)e\\|f\\^g\\$h\\@i\\%j$");
}

#[test]
fn metacharacters_pass_through_inside_brackets() {
    assert_eq!(glob_to_regex("[a.b]"), "^[a.b]$");
}

#[test]
fn empty_pattern_translates_to_anchors_only() {
    assert_eq!(glob_to_regex(""), "^$");
}

#[test]
fn translation_is_always_anchored() {
    assert_eq!(glob_to_regex("abc"), "^abc$");
    assert!(glob_to_regex("x[y]z*?").starts_with('^'));
    assert!(glob_to_regex("x[y]z*?").ends_with('$'));
}

#[test]
fn compiled_pattern_never_matches_a_strict_superstring() {
    let p = Pattern::compile("abc").unwrap();
    assert!(p.is_match("abc"));
    assert!(!p.is_match("xabcx"));
    assert!(!p.is_match("abcx"));
    assert!(!p.is_match("xabc"));
}

#[test]
fn glob_star_matches_whole_names_only() {
    let p = Pattern::compile("*.rs").unwrap();
    assert!(p.is_match("main.rs"));
    assert!(p.is_match(".rs"));
    assert!(!p.is_match("main.rs.bak"));
    assert!(!p.is_match("main.c"));
}

#[test]
fn question_mark_matches_exactly_one_character() {
    let p = Pattern::compile("?.txt").unwrap();
    assert!(p.is_match("a.txt"));
    assert!(!p.is_match("ab.txt"));
    assert!(!p.is_match(".txt"));
}

#[test]
fn bracket_expression_matches_a_set() {
    let p = Pattern::compile("[abc].log").unwrap();
    assert!(p.is_match("a.log"));
    assert!(p.is_match("c.log"));
    assert!(!p.is_match("d.log"));
}

#[test]
fn empty_pattern_matches_only_the_empty_string() {
    let p = Pattern::compile("").unwrap();
    assert!(p.is_match(""));
    assert!(!p.is_match("a"));
}

#[test]
fn unbalanced_bracket_is_an_error_not_a_panic() {
    assert!(Pattern::compile("[").is_err());
}

#[test]
fn bracket_state_persists_until_the_closing_bracket() {
    assert_eq!(glob_to_regex("[a*?.]x*"), "^[a*?.]x.*$");
}
