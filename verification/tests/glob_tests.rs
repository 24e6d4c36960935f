use mtpcopy::FileNamePattern;
use mtpcopy::matches_seq;

fn call_matches_seq(seq: &str, pattern: &str) -> bool {
    let seq_v: Vec<char> = seq.chars().collect();
    let pat_v: Vec<char> = pattern.chars().collect();
    matches_seq(seq_v.as_slice(), pat_v.as_slice())
}

#[test]
fn test_matches_seq() {
    assert_eq!(true, call_matches_seq("", ""));
    assert_eq!(true, call_matches_seq("", "*"));
    assert_eq!(true, call_matches_seq("", "******"));
    assert_eq!(false, call_matches_seq("", "?"));
    assert_eq!(false, call_matches_seq("", "a"));

    assert_eq!(false, call_matches_seq("a", ""));
    assert_eq!(true, call_matches_seq("a", "*"));
    assert_eq!(true, call_matches_seq("a", "******"));
    assert_eq!(true, call_matches_seq("a", "?"));
    assert_eq!(false, call_matches_seq("a", "??"));
    assert_eq!(true, call_matches_seq("a", "a"));
    assert_eq!(false, call_matches_seq("a", "aa"));

    assert_eq!(true, call_matches_seq("abc", "a*"));
    assert_eq!(true, call_matches_seq("abc", "a*c"));
    assert_eq!(true, call_matches_seq("abc", "a******c"));
    assert_eq!(false, call_matches_seq("abc", "a*x"));
    assert_eq!(true, call_matches_seq("abc", "a*b*"));
    assert_eq!(true, call_matches_seq("abc", "a*b*c"));
    assert_eq!(false, call_matches_seq("abc", "a*b*cx"));
    assert_eq!(true, call_matches_seq("abc", "?bc"));
    assert_eq!(true, call_matches_seq("abc", "a?c"));
    assert_eq!(true, call_matches_seq("abc", "ab?"));
    assert_eq!(false, call_matches_seq("abc", "ab?x"));

    assert_eq!(true, call_matches_seq("abcabcabcabcabc", "ab?a*c"));
    assert_eq!(true, call_matches_seq("abcabcabcabcabc", "ab?*abc*abc"));
    assert_eq!(true, call_matches_seq("abcabcabcabcabc", "ab?*********abc"));
    assert_eq!(true, call_matches_seq("abcabcabcabcabc", "ab?*******??abc"));
    assert_eq!(true, call_matches_seq("abcabcabcabcabc", "ab?***a?***?abc"));
    assert_eq!(true, call_matches_seq("abcabcabcabcabc", "*a*a*a*a*a*c"));
    assert_eq!(false, call_matches_seq("abcabcabcabcabc", "*a*a*a*a*a*a*c"));
}

#[test]
fn test_file_name_pattern() {
    let pat = FileNamePattern::new("a?c*c");
    assert_eq!(false, pat.matches(""));
    assert_eq!(false, pat.matches("x"));
    assert_eq!(true, pat.matches("abcc"));
    assert_eq!(true, pat.matches("acccc"));
}

#[test]
fn test_file_name_pattern_get_pattern() {
    let pat = FileNamePattern::new("a?c*c");
    assert_eq!(pat.get_pattern(), "a?c*c".to_string());
}

#[test]
fn test_has_wildcard_characters() {
    assert_eq!(true, FileNamePattern::has_wildcard("a*b"));
    assert_eq!(true, FileNamePattern::has_wildcard("a?b"));
    assert_eq!(false, FileNamePattern::has_wildcard("plain name.txt"));
    assert_eq!(false, FileNamePattern::has_wildcard(""));
}
