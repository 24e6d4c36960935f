use mtpcopy::AppError;
use mtpcopy::FileNamePattern;
use mtpcopy::PathMatcher;
use mtpcopy::PathMatchingState;
use mtpcopy::RootPathMatcher;
use mtpcopy::create_path_pattern_matcher;

fn assert_path_matchers(result: &Result<RootPathMatcher, AppError>, expected: &[PathMatcher]) {
    let root_matcher = result.as_ref().unwrap();
    let mut next_matcher: Option<&PathMatcher> = root_matcher.next_matcher();
    let mut expected_iter = expected.iter();
    while let Some(matcher) = next_matcher {
        let expected_matcher = expected_iter.next().unwrap();
        match matcher {
            PathMatcher::ExactNameMatcher {
                name: actual_name,
                must_be_dir: actual_must_be_dir,
                next: _,
            } => match expected_matcher {
                PathMatcher::ExactNameMatcher {
                    name: expected_name,
                    must_be_dir: expected_must_be_dir,
                    next: _,
                } => {
                    assert_eq!(*expected_must_be_dir, *actual_must_be_dir);
                    assert_eq!(expected_name, actual_name);
                }
                _ => panic!(),
            },

            PathMatcher::FileNamePatternMatcher {
                pattern: actual_pattern,
                must_be_dir: actual_must_be_dir,
                next: _,
            } => match expected_matcher {
                PathMatcher::FileNamePatternMatcher {
                    pattern: expected_pattern,
                    must_be_dir: expected_must_be_dir,
                    next: _,
                } => {
                    assert_eq!(*expected_must_be_dir, *actual_must_be_dir);
                    assert_eq!(expected_pattern, actual_pattern);
                }
                _ => panic!(),
            },

            PathMatcher::AnyDirectoriesMatcher { next: _ } => match expected_matcher {
                PathMatcher::AnyDirectoriesMatcher { next: _ } => (),
                _ => panic!(),
            },
        }
        next_matcher = matcher.next_matcher();
    }
    assert!(expected_iter.next().is_none());
}

#[test]
fn test_create_path_pattern_matcher_root_dir() {
    for pattern in ["/", "///"] {
        let expected = [];
        let result = create_path_pattern_matcher(pattern);
        assert_path_matchers(&result, &expected[..]);
    }
}

#[test]
fn test_create_path_pattern_matcher_exact_name() {
    for pattern in ["aaa", "/aaa", "///aaa", "aaa/", "aaa///"] {
        let expected = [PathMatcher::ExactNameMatcher {
            name: "aaa".to_string(),
            must_be_dir: false,
            next: None,
        }];
        let result = create_path_pattern_matcher(pattern);
        assert_path_matchers(&result, &expected[..]);
    }
}

#[test]
fn test_create_path_pattern_matcher_wildcard() {
    for (pattern, expected_filename_pattern) in
        [("a*a", "a*a"), ("aa?aa", "aa?aa"), ("a?a*a", "a?a*a"), ("/a*a", "a*a")]
    {
        let expected = [PathMatcher::FileNamePatternMatcher {
            pattern: FileNamePattern::new(expected_filename_pattern),
            must_be_dir: false,
            next: None,
        }];
        let result = create_path_pattern_matcher(pattern);
        assert_path_matchers(&result, &expected[..]);
    }
}

#[test]
fn test_create_path_pattern_matcher_multiple_components() {
    let expected = [
        PathMatcher::ExactNameMatcher {
            name: "aaa".to_string(),
            must_be_dir: true,
            next: None,
        },
        PathMatcher::FileNamePatternMatcher {
            pattern: FileNamePattern::new("b*b"),
            must_be_dir: true,
            next: None,
        },
        PathMatcher::AnyDirectoriesMatcher {
            // this value is not referenced in `assert_path_matchers()`
            next: Box::new(PathMatcher::ExactNameMatcher {
                name: "ccc".to_string(),
                must_be_dir: false,
                next: None,
            }),
        },
        PathMatcher::ExactNameMatcher {
            name: "ccc".to_string(),
            must_be_dir: false,
            next: None,
        },
    ];
    let result = create_path_pattern_matcher("aaa/b*b/**/ccc");
    assert_path_matchers(&result, &expected[..]);
}

#[test]
fn test_create_path_pattern_matcher_errors() {
    assert!(matches!(create_path_pattern_matcher(""), Err(_)));
    assert!(matches!(create_path_pattern_matcher("a/./a"), Err(_)));
    assert!(matches!(create_path_pattern_matcher("a/../a"), Err(_)));
    assert!(matches!(create_path_pattern_matcher("a/**"), Err(_)));
}

#[test]
fn test_create_path_pattern_matcher_leading_any_depth() {
    assert!(matches!(create_path_pattern_matcher("**/aaa"), Err(_)));
    assert!(matches!(create_path_pattern_matcher("**"), Err(_)));
}

#[test]
fn test_path_pattern_scenario_root() {
    let root_matcher = create_path_pattern_matcher("/").unwrap();
    let current_matcher = &root_matcher;

    let (state, next_matcher) = current_matcher.matches_root();
    assert_eq!(PathMatchingState::Completed, state);
    assert!(next_matcher.is_none());
}

#[test]
fn test_path_pattern_scenario_exect_name() {
    let root_matcher = create_path_pattern_matcher("/aaa/bbb").unwrap();
    // root
    let (state, next_matcher) = root_matcher.matches_root();
    assert_eq!(PathMatchingState::Accepted, state);
    let mut current_matcher = next_matcher.unwrap();

    // 1st component

    // file "xxx" doesn't match the pattern
    let (state, next_matcher) = current_matcher.matches("xxx", false);
    assert_eq!(PathMatchingState::Rejected, state);
    assert!(next_matcher.is_none());

    // directory "xxx" doesn't match the pattern
    let (state, next_matcher) = current_matcher.matches("xxx", true);
    assert_eq!(PathMatchingState::Rejected, state);
    assert!(next_matcher.is_none());

    // file "aaa" doesn't match the pattern
    let (state, next_matcher) = current_matcher.matches("aaa", false);
    assert_eq!(PathMatchingState::Rejected, state);
    assert!(next_matcher.is_none());

    // directory "aaa" matches the pattern
    let (state, next_matcher) = current_matcher.matches("aaa", true);
    assert_eq!(PathMatchingState::Accepted, state);
    current_matcher = next_matcher.unwrap();

    // 2nd component

    // file "bbb" matches the pattern
    let (state, next_matcher) = current_matcher.matches("bbb", false);
    assert_eq!(PathMatchingState::Completed, state);
    assert!(next_matcher.is_none());

    // also directory "bbb" matches the pattern
    let (state, next_matcher) = current_matcher.matches("bbb", true);
    assert_eq!(PathMatchingState::Completed, state);
    assert!(next_matcher.is_none());
}

#[test]
fn test_path_pattern_scenario_file_name_pattern() {
    let root_matcher = create_path_pattern_matcher("/a*a/b*b").unwrap();
    // root
    let (state, next_matcher) = root_matcher.matches_root();
    assert_eq!(PathMatchingState::Accepted, state);
    let mut current_matcher = next_matcher.unwrap();

    // 1st component

    // file "xxx" doesn't match the pattern
    let (state, next_matcher) = current_matcher.matches("xxx", false);
    assert_eq!(PathMatchingState::Rejected, state);
    assert!(next_matcher.is_none());

    // directory "xxx" doesn't match the pattern
    let (state, next_matcher) = current_matcher.matches("xxx", true);
    assert_eq!(PathMatchingState::Rejected, state);
    assert!(next_matcher.is_none());

    // file "aaaaaa" doesn't match the pattern
    let (state, next_matcher) = current_matcher.matches("aaaaaa", false);
    assert_eq!(PathMatchingState::Rejected, state);
    assert!(next_matcher.is_none());

    // directory "aaaaaa" matches the pattern
    let (state, next_matcher) = current_matcher.matches("aaaaaa", true);
    assert_eq!(PathMatchingState::Accepted, state);
    current_matcher = next_matcher.unwrap();

    // 2nd component

    // file "bbbbbb" matches the pattern
    let (state, next_matcher) = current_matcher.matches("bbbbbb", false);
    assert_eq!(PathMatchingState::Completed, state);
    assert!(next_matcher.is_none());

    // also directory "bbbbbb" matches the pattern
    let (state, next_matcher) = current_matcher.matches("bbbbbb", true);
    assert_eq!(PathMatchingState::Completed, state);
    assert!(next_matcher.is_none());
}

#[test]
fn test_path_pattern_scenario_any_directory() {
    let root_matcher = create_path_pattern_matcher("/aaa/**/bbb").unwrap();

    // root
    let (state, next_matcher) = root_matcher.matches_root();
    assert_eq!(PathMatchingState::Accepted, state);
    let mut base_matcher = next_matcher.unwrap();

    // 1st component

    // directory "aaa" matches the pattern
    let (state, next_matcher) = base_matcher.matches("aaa", true);
    assert_eq!(PathMatchingState::Accepted, state);
    base_matcher = next_matcher.unwrap();
    // 2nd component ("**")

    // file "bbb" matches the pattern (/aaa/bbb)
    let (state, next_matcher) = base_matcher.matches("bbb", false);
    assert_eq!(PathMatchingState::Completed, state);
    assert!(next_matcher.is_none());

    // also directory "bbb" matches the pattern (/aaa/bbb)
    let (state, next_matcher) = base_matcher.matches("bbb", true);
    assert_eq!(PathMatchingState::Completed, state);
    assert!(next_matcher.is_none());
    // file "ccc" doesn't match the pattern
    let (state, next_matcher) = base_matcher.matches("ccc", false);
    assert_eq!(PathMatchingState::Rejected, state);
    assert!(next_matcher.is_none());

    // directory "ccc" matches the pattern
    let (state, next_matcher) = base_matcher.matches("ccc", true);
    assert_eq!(PathMatchingState::Accepted, state);
    base_matcher = next_matcher.unwrap();
    // 3rd component ("**")

    // file "bbb" matches the pattern (/aaa/ccc/bbb)
    let (state, next_matcher) = base_matcher.matches("bbb", false);
    assert_eq!(PathMatchingState::Completed, state);
    assert!(next_matcher.is_none());

    // also directory "bbb" matches the pattern (/aaa/ccc/bbb)
    let (state, next_matcher) = base_matcher.matches("bbb", true);
    assert_eq!(PathMatchingState::Completed, state);
    assert!(next_matcher.is_none());

    // directory "ddd" matches the pattern
    let (state, next_matcher) = base_matcher.matches("ddd", true);
    assert_eq!(PathMatchingState::Accepted, state);
    base_matcher = next_matcher.unwrap();

    // file "bbb" matches the pattern (/aaa/ccc/ddd/bbb)
    let (state, next_matcher) = base_matcher.matches("bbb", false);
    assert_eq!(PathMatchingState::Completed, state);
    assert!(next_matcher.is_none());

    // also directory "bbb" matches the pattern (/aaa/ccc/ddd/bbb)
    let (state, next_matcher) = base_matcher.matches("bbb", true);
    assert_eq!(PathMatchingState::Completed, state);
    assert!(next_matcher.is_none());
}
