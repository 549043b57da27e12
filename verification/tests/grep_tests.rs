use toolshed::grep::{keep_lines, GrepError, LineFilter};

#[test]
fn matching_lines_are_kept_in_order() {
    let f = LineFilter::new("err(or)?").unwrap();
    let lines: Vec<String> = vec!["ok", "an error here", "err", "fine", "ERROR"]
        .into_iter()
        .map(String::from)
        .collect();
    assert_eq!(f.grep_lines(&lines), vec!["an error here".to_string(), "err".to_string()]);
    assert!(f.is_match("xxerr"));
    assert!(!f.is_match("e r r"));
}

#[test]
fn invalid_pattern_is_an_error() {
    match LineFilter::new("foo(bar") {
        Err(GrepError::InvalidPattern(msg)) => {
            assert_eq!(msg, regex::Regex::new("foo(bar").unwrap_err().to_string());
        }
        Ok(_) => panic!("pattern should not compile"),
    }
}

#[test]
fn keep_lines_follows_flags() {
    let lines: Vec<String> = vec!["a".to_string(), "b".to_string(), "c".to_string()];
    assert_eq!(keep_lines(&lines, &vec![true, false, true]), vec!["a".to_string(), "c".to_string()]);
    assert!(keep_lines(&lines, &vec![false, false, false]).is_empty());
}

#[test]
fn empty_pattern_matches_every_line() {
    let f = LineFilter::new("").unwrap();
    let lines: Vec<String> = vec!["".to_string(), "x".to_string()];
    assert_eq!(f.grep_lines(&lines), lines);
}

#[test]
fn filter_runs_the_pattern_it_was_built_from() {
    let f = LineFilter::new("^a+$").unwrap();
    assert!(f.is_match("aaa"));
    assert!(!f.is_match("z"));
    assert!(!f.is_match("aab"));
}
