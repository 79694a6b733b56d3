use yew_router::path_matcher::PathMatcher;

#[test]
fn cant_capture_numeral_idents() {
    PathMatcher::try_from("/{3hello}").expect_err("Should not parse");
}

#[test]
fn literal_only() {
    let path_matcher = PathMatcher::try_from("/hello/there/general/kenobi").expect("Should parse");
    let (_, dict) = path_matcher
        .match_path("/hello/there/general/kenobi")
        .expect("should match");
    assert_eq!(dict.entries.len(), 0);
}

#[test]
fn single_match_any_should_fail_to_match_over_separators() {
    let path_matcher = PathMatcher::try_from("/{test}/kenobi").expect("Should parse");
    assert!(path_matcher.in_sequence());
    assert!(path_matcher.match_path("/hello/there/general/kenobi").is_none());
}

#[test]
fn single_match_any_should_match_within_separator() {
    let path_matcher = PathMatcher::try_from("/{}/kenobi").expect("Should parse");
    path_matcher.match_path("/hello/kenobi").expect("should match");
}

#[test]
fn path_matcher_is_case_sensitive() {
    let path_matcher = PathMatcher::try_from("/hello").expect("Should parse");
    assert!(path_matcher.match_path("/HeLLo").is_none());
    let (rest, _) = path_matcher.match_path("/hello/more").expect("should match");
    assert_eq!(rest, "/more".to_string());
}

#[test]
fn capture_names_are_listed_once() {
    let path_matcher =
        PathMatcher::try_from("/{a}/{*:b}/{2:a}?q={c}#(x{d})").expect("Should parse");
    let mut names = path_matcher.capture_names();
    names.sort();
    assert_eq!(names, vec!["a".to_string(), "b".to_string(), "c".to_string(), "d".to_string()]);
}

#[test]
fn capture_names_skip_unnamed() {
    let path_matcher = PathMatcher::try_from("/{}/{*}/{3}").expect("Should parse");
    assert!(path_matcher.capture_names().is_empty());
}

#[test]
fn fixed_matcher_string_matches_itself() {
    for s in ["/a/path?lorem=ipsum#frag", "/", "?q=one", "#top", "/a/b/", "/x?a=b&c=d"] {
        let path_matcher = PathMatcher::try_from(s).expect("Should parse");
        let (rest, caps) = path_matcher.match_path(s).expect("should match itself");
        assert_eq!(rest, "".to_string());
        assert!(caps.is_empty());
    }
}

#[test]
fn section_captures() {
    for (pattern, route, key, value) in [
        ("/{a}/{b}#({c})", "/x/y#z", "c", "z"),
        ("?q={v}&r={w}", "?q=1&r=2", "w", "2"),
        ("/{2:a}/x", "/p/q/x", "a", "p/q"),
        ("/{2:a}", "/p/q", "a", "pq"),
        ("/{*:a}/x", "/p/q/x", "a", "p/q"),
        ("/{*:a}", "/", "a", ""),
    ] {
        let path_matcher = PathMatcher::try_from(pattern).expect("Should parse");
        assert!(path_matcher.in_sequence());
        let (rest, caps) = path_matcher.match_path(route).expect("should match");
        assert_eq!(rest, "".to_string());
        assert_eq!(caps.get(key), Some(value.to_string()));
    }
}

#[test]
fn unnamed_capture_at_the_end_takes_nothing_or_a_slash() {
    let path_matcher = PathMatcher::try_from("/a/{}").expect("Should parse");
    assert_eq!(path_matcher.match_path("/a/").expect("should match").0, "".to_string());
    assert_eq!(path_matcher.match_path("/a//").expect("should match").0, "".to_string());
    assert_eq!(path_matcher.match_path("/a/b/c").expect("should match").0, "/c".to_string());
}

#[test]
fn optional_section_is_skipped_when_absent() {
    let path_matcher = PathMatcher::try_from("/a(#{b})").expect("Should parse");
    assert!(path_matcher.in_sequence());
    let (rest, caps) = path_matcher.match_path("/a").expect("should match");
    assert_eq!(rest, "".to_string());
    assert!(caps.is_empty());
    let (_, caps) = path_matcher.match_path("/a#x").expect("should match");
    assert_eq!(caps.get("b"), Some("x".to_string()));
}

#[test]
fn capture_before_optional_is_out_of_sequence() {
    let path_matcher = PathMatcher::try_from("/{a}(#{b})").expect("Should parse");
    assert!(!path_matcher.in_sequence());
}

#[test]
fn query_value_cannot_begin_with_a_digit() {
    assert!(PathMatcher::try_from("?q=1").is_err());
}

use yew_router::optimizer::optimize_tokens;
use yew_router::token::{CaptureVariant, RouteParserToken as Token};

fn from_tokens(tokens: Vec<Token>) -> PathMatcher {
    PathMatcher { tokens: optimize_tokens(tokens) }
}

#[test]
fn lib_basic_separator() {
    let path_matcher = from_tokens(vec![Token::Separator]);
    path_matcher.match_path("/").expect("should parse");
}

#[test]
fn lib_multiple_tokens() {
    let tokens = vec![Token::Separator, Token::Match("hello".to_string()), Token::Separator];
    let path_matcher = from_tokens(tokens);
    path_matcher.match_path("/hello/").expect("should parse");
}

#[test]
fn lib_simple_capture() {
    let tokens = vec![
        Token::Separator,
        Token::Capture(CaptureVariant::Named("hello".to_string())),
        Token::Separator,
    ];
    let path_matcher = from_tokens(tokens);
    let (_, matches) = path_matcher.match_path("/general_kenobi/").expect("should parse");
    assert_eq!(matches.get("hello"), Some("general_kenobi".to_string()))
}

#[test]
fn lib_simple_capture_with_no_trailing_separator() {
    let tokens = vec![Token::Separator, Token::Capture(CaptureVariant::Named("hello".to_string()))];
    let path_matcher = from_tokens(tokens);
    let (_, matches) = path_matcher.match_path("/general_kenobi").expect("should parse");
    assert_eq!(matches.get("hello"), Some("general_kenobi".to_string()))
}

#[test]
fn lib_match_with_trailing_match_any() {
    let tokens = vec![
        Token::Separator,
        Token::Match("a".to_string()),
        Token::Separator,
        Token::Capture(CaptureVariant::Unnamed),
    ];
    let path_matcher = from_tokens(tokens);
    let (_, _matches) = path_matcher.match_path("/a/").expect("should parse");
}

#[test]
fn match_n() {
    let tokens = vec![
        Token::Separator,
        Token::Capture(CaptureVariant::NumberedUnnamed { sections: 3 }),
        Token::Separator,
        Token::Match("a".to_string()),
    ];
    let path_matcher = from_tokens(tokens);
    let (_, _matches) = path_matcher.match_path("/garbage1/garbage2/garbage3/a").expect("should parse");
}

#[test]
fn match_n_no_overrun() {
    let tokens = vec![Token::Separator, Token::Capture(CaptureVariant::NumberedUnnamed { sections: 3 })];
    let path_matcher = from_tokens(tokens);
    let (s, _matches) = path_matcher.match_path("/garbage1/garbage2/garbage3").expect("should parse");
    assert_eq!(s.len(), 0)
}

#[test]
fn match_n_named() {
    let tokens = vec![
        Token::Separator,
        Token::Capture(CaptureVariant::NumberedNamed { sections: 3, name: "captured".to_string() }),
        Token::Separator,
        Token::Match("a".to_string()),
    ];
    let path_matcher = from_tokens(tokens);
    let (_, matches) = path_matcher.match_path("/garbage1/garbage2/garbage3/a").expect("should parse");
    assert_eq!(matches.get("captured"), Some("garbage1/garbage2/garbage3".to_string()))
}

#[test]
fn match_many() {
    let tokens = vec![
        Token::Separator,
        Token::Capture(CaptureVariant::ManyUnnamed),
        Token::Separator,
        Token::Match("a".to_string()),
    ];
    let path_matcher = from_tokens(tokens);
    let (_, _matches) = path_matcher.match_path("/garbage1/garbage2/garbage3/a").expect("should parse");
}

#[test]
fn match_many_named() {
    let tokens = vec![
        Token::Separator,
        Token::Capture(CaptureVariant::ManyNamed("captured".to_string())),
        Token::Separator,
        Token::Match("a".to_string()),
    ];
    let path_matcher = from_tokens(tokens);
    let (_, matches) = path_matcher.match_path("/garbage1/garbage2/garbage3/a").expect("should parse");
    assert_eq!(matches.get("captured"), Some("garbage1/garbage2/garbage3".to_string()))
}

#[test]
fn match_records_every_capture_name() {
    let path_matcher = PathMatcher::try_from("/{a}/{*:b}?q={c}").expect("Should parse");
    let (_, caps) = path_matcher.match_path("/x/y/z?q=w").expect("should match");
    let mut keys: Vec<String> = caps.entries.iter().map(|(k, _)| k.clone()).collect();
    keys.sort();
    let mut names = path_matcher.capture_names();
    names.sort();
    assert_eq!(keys, names);
}
