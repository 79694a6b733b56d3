use yew_router::flat_matcher::{
    create_path_matcher, delimiter_lookup, OptimizedToken, PathMatcher, Token,
};

fn m(s: &str) -> Token {
    Token::Match(s.to_string())
}

fn cap(s: &str) -> Token {
    Token::Capture { ident: s.to_string() }
}

#[test]
fn path_matcher_basic_separator() {
    let tokens = vec![Token::Separator];
    let path_matcher = PathMatcher::from_tokens(tokens);
    path_matcher.match_path("/").expect("should parse");
}

#[test]
fn path_matcher_multiple_tokens() {
    let tokens = vec![Token::Separator, m("hello"), Token::Separator];
    let path_matcher = PathMatcher::from_tokens(tokens);
    assert_eq!(path_matcher.tokens, vec![OptimizedToken::Match("/hello/".to_string())]);
    path_matcher.match_path("/hello/").expect("should parse");
}

#[test]
fn path_matcher_simple_capture() {
    let tokens = vec![Token::Separator, cap("hello"), Token::Separator];
    let path_matcher = PathMatcher::from_tokens(tokens);
    let (_, dict) = path_matcher.match_path("/general_kenobi/").expect("should parse");
    assert_eq!(dict.get("hello"), Some("general_kenobi".to_string()))
}

#[test]
fn path_matcher_simple_capture_with_no_trailing_separator() {
    let tokens = vec![Token::Separator, cap("hello")];
    let path_matcher = PathMatcher::from_tokens(tokens);
    let (_, dict) = path_matcher.match_path("/general_kenobi").expect("should parse");
    assert_eq!(dict.get("hello"), Some("general_kenobi".to_string()))
}

#[test]
fn match_with_trailing_match_any() {
    let tokens = vec![Token::Separator, m("a"), Token::Separator, Token::MatchAny];
    let path_matcher = PathMatcher::from_tokens(tokens);
    let (_, _dict) = path_matcher.match_path("/a/").expect("should parse");
}

#[test]
fn flat_capture_does_not_cross_separators() {
    let tokens = vec![Token::Separator, cap("test"), Token::Separator, m("kenobi")];
    let path_matcher = PathMatcher::from_tokens(tokens);
    assert_eq!(
        path_matcher.tokens,
        vec![
            OptimizedToken::Match("/".to_string()),
            OptimizedToken::Capture { ident: "test".to_string() },
            OptimizedToken::Match("/kenobi".to_string()),
        ]
    );
    assert!(path_matcher.match_path("/hello/there/general/kenobi").is_none());
    let (rest, dict) = path_matcher.match_path("/hello/kenobi").expect("should match");
    assert_eq!(rest, "".to_string());
    assert_eq!(dict.get("test"), Some("hello".to_string()));
}

#[test]
fn flat_match_any_records_nothing() {
    let tokens = vec![Token::Separator, Token::MatchAny, Token::Separator, m("end")];
    let path_matcher = PathMatcher::from_tokens(tokens);
    let (rest, dict) = path_matcher.match_path("/anything/end/more").expect("should match");
    assert_eq!(rest, "/more".to_string());
    assert!(dict.is_empty());
}

#[test]
fn flat_query_value_is_recorded_under_its_key() {
    let tokens = vec![
        Token::QueryBegin,
        Token::QueryCapture { ident: "a".to_string(), value: "first".to_string() },
        Token::QuerySeparator,
        Token::QueryCapture { ident: "b".to_string(), value: "second".to_string() },
    ];
    let path_matcher = PathMatcher::from_tokens(tokens);
    let (rest, dict) = path_matcher.match_path("?a=one/x&b=two").expect("should match");
    assert_eq!(rest, "".to_string());
    assert_eq!(dict.get("first"), Some("one/x".to_string()));
    assert_eq!(dict.get("second"), Some("two".to_string()));
    let mut names = path_matcher.capture_names();
    names.sort();
    assert_eq!(names, vec!["first".to_string(), "second".to_string()]);
}

#[test]
fn flat_capture_needs_at_least_one_character() {
    let tokens = vec![Token::Separator, cap("x")];
    let path_matcher = PathMatcher::from_tokens(tokens);
    assert!(path_matcher.match_path("/").is_none());
}

#[test]
fn flat_capture_names_once() {
    let tokens = vec![cap("a"), Token::Separator, cap("a"), Token::Separator, Token::MatchAny];
    let path_matcher = PathMatcher::from_tokens(tokens);
    assert_eq!(path_matcher.capture_names(), vec!["a".to_string()]);
}

#[test]
fn delimiters_of_literal_tokens() {
    assert_eq!(delimiter_lookup(&Token::Separator), "/");
    assert_eq!(delimiter_lookup(&m("abc")), "abc");
    assert_eq!(delimiter_lookup(&Token::QueryBegin), "?");
    assert_eq!(delimiter_lookup(&Token::QuerySeparator), "&");
    assert_eq!(delimiter_lookup(&Token::FragmentBegin), "#");
}

#[test]
fn token_matcher_captures_up_to_delimiter() {
    let tokens = vec![Token::Separator, cap("id"), Token::Separator, m("x")];
    let (rest, dict) = create_path_matcher("/a.b c/x/y", tokens).expect("should match");
    assert_eq!(rest, "/y".to_string());
    assert_eq!(dict.get("id"), Some("a.b c".to_string()));
}

#[test]
fn token_matcher_last_capture_takes_identifier() {
    let tokens = vec![
        Token::QueryBegin,
        Token::QueryCapture { ident: "q".to_string(), value: "v".to_string() },
    ];
    let (rest, dict) = create_path_matcher("?q=hello-there", tokens).expect("should match");
    assert_eq!(rest, "-there".to_string());
    assert_eq!(dict.get("v"), Some("hello".to_string()));
}

#[test]
fn token_matcher_refuses_missing_delimiter() {
    let tokens = vec![Token::Separator, Token::MatchAny, Token::FragmentBegin];
    assert!(create_path_matcher("/abc", tokens).is_none());
    let tokens = vec![Token::Separator, cap("n")];
    assert!(create_path_matcher("/9abc", tokens).is_none());
}

use yew_router::flat_matcher::tokens_are_delimited;

#[test]
fn delimitation_checks() {
    let ok = vec![Token::Separator, cap("a"), Token::Separator, Token::MatchAny];
    assert!(tokens_are_delimited(&ok));
    assert!(PathMatcher::from_tokens(ok).is_delimited());
    let bad = vec![cap("a"), Token::MatchAny];
    assert!(!tokens_are_delimited(&bad));
    assert!(!PathMatcher::from_tokens(bad).is_delimited());
    assert!(tokens_are_delimited(&vec![]));
}

#[test]
fn flat_match_records_every_capture_name() {
    let tokens = vec![Token::Separator, cap("a"), Token::QueryBegin, Token::QueryCapture { ident: "lorem".to_string(), value: "ipsum".to_string() }];
    let path_matcher = PathMatcher::from_tokens(tokens);
    let (_, caps) = path_matcher.match_path("/x?lorem=y").expect("should match");
    let mut keys: Vec<String> = caps.entries.iter().map(|(k, _)| k.clone()).collect();
    keys.sort();
    let mut names = path_matcher.capture_names();
    names.sort();
    assert_eq!(keys, names);
    assert_eq!(names, vec!["a".to_string(), "ipsum".to_string()]);
}
