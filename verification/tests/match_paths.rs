use yew_router::token::RouteParserToken;
use yew_router::matcher::{match_path_impl, next_delimiters, MatcherSettings};
use yew_router::optimizer::{optimize_tokens, parse_str_and_optimize_tokens, MatcherToken};

#[test]
fn match_paths_match_query_after_path() {
    let x = parse_str_and_optimize_tokens("/a/path?lorem=ipsum").expect("Should parse");
    match_path_impl(&x, MatcherSettings::default(), "/a/path?lorem=ipsum").expect("should match");
}

#[test]
fn match_paths_match_query_after_path_trailing_slash() {
    let x = parse_str_and_optimize_tokens("/a/path/?lorem=ipsum").expect("Should parse");
    match_path_impl(&x, MatcherSettings::default(), "/a/path/?lorem=ipsum").expect("should match");
}

#[test]
fn match_paths_match_query() {
    let x = parse_str_and_optimize_tokens("?lorem=ipsum").expect("Should parse");
    match_path_impl(&x, MatcherSettings::default(), "?lorem=ipsum").expect("should match");
}

#[test]
fn match_paths_named_capture_query() {
    let x = parse_str_and_optimize_tokens("?lorem={ipsum}").expect("Should parse");
    let (_, matches) =
        match_path_impl(&x, MatcherSettings::default(), "?lorem=ipsum").expect("should match");
    assert_eq!(matches.get("ipsum"), Some("ipsum".to_string()))
}

#[test]
fn match_n_paths_3() {
    let x = parse_str_and_optimize_tokens("/{*:cap}/thing").expect("Should parse");
    let matches = match_path_impl(&x, MatcherSettings::default(), "/anything/other/thing")
        .expect("should match")
        .1;
    assert_eq!(matches.get("cap"), Some("anything/other".to_string()))
}

#[test]
fn match_n_paths_4() {
    let x = parse_str_and_optimize_tokens("/{*:cap}/thing").expect("Should parse");
    let matches = match_path_impl(&x, MatcherSettings::default(), "/anything/thing/thing")
        .expect("should match")
        .1;
    assert_eq!(matches.get("cap"), Some("anything".to_string()))
}

#[test]
fn match_path_5() {
    let x = parse_str_and_optimize_tokens("/{cap}/thing").expect("Should parse");
    let matches = match_path_impl(&x, MatcherSettings::default(), "/anything/thing/thing")
        .expect("should match")
        .1;
    assert_eq!(matches.get("cap"), Some("anything".to_string()))
}

#[test]
fn match_paths_match_fragment() {
    let x = parse_str_and_optimize_tokens("#test").expect("Should parse");
    match_path_impl(&x, MatcherSettings::default(), "#test").expect("should match");
}

#[test]
fn match_paths_match_fragment_after_path() {
    let x = parse_str_and_optimize_tokens("/a/path/#test").expect("Should parse");
    match_path_impl(&x, MatcherSettings::default(), "/a/path/#test").expect("should match");
}

#[test]
fn match_paths_match_fragment_after_path_no_slash() {
    let x = parse_str_and_optimize_tokens("/a/path#test").expect("Should parse");
    match_path_impl(&x, MatcherSettings::default(), "/a/path#test").expect("should match");
}

#[test]
fn match_paths_match_fragment_after_query() {
    let x = parse_str_and_optimize_tokens("/a/path?query=thing#test").expect("Should parse");
    match_path_impl(&x, MatcherSettings::default(), "/a/path?query=thing#test")
        .expect("should match");
}

#[test]
fn match_paths_match_fragment_after_query_capture() {
    let x = parse_str_and_optimize_tokens("/a/path?query={capture}#test").expect("Should parse");
    match_path_impl(&x, MatcherSettings::default(), "/a/path?query=thing#test")
        .expect("should match");
}

#[test]
fn capture_as_only_token() {
    let x = parse_str_and_optimize_tokens("{any}").expect("Should parse");
    match_path_impl(&x, MatcherSettings::default(), "literally_anything").expect("should match");
}

#[test]
fn match_paths_case_insensitive() {
    let x = parse_str_and_optimize_tokens("/hello").expect("Should parse");
    let settings = MatcherSettings {
        case_insensitive: true,
        ..Default::default()
    };
    match_path_impl(&x, settings, "/HeLLo").expect("should match");
}


#[test]
fn case_sensitive() {
    let tokens = vec![MatcherToken::Match("hello".to_string())];
    let settings = MatcherSettings { case_insensitive: false, ..Default::default() };
    match_path_impl(&tokens, settings, "hello").expect("Should match");
    assert!(match_path_impl(&tokens, settings, "HeLLo").is_none());
}

#[test]
fn util_case_insensitive() {
    let tokens = vec![MatcherToken::Match("hello".to_string())];
    let settings = MatcherSettings { case_insensitive: true, ..Default::default() };
    match_path_impl(&tokens, settings, "hello").expect("Should match");
    match_path_impl(&tokens, settings, "HeLLo").expect("Should match");
}

use yew_router::matcher::tokens_well_formed;
use yew_router::token::CaptureVariant;

#[test]
fn well_formedness_check() {
    let ok = parse_str_and_optimize_tokens("/{a}/b(#{c})").expect("Should parse");
    assert!(tokens_well_formed(&ok));
    let bad = vec![
        MatcherToken::Capture(CaptureVariant::Unnamed),
        MatcherToken::Capture(CaptureVariant::Unnamed),
    ];
    assert!(!tokens_well_formed(&bad));
}

fn lit(s: &str) -> MatcherToken {
    MatcherToken::Match(s.to_string())
}

fn pair(a: &str, b: &str) -> (String, String) {
    (a.to_string(), b.to_string())
}

#[test]
fn delimiters_only_the_first_literal_counts() {
    let p = vec![lit("/"), lit("#")];
    assert_eq!(next_delimiters(&p, "/x"), Some(pair("x", "/")));
    assert_eq!(next_delimiters(&p, "#x"), None);
}

#[test]
fn delimiters_look_inside_optional_sections() {
    let q = vec![MatcherToken::Optional(vec![lit("?a")]), lit("#")];
    assert_eq!(next_delimiters(&q, "#x"), Some(pair("x", "#")));
    assert_eq!(next_delimiters(&q, "?ab"), Some(pair("b", "?a")));
    assert_eq!(next_delimiters(&q, "zz"), Some(pair("", "zz")));
}

#[test]
fn named_capture_does_not_cross_separators() {
    let x = parse_str_and_optimize_tokens("/{test}/kenobi").expect("Should parse");
    assert!(match_path_impl(&x, MatcherSettings::default(), "/hello/there/general/kenobi").is_none());
    let (_, caps) = match_path_impl(&x, MatcherSettings::default(), "/hello/kenobi").expect("should match");
    assert_eq!(caps.get("test"), Some("hello".to_string()));
}

#[test]
fn empty_literal_condenses_to_one_literal() {
    let out = optimize_tokens(vec![RouteParserToken::Match(String::new())]);
    assert_eq!(out, vec![lit("")]);
    assert_eq!(optimize_tokens(vec![]), vec![]);
}
