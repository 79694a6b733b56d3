use yew_router::optimizer::{optimize_tokens, parse_str_and_optimize_tokens, MatcherToken};
use yew_router::parser::{capture_exec, fragment_exec, parse, path_exec, query_exec, section_exec};
use yew_router::token::{CaptureOrMatch, CaptureVariant, RouteParserToken};

fn chars(s: &str) -> Vec<char> {
    s.chars().collect()
}

fn m(s: &str) -> RouteParserToken {
    RouteParserToken::Match(s.to_string())
}

#[test]
fn mod_parse_can_handle_multiple_literals() {
    let parsed = parse("/hello/there").expect("should parse");
    assert_eq!(
        parsed,
        vec![RouteParserToken::Separator, m("hello"), RouteParserToken::Separator, m("there")]
    );
}

#[test]
fn mod_parse_can_handle_trailing_path_separator() {
    let parsed = parse("/hello/").expect("should parse");
    assert_eq!(
        parsed,
        vec![RouteParserToken::Separator, m("hello"), RouteParserToken::Separator]
    );
}

#[test]
fn mod_parse_can_capture_section() {
    let parsed = parse("/hello/{there}").expect("should parse");
    assert_eq!(
        parsed,
        vec![
            RouteParserToken::Separator,
            m("hello"),
            RouteParserToken::Separator,
            RouteParserToken::Capture(CaptureVariant::Named("there".to_string())),
        ]
    )
}

#[test]
fn mod_parse_can_handle_multiple_matches_per_section() {
    let parsed = parse("/hello/{there}general{}").expect("should parse");
    assert_eq!(
        parsed,
        vec![
            RouteParserToken::Separator,
            m("hello"),
            RouteParserToken::Separator,
            RouteParserToken::Capture(CaptureVariant::Named("there".to_string())),
            m("general"),
            RouteParserToken::Capture(CaptureVariant::Unnamed)
        ]
    )
}

#[test]
fn mod_parser_cant_contain_multiple_matches_in_a_row_0() {
    parse("/path*{match}").expect_err("Should not validate");
}

#[test]
fn mod_parser_cant_contain_multiple_matches_in_a_row_1() {
    parse("/path{match1}{match2}").expect_err("Should not validate");
}

#[test]
fn mod_parser_cant_contain_multiple_matches_in_a_row_2() {
    parse("/path{}{}").expect_err("Should not validate");
}

#[test]
fn mod_parse_consumes_all_input() {
    parse("/hello/{").expect_err("Should not complete");
}

#[test]
fn can_match_in_first_section() {
    parse("{any}").expect("Should validate");
}

#[test]
fn path_path_must_start_with_separator() {
    assert!(path_exec(&chars("hello"), 0).is_none());
    let parsed = parse("/hello").expect("should parse");
    assert_eq!(parsed, vec![RouteParserToken::Separator, m("hello")])
}

fn path_consumes_all(s: &str) -> bool {
    let c = chars(s);
    match path_exec(&c, 0) {
        Some((_, e)) => e == c.len(),
        None => false,
    }
}

#[test]
fn path_path_cant_contain_multiple_matches_in_a_row_0() {
    assert!(!path_consumes_all("/path*{match}"));
}

#[test]
fn path_path_cant_contain_multiple_matches_in_a_row_1() {
    assert!(!path_consumes_all("/path{match1}{match2}"));
}

#[test]
fn path_path_cant_contain_multiple_matches_in_a_row_2() {
    assert!(!path_consumes_all("/path{}{}"));
}

#[test]
fn path_section_matchers_falis_to_match() {
    assert!(section_exec(&chars("{aoeu"), 0).is_none());
}

#[test]
fn empty_fragment() {
    fragment_exec(&chars("#"), 0).expect("should parse");
}

#[test]
fn simple_fragment() {
    fragment_exec(&chars("#hello"), 0).expect("should parse");
}

#[test]
fn optional_fragment() {
    let (t, e) = fragment_exec(&chars("#(hello)"), 0).expect("should parse");
    assert_eq!(e, 8);
    assert_eq!(t, vec![RouteParserToken::FragmentBegin, RouteParserToken::Optional(vec![m("hello")])]);
}

#[test]
fn entirely_optional_simple_fragment() {
    let (t, e) = fragment_exec(&chars("(#)"), 0).expect("should parse");
    assert_eq!(e, 3);
    assert_eq!(t, vec![RouteParserToken::Optional(vec![RouteParserToken::FragmentBegin])]);
}

#[test]
fn entirely_optional_fragment() {
    fragment_exec(&chars("(#hello)"), 0).expect("should parse");
}

#[test]
fn capture_variants_are_read() {
    let cases = vec![
        ("{}", CaptureVariant::Unnamed),
        ("{*}", CaptureVariant::ManyUnnamed),
        ("{4}", CaptureVariant::NumberedUnnamed { sections: 4 }),
        ("{name}", CaptureVariant::Named("name".to_string())),
        ("{*:name}", CaptureVariant::ManyNamed("name".to_string())),
        ("{2:name}", CaptureVariant::NumberedNamed { sections: 2, name: "name".to_string() }),
    ];
    for (text, variant) in cases {
        let c = chars(text);
        let (v, e) = capture_exec(&c, 0).expect("should parse");
        assert_eq!(v, variant);
        assert_eq!(e, c.len());
    }
    assert!(capture_exec(&chars("{3hello}"), 0).is_none());
    assert!(capture_exec(&chars("{aoeu"), 0).is_none());
}

#[test]
fn query_items_are_read() {
    let (t, e) = query_exec(&chars("?a=b&c={d}"), 0).expect("should parse");
    assert_eq!(e, 10);
    assert_eq!(
        t,
        vec![
            RouteParserToken::QueryBegin,
            RouteParserToken::QueryCapture {
                ident: "a".to_string(),
                capture_or_match: CaptureOrMatch::Match("b".to_string())
            },
            RouteParserToken::QuerySeparator,
            RouteParserToken::QueryCapture {
                ident: "c".to_string(),
                capture_or_match: CaptureOrMatch::Capture(CaptureVariant::Named("d".to_string()))
            },
        ]
    );
}

#[test]
fn parse_reports_where_it_stopped() {
    assert_eq!(parse("").expect_err("empty").offset, 0);
    assert_eq!(parse("/hello//there").expect_err("double slash").offset, 7);
    assert_eq!(parse("/a?b").expect_err("bad query").offset, 2);
}

#[test]
fn optimizer_merges_literal_runs() {
    let tokens = parse("/a/{b}?x=y&z={w}#f").expect("should parse");
    let optimized = optimize_tokens(tokens);
    assert_eq!(
        optimized,
        vec![
            MatcherToken::Match("/a/".to_string()),
            MatcherToken::Capture(CaptureVariant::Named("b".to_string())),
            MatcherToken::Match("?".to_string()),
            MatcherToken::Match("x=".to_string()),
            MatcherToken::Match("y".to_string()),
            MatcherToken::Match("&".to_string()),
            MatcherToken::Match("z=".to_string()),
            MatcherToken::Capture(CaptureVariant::Named("w".to_string())),
            MatcherToken::Match("#f".to_string()),
        ]
    );
    assert_eq!(parse_str_and_optimize_tokens("/a/{b}?x=y&z={w}#f").expect("should parse"), optimized);
}

use yew_router::parser::counts_fit;

#[test]
fn section_counts_must_fit() {
    assert!(counts_fit("/{3}/{12:name}"));
    assert!(counts_fit("/no/captures"));
    assert!(!counts_fit("/{99999999999999999999999}"));
    assert!(!counts_fit("/{99999999999999999999999"));
    let max = format!("/{{{}}}", usize::MAX);
    assert!(counts_fit(&max));
}
