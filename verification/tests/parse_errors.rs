use yew_router::error::{
    bad_capture, double_slash, offset, ExpectedConstruct as Ec, YewRouterParseError,
    CAPTURE_BLOCK_LONG, CAPTURE_BLOCK_SHORT, DOUBLE_SLASHES_NOT_ALLOWED, EMPTY_MATCH_NOT_ALLOWED,
};
use yew_router::parser::parse;

fn report(input: &str) -> YewRouterParseError<'_> {
    let failure = parse(input).expect_err("should fail");
    YewRouterParseError::from_verbose_error(input, failure)
}

#[test]
fn double_slash_true() {
    assert!(double_slash("//hello", "/hello", 1))
}

#[test]
fn double_slash_true_in_later_substring() {
    assert!(double_slash("/hello//there", "/there", 7))
}

#[test]
fn double_slash_reject_same() {
    assert!(!double_slash("/hello", "/hello", 0))
}

#[test]
fn double_slash_reject_displaced_substring() {
    assert!(!double_slash("/hello/there", "/there", 6))
}

#[test]
fn bad_capture_first_character_reject() {
    let input = "/hello/{}";
    let substring = "{}";
    let offset = offset(input, substring);
    assert!(!bad_capture(input, substring, offset))
}

#[test]
fn bad_capture_first_character_true() {
    assert!(bad_capture("/hello/{{}}", "{{}}", 7))
}

#[test]
fn bad_capture_bad_char_after_ident_true() {
    assert!(bad_capture("/hello/{identifier(}", "{identifier(}", 7))
}

#[test]
fn double_slash_error() {
    let input = "/hello//there";
    let error = report(input);
    let expected = YewRouterParseError {
        input,
        offset: 7,
        expected: vec![Ec::ExactText, Ec::OpenBrace, Ec::OpenParen, Ec::Question, Ec::Hash],
        reason: Some(DOUBLE_SLASHES_NOT_ALLOWED.to_string()),
    };
    assert_eq!(error, expected)
}

#[test]
fn double_slash_error_displays_correctly() {
    let input = "/hello//there";
    let error = report(input);
    let printed_error = error.to_string();
    let expected = r##"
/hello//there
-------^
Expected one of: <Exact Text>, '{', '(', '?', '#'.
Message:         'Double slashes ('//') are not allowed.'"##;
    assert_eq!(printed_error, expected);
}

#[test]
fn double_slash_simple_error() {
    let input = "//";
    let error = report(input);
    let expected = YewRouterParseError {
        input,
        offset: 1,
        expected: vec![Ec::ExactText, Ec::OpenBrace, Ec::OpenParen, Ec::Question, Ec::Hash],
        reason: Some(DOUBLE_SLASHES_NOT_ALLOWED.to_string()),
    };
    assert_eq!(error, expected)
}

#[test]
fn empty_error() {
    let input = "";
    let error = report(input);
    let expected = YewRouterParseError {
        input,
        offset: 0,
        expected: vec![Ec::Slash, Ec::Question, Ec::Hash, Ec::OpenBrace],
        reason: Some(EMPTY_MATCH_NOT_ALLOWED.to_string()),
    };
    assert_eq!(error, expected)
}

#[test]
fn nested_capture_error() {
    let input = "/hello/{{}}";
    let error = report(input);
    let expected = YewRouterParseError {
        input,
        offset: 8,
        expected: vec![
            Ec::ValidIdent,
            Ec::CloseBrace,
            Ec::Number,
            Ec::NumberColonIdent,
            Ec::Star,
            Ec::StarColonIdent,
        ],
        reason: Some(CAPTURE_BLOCK_SHORT.to_string()),
    };
    assert_eq!(error, expected)
}

#[test]
fn malformed_capture_error() {
    let input = "/hello/{/}";
    let error = report(input);
    let expected = YewRouterParseError {
        input,
        offset: 8,
        expected: vec![
            Ec::ValidIdent,
            Ec::CloseBrace,
            Ec::Number,
            Ec::NumberColonIdent,
            Ec::Star,
            Ec::StarColonIdent,
        ],
        reason: Some(CAPTURE_BLOCK_SHORT.to_string()),
    };
    assert_eq!(error, expected)
}

#[test]
fn capture_malformed_after_ident_error() {
    let input = "/hello/{ident/}";
    let error = report(input);
    let expected = YewRouterParseError {
        input,
        offset: 13,
        expected: vec![Ec::CloseBrace],
        reason: Some(CAPTURE_BLOCK_LONG.to_string()),
    };
    assert_eq!(error, expected)
}

#[test]
fn unknown_failure_is_unhandled() {
    let input = "/hello/there?";
    let error = report(input);
    assert_eq!(error.offset, 12);
    assert_eq!(error.expected, vec![Ec::UnhandledError]);
    assert_eq!(error.reason, None);
    assert_eq!(
        error.to_string(),
        "\n/hello/there?\n------------^\nExpected one of: Unhandled Error.".to_string()
    );
}

#[test]
fn from_err_always_reports() {
    let input = "//";
    let failure = parse(input).expect_err("should fail");
    let error = YewRouterParseError::from_err(input, failure).expect("a report");
    assert_eq!(error.offset, 1);
}

#[test]
fn construct_texts() {
    assert_eq!(Ec::StarColonIdent.text(), "*:<Identifier>");
    assert_eq!(Ec::NumberColonIdent.text(), "<number>:<Identifier>");
    assert_eq!(Ec::Slash.text(), "'/'");
}

#[test]
fn offsets_count_bytes() {
    assert_eq!(offset("/é/x", "/x"), 3);
    let input = "/é//";
    let error = report(input);
    assert_eq!(error.offset, 4);
    assert_eq!(error.reason, Some(DOUBLE_SLASHES_NOT_ALLOWED.to_string()));
}
