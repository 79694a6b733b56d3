use yew_router::matcher::MatcherSettings;
use yew_router::route_matcher::RouteMatcher;

fn settings(strict: bool, complete: bool, case_insensitive: bool) -> MatcherSettings {
    MatcherSettings { strict, complete, case_insensitive }
}

#[test]
fn default_settings() {
    assert_eq!(MatcherSettings::default(), settings(false, true, false));
}

#[test]
fn route_exact_match() {
    let matcher = RouteMatcher::try_from("/lorem/ipsum/dolor/sit?amet=consectetur&adipiscing=elit#sed").expect("parses");
    assert!(matcher
        .match_route_string("/lorem/ipsum/dolor/sit?amet=consectetur&adipiscing=elit#sed")
        .is_some());
}

#[test]
fn route_capture() {
    let matcher = RouteMatcher::try_from("/lorem/ipsum/{value1}/{value2}").expect("parses");
    let captures = matcher.match_route_string("/lorem/ipsum/dolor/sit").unwrap();
    assert_eq!(captures.get("value1"), Some("dolor".to_string()));
    assert_eq!(captures.get("value2"), Some("sit".to_string()));
}

#[test]
fn route_match_many() {
    let matcher = RouteMatcher::try_from("/lorem/ipsum/{*}").expect("parses");
    assert!(matcher.match_route_string("/lorem/ipsum/dolor/sit").is_some());
    assert!(matcher.match_route_string("/lorem/ipsum/").is_some());

    let matcher = RouteMatcher::try_from("/{*}/dolor/sit").expect("parses");
    assert!(matcher.match_route_string("/lorem/ipsum/dolor/sit").is_some());
    assert!(matcher.match_route_string("/lorem/dolor/sit").is_some());
    assert!(matcher.match_route_string("/dolor/sit").is_none());
}

#[test]
fn route_trailing_optional_slash() {
    let matcher = RouteMatcher::try_from("/lorem").expect("parses");
    assert!(matcher.match_route_string("/lorem").is_some());
    assert!(matcher.match_route_string("/lorem/").is_some());

    let matcher = RouteMatcher::new("/lorem", settings(true, true, false)).expect("parses");
    assert!(matcher.match_route_string("/lorem").is_some());
    assert!(matcher.match_route_string("/lorem/").is_none());
}

#[test]
fn route_trailing_slash_before_query() {
    let matcher = RouteMatcher::try_from("/lorem?a=b").expect("parses");
    assert!(matcher.match_route_string("/lorem/?a=b").is_some());
    assert!(matcher.match_route_string("/lorem?a=b").is_some());
}

#[test]
fn route_case_insensitive() {
    let matcher = RouteMatcher::new("/lorem/ipsum", settings(false, true, true)).expect("parses");
    assert!(matcher.match_route_string("/loReM/IpSuM").is_some());
    let matcher = RouteMatcher::try_from("/lorem/ipsum").expect("parses");
    assert!(matcher.match_route_string("/loReM/IpSuM").is_none());
}

#[test]
fn route_incomplete() {
    let matcher = RouteMatcher::new("/lorem", settings(false, false, false)).expect("parses");
    assert!(matcher.match_route_string("/lorem/ipsum").is_some());
    let matcher = RouteMatcher::try_from("/lorem").expect("parses");
    assert!(matcher.match_route_string("/lorem/ipsum").is_none());
}

#[test]
fn route_matcher_refuses_bad_strings() {
    assert!(RouteMatcher::try_from("").is_err());
    assert!(RouteMatcher::new("//", settings(true, true, false)).is_err());
}
