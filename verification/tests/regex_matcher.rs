use std::rc::Rc;
use yew_router::matcher::Captures;
use yew_router::regex_matcher::{CustomMatcher, MatcherProvider, RegexMatcher};

#[test]
fn regex_named_groups_are_captured() {
    let m = RegexMatcher::new(r"^/user/(?P<id>\d+)/(?P<tab>[a-z]+)$").expect("valid");
    let caps = m.match_route_string("/user/42/posts").expect("should match");
    assert_eq!(caps.get("id"), Some("42".to_string()));
    assert_eq!(caps.get("tab"), Some("posts".to_string()));
    assert_eq!(caps.entries.len(), 2);
}

#[test]
fn regex_without_match_gives_none() {
    let m = RegexMatcher::new(r"^/user/(?P<id>\d+)$").expect("valid");
    assert!(m.match_route_string("/user/abc").is_none());
}

#[test]
fn regex_unnamed_groups_are_not_recorded() {
    let m = RegexMatcher::new(r"^/(a|b)/(?P<rest>.*)$").expect("valid");
    let caps = m.match_route_string("/a/x/y").expect("should match");
    assert_eq!(caps.entries, vec![("rest".to_string(), "x/y".to_string())]);
}

#[test]
fn regex_every_match_is_recorded_last_one_wins() {
    let m = RegexMatcher::new(r"(?P<d>\d)").expect("valid");
    let caps = m.match_route_string("a1b2c3").expect("should match");
    assert_eq!(caps.entries.len(), 3);
    assert_eq!(caps.get("d"), Some("3".to_string()));
}

#[test]
fn regex_group_that_takes_no_part_gives_none() {
    let m = RegexMatcher::new(r"^(?P<a>x)|(?P<b>y)$").expect("valid");
    assert!(m.match_route_string("x").is_none());
}

#[test]
fn regex_invalid_pattern_is_refused() {
    assert!(RegexMatcher::new(r"(unclosed").is_err());
    let m = RegexMatcher::new(r"^/$").expect("valid");
    assert_eq!(m.as_str(), r"^/$");
}

struct ExactMatcher(String);

impl MatcherProvider for ExactMatcher {
    fn match_route_string(&self, route_string: &str) -> Option<Captures> {
        if self.0 == route_string {
            Some(Captures::new())
        } else {
            None
        }
    }
}

#[test]
fn custom_matcher_uses_the_users_rules() {
    let m = CustomMatcher(Rc::new(ExactMatcher("/exact".to_string())));
    assert!(m.match_route_string("/exact").is_some());
    assert!(m.match_route_string("/other").is_none());
    let r = CustomMatcher(Rc::new(RegexMatcher::new(r"^/(?P<x>\w+)$").expect("valid")));
    assert_eq!(
        r.match_route_string("/abc").expect("should match").get("x"),
        Some("abc".to_string())
    );
}
