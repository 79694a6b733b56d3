use yew_router::matcher::{match_path_list, MatcherSettings};
use yew_router::optimizer::parse_str_and_optimize_tokens;
use yew_router::render::{child_outcome, ChildOutcome};
use yew_router::route::Route;
use yew_router::route_info::{format_route_string, RouteInfo, RouteString};

#[test]
fn routes_without_and_with_default_state() {
    let r = Route::new_no_state("/a");
    assert_eq!(r.route, "/a");
    assert_eq!(r.state, None);
    let r: Route<u32> = Route::new_default_state("/b");
    assert_eq!(r.state, Some(0));
    assert_eq!(r.to_string(), "/b");
    let r: Route<u32> = Route::from_str_slice("/c");
    assert_eq!(r.state, None);
}

#[test]
fn route_info_parts_and_text() {
    let r: RouteInfo<()> =
        RouteInfo::from_route_parts("/p".to_string(), "?q=1".to_string(), "#f".to_string());
    assert_eq!(r.to_string(), "/p?q=1#f");
    assert_eq!(r.get_path(), Some("/p"));
    assert_eq!(r.get_query(), Some("?q=1"));
    assert_eq!(r.get_fragment(), Some("#f"));
    let u: RouteInfo<()> = RouteInfo::from_string("/x?y#z".to_string());
    assert_eq!(u.to_string(), "/x?y#z");
    assert_eq!(u.get_path(), None);
    assert_eq!(u.get_query(), None);
    assert_eq!(u.get_fragment(), None);
    let s: RouteInfo<()> = RouteInfo::from_str_slice("/s");
    assert_eq!(s.route, RouteString::Unstructured("/s".to_string()));
    assert_eq!(RouteString::default(), RouteString::Unstructured(String::new()));
    assert_eq!(format_route_string("/a", "", "#b"), "/a#b");
}

#[test]
fn match_list_keeps_every_capture_in_order() {
    let tokens = parse_str_and_optimize_tokens("/{a}/{b}/{a}").expect("Should parse");
    let (rest, caps) =
        match_path_list(&tokens, &MatcherSettings::default(), "/1/2/3").expect("should match");
    assert_eq!(rest, "");
    assert_eq!(
        caps,
        vec![
            ("a".to_string(), "1".to_string()),
            ("b".to_string(), "2".to_string()),
            ("a".to_string(), "3".to_string())
        ]
    );
}

#[test]
fn route_child_outcomes() {
    assert_eq!(child_outcome(false, Some(true), true), ChildOutcome::Nothing);
    assert_eq!(child_outcome(true, Some(true), true), ChildOutcome::RenderedWithChildren);
    assert_eq!(child_outcome(true, Some(true), false), ChildOutcome::Rendered);
    assert_eq!(child_outcome(true, Some(false), true), ChildOutcome::Children);
    assert_eq!(child_outcome(true, None, false), ChildOutcome::Nothing);
}
