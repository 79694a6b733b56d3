use yew_router::agent::{handle_request, HistoryUpdate, Recipients, RouteRequest, Subscribers};
use yew_router::render::{child_outcome, first_shown, ChildOutcome};
use yew_router::route::Route;

fn route(s: &str, state: Option<u8>) -> Route<u8> {
    Route { route: s.to_string(), state }
}

#[test]
fn change_route_pushes_and_broadcasts() {
    let a = handle_request(RouteRequest::ChangeRoute(route("/a", Some(3))));
    assert_eq!(a.history, Some(HistoryUpdate::Push("/a".to_string(), Some(3))));
    assert_eq!(a.reply, Recipients::Subscribers);
    assert!(!a.disconnect);
}

#[test]
fn replace_without_broadcast_tells_nobody() {
    let a = handle_request(RouteRequest::ReplaceRouteNoBroadcast(route("/b", None)));
    assert_eq!(a.history, Some(HistoryUpdate::Replace("/b".to_string(), None)));
    assert_eq!(a.reply, Recipients::Nobody);
    let a = handle_request(RouteRequest::ReplaceRoute(route("/b", None)));
    assert_eq!(a.reply, Recipients::Subscribers);
    let a = handle_request(RouteRequest::ChangeRouteNoBroadcast(route("/c", None)));
    assert_eq!(a.history, Some(HistoryUpdate::Push("/c".to_string(), None)));
    assert_eq!(a.reply, Recipients::Nobody);
}

#[test]
fn current_route_and_disconnect() {
    let a = handle_request::<u8>(RouteRequest::GetCurrentRoute);
    assert_eq!(a.history, None);
    assert_eq!(a.reply, Recipients::Requester);
    let a = handle_request::<u8>(RouteRequest::Disconnect);
    assert_eq!(a.history, None);
    assert_eq!(a.reply, Recipients::Nobody);
    assert!(a.disconnect);
}

#[test]
fn subscribers_are_a_set() {
    let mut s = Subscribers::new();
    s.connected(3);
    s.connected(5);
    s.connected(3);
    let mut ids = s.ids();
    ids.sort();
    assert_eq!(ids, vec![3, 5]);
    assert!(s.contains(5));
    s.disconnected(5);
    assert!(!s.contains(5));
    s.disconnected(9);
    assert_eq!(s.ids(), vec![3]);
}

#[test]
fn router_shows_the_first_child_with_content() {
    use_first_shown();
}

fn use_first_shown() {
    let n = ChildOutcome::Nothing;
    assert_eq!(first_shown(&vec![n, child_outcome(true, Some(false), false), child_outcome(true, Some(true), false)]), Some(2));
    assert_eq!(first_shown(&vec![child_outcome(false, Some(true), true), n]), None);
    assert_eq!(first_shown(&vec![]), None);
}
