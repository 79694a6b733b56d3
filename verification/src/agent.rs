//! The decisions of the routing agent: what each request does to the browser history, and
//! who hears about it. Carrying them out is left to the agent itself.
use vstd::prelude::*;
use crate::route::Route;
use std::collections::HashSet;

verus! {

/// A request to the routing agent.
#[derive(Debug, Clone, PartialEq, Eq)]
pub enum RouteRequest<T> {
    /// Replace the current history entry and tell every subscriber.
    ReplaceRoute(Route<T>),
    /// Replace the current history entry and tell nobody.
    ReplaceRouteNoBroadcast(Route<T>),
    /// Add a history entry and tell every subscriber.
    ChangeRoute(Route<T>),
    /// Add a history entry and tell nobody.
    ChangeRouteNoBroadcast(Route<T>),
    /// Tell the requester the current route.
    GetCurrentRoute,
    /// Forget the requester.
    Disconnect,
}

/// How the browser history changes.
#[derive(Debug, Clone, PartialEq, Eq)]
pub enum HistoryUpdate<T> {
    /// Replace the current entry with this route string and state (the state type's
    /// default where there is none).
    Replace(String, Option<T>),
    /// Add an entry with this route string and state (the state type's default where
    /// there is none).
    Push(String, Option<T>),
}

/// Who is sent the current route after a request.
#[derive(Debug, Clone, Copy, PartialEq, Eq)]
pub enum Recipients {
    /// Nobody.
    Nobody,
    /// Every subscriber.
    Subscribers,
    /// The entity that made the request.
    Requester,
}

/// What the agent does for one request.
#[derive(Debug, Clone, PartialEq, Eq)]
pub struct AgentAction<T> {
    /// The change to the browser history, if any.
    pub history: Option<HistoryUpdate<T>>,
    /// Who is then sent the current route.
    pub reply: Recipients,
    /// Whether the requester is to be forgotten.
    pub disconnect: bool,
}

/// What the agent does for a request.
pub open spec fn request_action<T>(req: RouteRequest<T>) -> (Option<(bool, Seq<char>, Option<T>)>, Recipients, bool) {
    match req {
        RouteRequest::ReplaceRoute(r) => (Some((false, r.route@, r.state)), Recipients::Subscribers, false),
        RouteRequest::ReplaceRouteNoBroadcast(r) => (Some((false, r.route@, r.state)), Recipients::Nobody, false),
        RouteRequest::ChangeRoute(r) => (Some((true, r.route@, r.state)), Recipients::Subscribers, false),
        RouteRequest::ChangeRouteNoBroadcast(r) => (Some((true, r.route@, r.state)), Recipients::Nobody, false),
        RouteRequest::GetCurrentRoute => (None, Recipients::Requester, false),
        RouteRequest::Disconnect => (None, Recipients::Nobody, true),
    }
}

/// The model of a history change: whether it adds an entry, the route string, the state.
pub open spec fn history_view<T>(h: Option<HistoryUpdate<T>>) -> Option<(bool, Seq<char>, Option<T>)> {
    match h {
        Some(HistoryUpdate::Replace(s, st)) => Some((false, s@, st)),
        Some(HistoryUpdate::Push(s, st)) => Some((true, s@, st)),
        None => None,
    }
}

/// Decides what the agent does for a request: replacing requests replace the current
/// history entry, changing requests add one; those without "no broadcast" then tell every
/// subscriber the current route; a request for the current route answers the requester;
/// a disconnect forgets the requester.
pub fn handle_request<T>(req: RouteRequest<T>) -> (r: AgentAction<T>)
    ensures
        (history_view(r.history), r.reply, r.disconnect) == request_action(req),
{
    match req {
        RouteRequest::ReplaceRoute(route) => AgentAction {
            history: Some(HistoryUpdate::Replace(route.to_string(), route.state)),
            reply: Recipients::Subscribers,
            disconnect: false,
        },
        RouteRequest::ReplaceRouteNoBroadcast(route) => AgentAction {
            history: Some(HistoryUpdate::Replace(route.to_string(), route.state)),
            reply: Recipients::Nobody,
            disconnect: false,
        },
        RouteRequest::ChangeRoute(route) => AgentAction {
            history: Some(HistoryUpdate::Push(route.to_string(), route.state)),
            reply: Recipients::Subscribers,
            disconnect: false,
        },
        RouteRequest::ChangeRouteNoBroadcast(route) => AgentAction {
            history: Some(HistoryUpdate::Push(route.to_string(), route.state)),
            reply: Recipients::Nobody,
            disconnect: false,
        },
        RouteRequest::GetCurrentRoute => AgentAction { history: None, reply: Recipients::Requester, disconnect: false },
        RouteRequest::Disconnect => AgentAction { history: None, reply: Recipients::Nobody, disconnect: true },
    }
}

/// The entities connected to the agent, each once.
#[derive(Debug, PartialEq, Eq)]
pub struct Subscribers {
    ids: HashSet<u64>,
}

impl View for Subscribers {
    type V = Set<u64>;

    closed spec fn view(&self) -> Set<u64> {
        self.ids@
    }
}

impl Subscribers {
    /// Nobody connected.
    pub fn new() -> (r: Self)
        ensures
            r@ == Set::<u64>::empty(),
    {
        Subscribers { ids: HashSet::new() }
    }

    /// Whether `id` is connected.
    pub fn contains(&self, id: u64) -> (r: bool)
        ensures
            r == self@.contains(id),
    {
        broadcast use vstd::std_specs::hash::group_hash_axioms;
        self.ids.contains(&id)
    }

    /// Connects `id`.
    pub fn connected(&mut self, id: u64)
        ensures
            final(self)@ == old(self)@.insert(id),
    {
        broadcast use vstd::std_specs::hash::group_hash_axioms;
        self.ids.insert(id);
    }

    /// Forgets `id`.
    pub fn disconnected(&mut self, id: u64)
        ensures
            final(self)@ == old(self)@.remove(id),
    {
        broadcast use vstd::std_specs::hash::group_hash_axioms;
        self.ids.remove(&id);
    }

    /// The connected identifiers, each once, in no particular order.
    pub fn ids(&self) -> (r: Vec<u64>)
        ensures
            r@.to_set() == self@,
            r@.no_duplicates(),
    {
        broadcast use vstd::std_specs::hash::group_hash_axioms;
        let mut r: Vec<u64> = Vec::new();
        assert forall|s: Seq<u64>| #[trigger] s.take(s.len() as int) == s by {
            assert(s.take(s.len() as int) =~= s);
        }
        for x in it: self.ids.iter()
            invariant
                it.seq().unref().to_set() == self.ids@,
                it.seq().unref().no_duplicates(),
                r@ == it.seq().unref().take(it.index() as int),
                forall|s: Seq<u64>| #[trigger] s.take(s.len() as int) == s,
        {
            r.push(*x);
        }
        r
    }
}

} // verus!
