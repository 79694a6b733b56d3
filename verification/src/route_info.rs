//! A route string, possibly split into path, query and fragment, with associated state.
use vstd::prelude::*;
use crate::text::append_str;

verus! {

/// Any state that can be stored along with a route.
pub trait RouteState: Clone + Default {}

impl<T: Clone + Default> RouteState for T {}

/// How the string of a route was obtained.
#[derive(Debug, Clone, PartialEq, Eq)]
pub enum RouteString {
    /// An unstructured route string.
    Unstructured(String),
    /// A route string split into its parts, each with its leading separator (`?`, `#`).
    Structured {
        /// The path.
        path: String,
        /// The query.
        query: String,
        /// The fragment.
        fragment: String,
    },
}

impl Default for RouteString {
    fn default() -> (r: Self)
        ensures
            r matches RouteString::Unstructured(s) && s@ == Seq::<char>::empty(),
    {
        RouteString::Unstructured(String::new())
    }
}

/// A route, segmented into its sections where known, with optional state.
#[derive(Debug, Clone, PartialEq, Eq)]
pub struct RouteInfo<T> {
    /// The route string.
    pub route: RouteString,
    /// The state.
    pub state: Option<T>,
}

/// The text of a route string: the unstructured string, or path, query and fragment
/// one after another.
pub open spec fn route_string_text(r: RouteString) -> Seq<char> {
    match r {
        RouteString::Unstructured(s) => s@,
        RouteString::Structured { path, query, fragment } => path@ + query@ + fragment@,
    }
}

/// Formats a path, query and fragment into one string. Each is expected to carry its
/// own separator already (`?`, `#`).
pub fn format_route_string(path: &str, query: &str, fragment: &str) -> (r: String)
    ensures
        r@ == path@ + query@ + fragment@,
{
    let mut r = String::new();
    append_str(&mut r, path);
    append_str(&mut r, query);
    append_str(&mut r, fragment);
    assert(r@ =~= path@ + query@ + fragment@);
    r
}

impl<T> RouteInfo<T> {
    /// A structured route made of the given parts, without state.
    pub fn from_route_parts(path: String, query: String, fragment: String) -> (r: Self)
        ensures
            r.route == (RouteString::Structured { path, query, fragment }),
            r.state is None,
    {
        RouteInfo { route: RouteString::Structured { path, query, fragment }, state: None }
    }

    /// An unstructured route holding `string`, without state.
    pub fn from_string(string: String) -> (r: Self)
        ensures
            r.route == RouteString::Unstructured(string),
            r.state is None,
    {
        RouteInfo { route: RouteString::Unstructured(string), state: None }
    }

    /// An unstructured route holding a copy of `string`, without state.
    pub fn from_str_slice(string: &str) -> (r: Self)
        ensures
            r.route matches RouteString::Unstructured(s) && s@ == string@,
            r.state is None,
    {
        RouteInfo { route: RouteString::Unstructured(string.to_owned()), state: None }
    }

    /// The route as one string.
    pub fn to_string(&self) -> (r: String)
        ensures
            r@ == route_string_text(self.route),
    {
        match &self.route {
            RouteString::Unstructured(s) => s.clone(),
            RouteString::Structured { path, query, fragment } => format_route_string(
                path.as_str(),
                query.as_str(),
                fragment.as_str(),
            ),
        }
    }

    /// The path, where the route is structured.
    pub fn get_path(&self) -> (r: Option<&str>)
        ensures
            match self.route {
                RouteString::Structured { path, .. } => r matches Some(p) && p@ == path@,
                RouteString::Unstructured(_) => r is None,
            },
    {
        if let RouteString::Structured { path, .. } = &self.route {
            Some(path.as_str())
        } else {
            None
        }
    }

    /// The query, where the route is structured.
    pub fn get_query(&self) -> (r: Option<&str>)
        ensures
            match self.route {
                RouteString::Structured { query, .. } => r matches Some(q) && q@ == query@,
                RouteString::Unstructured(_) => r is None,
            },
    {
        if let RouteString::Structured { query, .. } = &self.route {
            Some(query.as_str())
        } else {
            None
        }
    }

    /// The fragment, where the route is structured.
    pub fn get_fragment(&self) -> (r: Option<&str>)
        ensures
            match self.route {
                RouteString::Structured { fragment, .. } => r matches Some(f) && f@ == fragment@,
                RouteString::Unstructured(_) => r is None,
            },
    {
        if let RouteString::Structured { fragment, .. } = &self.route {
            Some(fragment.as_str())
        } else {
            None
        }
    }
}

} // verus!
