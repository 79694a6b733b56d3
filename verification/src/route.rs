//! A route string together with the state stored alongside it.
use vstd::prelude::*;

verus! {

/// A route string and the state stored with it.
#[derive(Debug, Clone, PartialEq, Eq)]
pub struct Route<T> {
    /// The route string.
    pub route: String,
    /// The state stored with the route, if any.
    pub state: Option<T>,
}

impl Route<()> {
    /// A route without state.
    pub fn new_no_state(route: &str) -> (r: Self)
        ensures
            r.route@ == route@,
            r.state is None,
    {
        Route { route: route.to_owned(), state: None }
    }
}

impl<T: Default> Route<T> {
    /// A route whose state is the default value of its type.
    pub fn new_default_state(route: &str) -> (r: Self)
        ensures
            r.route@ == route@,
            r.state is Some,
    {
        Route { route: route.to_owned(), state: Some(T::default()) }
    }
}

impl<T> Route<T> {
    /// A route holding a copy of `route`, without state.
    pub fn from_str_slice(route: &str) -> (r: Self)
        ensures
            r.route@ == route@,
            r.state is None,
    {
        Route { route: route.to_owned(), state: None }
    }

    /// The route string.
    pub fn to_string(&self) -> (r: String)
        ensures
            r@ == self.route@,
    {
        self.route.clone()
    }
}

} // verus!
