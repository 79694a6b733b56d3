//! Which content a route child of a router shows.
use vstd::prelude::*;

verus! {

/// What a route child shows for the current route.
#[derive(Debug, Clone, Copy, PartialEq, Eq)]
pub enum ChildOutcome {
    /// Nothing: the child does not take the route.
    Nothing,
    /// What its render function produced.
    Rendered,
    /// What its render function produced, followed by its nested children.
    RenderedWithChildren,
    /// Its nested children only.
    Children,
}

/// What a route child shows. `matched` says whether its matcher took the route; `rendered`
/// is `None` where the child has no render function, and otherwise whether the render
/// function produced content for the captures; `children_present` says whether it has
/// nested children.
///
/// A child that does not match shows nothing. One that matches shows what its render
/// function produced, followed by its children where it has any; where the render
/// function produced nothing, or there is none, it shows its children, or nothing if it
/// has none.
pub fn child_outcome(matched: bool, rendered: Option<bool>, children_present: bool) -> (r: ChildOutcome)
    ensures
        !matched ==> r == ChildOutcome::Nothing,
        matched && rendered == Some(true) && children_present ==> r == ChildOutcome::RenderedWithChildren,
        matched && rendered == Some(true) && !children_present ==> r == ChildOutcome::Rendered,
        matched && rendered != Some(true) && children_present ==> r == ChildOutcome::Children,
        matched && rendered != Some(true) && !children_present ==> r == ChildOutcome::Nothing,
{
    if !matched {
        return ChildOutcome::Nothing;
    }
    match rendered {
        Some(true) => if children_present {
            ChildOutcome::RenderedWithChildren
        } else {
            ChildOutcome::Rendered
        },
        _ => if children_present {
            ChildOutcome::Children
        } else {
            ChildOutcome::Nothing
        },
    }
}

/// Which route child a router shows: the first whose outcome is not
/// [`ChildOutcome::Nothing`], or `None` where every child shows nothing.
pub fn first_shown(outcomes: &Vec<ChildOutcome>) -> (r: Option<usize>)
    ensures
        match r {
            Some(k) => k < outcomes@.len() && outcomes@[k as int] != ChildOutcome::Nothing && forall|j: int|
                0 <= j < k ==> outcomes@[j] == ChildOutcome::Nothing,
            None => forall|j: int| 0 <= j < outcomes@.len() ==> outcomes@[j] == ChildOutcome::Nothing,
        },
{
    let mut k: usize = 0;
    while k < outcomes.len()
        invariant
            k <= outcomes@.len(),
            forall|j: int| 0 <= j < k ==> outcomes@[j] == ChildOutcome::Nothing,
        decreases outcomes@.len() - k,
    {
        if !matches!(outcomes[k], ChildOutcome::Nothing) {
            return Some(k);
        }
        k = k + 1;
    }
    None
}

} // verus!
