//! Building values from the captures of a matched route.
use vstd::prelude::*;
use crate::matcher::{lookup, Captures};
use crate::text::append_str;

verus! {

/// Why a value could not be built from captures.
#[derive(Debug, Clone, PartialEq, Eq)]
pub enum FromMatchesError {
    /// A capture the value needs was not recorded.
    MissingField {
        /// The name of the missing capture.
        field_name: String,
    },
    /// A captured text could not be converted; the message says why.
    Error(String),
    /// A captured text could not be converted, for no known reason.
    UnknownErr,
}

/// How an error is shown to a user.
pub open spec fn from_matches_error_text(e: FromMatchesError) -> Seq<char> {
    match e {
        FromMatchesError::MissingField { field_name } => "The field: '"@ + field_name@
            + "' was not present in your path matcher."@,
        FromMatchesError::Error(message) => message@,
        FromMatchesError::UnknownErr => "unknown error"@,
    }
}

impl FromMatchesError {
    /// The error as shown to a user.
    pub fn to_string(&self) -> (r: String)
        ensures
            r@ == from_matches_error_text(*self),
    {
        match self {
            FromMatchesError::MissingField { field_name } => {
                let mut r = String::new();
                append_str(&mut r, "The field: '");
                append_str(&mut r, field_name.as_str());
                append_str(&mut r, "' was not present in your path matcher.");
                r
            },
            FromMatchesError::Error(message) => message.clone(),
            FromMatchesError::UnknownErr => "unknown error".to_owned(),
        }
    }
}

/// Types whose values can be built from the captures of a matched route.
pub trait FromMatches: Sized {
    /// Builds a value from the captures.
    fn from_matches(matches: &Captures) -> Result<Self, FromMatchesError>;

    /// Checks that the capture names a matcher can record are the ones the type needs;
    /// meant to be used before any route is matched.
    fn verify(field_names: &Vec<String>) {
    }
}

/// The text recorded last under `name`, or the error that names the missing capture.
pub fn required_field(matches: &Captures, name: &str) -> (r: Result<String, FromMatchesError>)
    ensures
        match r {
            Ok(v) => lookup(matches@, name@) == Some(v@),
            Err(e) => lookup(matches@, name@) is None && (e matches FromMatchesError::MissingField {
                field_name,
            } && field_name@ == name@),
        },
{
    match matches.get(name) {
        Some(v) => Ok(v),
        None => Err(FromMatchesError::MissingField { field_name: name.to_owned() }),
    }
}

} // verus!
