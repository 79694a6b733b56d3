//! Route matching, route parsing and route building for a client-side web router.
//!
//! A matcher string such as `/users/{id}?tab={tab}#top` is parsed into tokens,
//! the tokens are condensed into matcher tokens, and those are used to decide
//! whether a concrete route string matches, collecting the captured sections.
pub mod text;
pub mod token;
pub mod grammar;
pub mod parser;
pub mod optimizer;
pub mod shape;
pub mod self_match;
pub mod path_matcher;
pub mod flat_matcher;
pub mod regex_matcher;
pub mod from_matches;
pub mod matcher;
pub mod route_matcher;
pub mod error;
pub mod route;
pub mod route_info;
pub mod agent;
pub mod render;
pub mod numbers;
pub mod switch;
pub mod nonzero;
pub mod uuid_switch;
