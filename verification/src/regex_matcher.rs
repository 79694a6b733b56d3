//! Matching route strings with a regular expression; named groups become captures.
use vstd::prelude::*;
use crate::matcher::{pairs_view, Captures};

verus! {

/// The compiled regular expression type of the `regex` crate.
#[verifier::external_type_specification]
#[verifier::external_body]
pub struct ExRegex(regex::Regex);

/// The error type of the `regex` crate.
#[verifier::external_type_specification]
#[verifier::external_body]
pub struct ExRegexError(regex::Error);

/// Whether the `regex` crate accepts `pattern` (with default options).
pub uninterp spec fn regex_compiles(pattern: Seq<char>) -> bool;

/// Whether the regular expression `pattern` matches somewhere in `text`.
pub uninterp spec fn regex_is_match(pattern: Seq<char>, text: Seq<char>) -> bool;

/// The capture groups of `pattern` in order, group 0 first: the name of each, or `None`
/// for an unnamed group.
pub uninterp spec fn regex_capture_names(pattern: Seq<char>) -> Seq<Option<Seq<char>>>;

/// The successive non-overlapping matches of `pattern` in `text`; for each, the text of
/// each capture group in the order of [`regex_capture_names`], or `None` where a group
/// took no part in the match.
pub uninterp spec fn regex_captures(pattern: Seq<char>, text: Seq<char>) -> Seq<Seq<Option<Seq<char>>>>;

/// The model of an optional string.
pub open spec fn opt_view(o: Option<String>) -> Option<Seq<char>> {
    match o {
        Some(s) => Some(s@),
        None => None,
    }
}

/// The models of a list of optional strings.
pub open spec fn opts_view(v: Seq<Option<String>>) -> Seq<Option<Seq<char>>> {
    v.map_values(|o: Option<String>| opt_view(o))
}

/// The models of a list of lists of optional strings.
pub open spec fn rows_view(v: Seq<Vec<Option<String>>>) -> Seq<Seq<Option<Seq<char>>>> {
    v.map_values(|r: Vec<Option<String>>| opts_view(r@))
}

/// A pattern that the `regex` crate refused.
#[derive(Debug, Clone, Copy, PartialEq, Eq)]
pub struct InvalidPattern;

/// A route matcher built from a regular expression. Named groups of each match are
/// recorded as captures.
///
/// The compiled expression is always the one `regex::Regex::new` built from `pattern`:
/// both fields are private and set together only by [`RegexMatcher::new`].
pub struct RegexMatcher {
    pattern: String,
    regex: regex::Regex,
}

/// Compiles `pattern` with `regex::Regex::new`; `Ok` exactly where the crate accepts it.
#[verifier::external_body]
fn compile(pattern: &str) -> (r: Result<regex::Regex, regex::Error>)
    ensures
        r is Ok == regex_compiles(pattern@),
{
    regex::Regex::new(pattern)
}

/// `regex::Regex::is_match` on the matcher's compiled pattern: whether the pattern
/// matches somewhere in `text`.
#[verifier::external_body]
fn is_match(m: &RegexMatcher, text: &str) -> (r: bool)
    ensures
        r == regex_is_match(m.pattern@, text@),
{
    m.regex.is_match(text)
}

/// `regex::Regex::capture_names` on the matcher's compiled pattern, each name copied.
#[verifier::external_body]
fn capture_names(m: &RegexMatcher) -> (r: Vec<Option<String>>)
    ensures
        opts_view(r@) == regex_capture_names(m.pattern@),
{
    let mut r = Vec::new();
    for name in m.regex.capture_names() {
        r.push(name.map(|n| n.to_string()));
    }
    r
}

/// `regex::Regex::captures_iter` on the matcher's compiled pattern: for each match, the
/// text of each group by index (`regex::Captures::get`), copied.
#[verifier::external_body]
fn all_captures(m: &RegexMatcher, text: &str) -> (r: Vec<Vec<Option<String>>>)
    ensures
        rows_view(r@) == regex_captures(m.pattern@, text@),
{
    let mut r = Vec::new();
    for caps in m.regex.captures_iter(text) {
        let mut row = Vec::new();
        for k in 0..caps.len() {
            row.push(caps.get(k).map(|g| g.as_str().to_string()));
        }
        r.push(row);
    }
    r
}

/// The pairs that one match records: for each named group, its name and the text it took.
pub open spec fn row_pairs(names: Seq<Option<Seq<char>>>, row: Seq<Option<Seq<char>>>) -> Seq<(Seq<char>, Seq<char>)>
    decreases names.len(),
{
    if names.len() == 0 {
        Seq::empty()
    } else {
        let g = names.len() - 1;
        row_pairs(names.drop_last(), row) + match names.last() {
            Some(n) => seq![(n, row[g]->Some_0)],
            None => Seq::empty(),
        }
    }
}

/// The pairs that all matches record, match after match.
pub open spec fn all_pairs(names: Seq<Option<Seq<char>>>, rows: Seq<Seq<Option<Seq<char>>>>) -> Seq<(Seq<char>, Seq<char>)>
    decreases rows.len(),
{
    if rows.len() == 0 {
        Seq::empty()
    } else {
        all_pairs(names, rows.drop_last()) + row_pairs(names, rows.last())
    }
}

/// Every named group took part in every match.
pub open spec fn named_groups_take_part(names: Seq<Option<Seq<char>>>, rows: Seq<Seq<Option<Seq<char>>>>) -> bool {
    forall|r: int, g: int|
        0 <= r < rows.len() && 0 <= g < names.len() && #[trigger] names[g] is Some ==> g < rows[r].len()
            && #[trigger] rows[r][g] is Some
}

/// Records, for each match in `rows` and each named group, the group's name and text.
pub fn captures_from(names: &Vec<Option<String>>, rows: &Vec<Vec<Option<String>>>) -> (r: Captures)
    requires
        named_groups_take_part(opts_view(names@), rows_view(rows@)),
    ensures
        r@ == all_pairs(opts_view(names@), rows_view(rows@)),
{
    let ghost nv = opts_view(names@);
    let ghost rv = rows_view(rows@);
    let mut entries: Vec<(String, String)> = Vec::new();
    let mut r: usize = 0;
    assert(rv.take(0) =~= Seq::<Seq<Option<Seq<char>>>>::empty());
    assert(pairs_view(entries@) =~= Seq::<(Seq<char>, Seq<char>)>::empty());
    while r < rows.len()
        invariant
            nv == opts_view(names@),
            rv == rows_view(rows@),
            named_groups_take_part(nv, rv),
            r <= rows@.len(),
            pairs_view(entries@) == all_pairs(nv, rv.take(r as int)),
        decreases rows@.len() - r,
    {
        let row = &rows[r];
        let ghost row_v = rv[r as int];
        assert(row_v == opts_view(row@));
        let ghost before = pairs_view(entries@);
        let mut g: usize = 0;
        assert(nv.take(0) =~= Seq::<Option<Seq<char>>>::empty());
        while g < names.len()
            invariant
                nv == opts_view(names@),
                rv == rows_view(rows@),
                named_groups_take_part(nv, rv),
                r < rows@.len(),
                row_v == rv[r as int],
                row_v == opts_view(row@),
                g <= names@.len(),
                pairs_view(entries@) == before + row_pairs(nv.take(g as int), row_v),
            decreases names@.len() - g,
        {
            let ghost prev = pairs_view(entries@);
            assert(nv.take(g + 1).drop_last() =~= nv.take(g as int));
            match &names[g] {
                Some(n) => {
                    assert(nv[g as int] is Some);
                    assert(g < rv[r as int].len() && rv[r as int][g as int] is Some);
                    let v = match &row[g] {
                        Some(t) => t.clone(),
                        None => String::new(),
                    };
                    entries.push((n.clone(), v));
                    assert(pairs_view(entries@) =~= prev + seq![(n@, row_v[g as int]->Some_0)]);
                },
                None => {
                    assert(pairs_view(entries@) =~= prev + Seq::<(Seq<char>, Seq<char>)>::empty());
                },
            }
            g = g + 1;
            assert(pairs_view(entries@) =~= before + row_pairs(nv.take(g as int), row_v));
        }
        assert(nv.take(g as int) =~= nv);
        assert(rv.take(r + 1).drop_last() =~= rv.take(r as int));
        r = r + 1;
    }
    assert(rv.take(r as int) =~= rv);
    Captures { entries }
}

/// Whether every named group took part in every match.
fn take_part(names: &Vec<Option<String>>, rows: &Vec<Vec<Option<String>>>) -> (b: bool)
    ensures
        b == named_groups_take_part(opts_view(names@), rows_view(rows@)),
{
    let ghost nv = opts_view(names@);
    let ghost rv = rows_view(rows@);
    let mut r: usize = 0;
    while r < rows.len()
        invariant
            nv == opts_view(names@),
            rv == rows_view(rows@),
            r <= rows@.len(),
            forall|i: int, g: int|
                0 <= i < r && 0 <= g < nv.len() && #[trigger] nv[g] is Some ==> g < rv[i].len()
                    && #[trigger] rv[i][g] is Some,
        decreases rows@.len() - r,
    {
        let row = &rows[r];
        assert(rv[r as int] == opts_view(row@));
        let mut g: usize = 0;
        while g < names.len()
            invariant
                nv == opts_view(names@),
                rv == rows_view(rows@),
                r < rows@.len(),
                rv[r as int] == opts_view(row@),
                g <= names@.len(),
                forall|i: int, k: int|
                    0 <= i < r && 0 <= k < nv.len() && #[trigger] nv[k] is Some ==> k < rv[i].len()
                        && #[trigger] rv[i][k] is Some,
                forall|k: int| 0 <= k < g && #[trigger] nv[k] is Some ==> k < rv[r as int].len() && rv[r as int][k] is Some,
            decreases names@.len() - g,
        {
            if names[g].is_some() {
                assert(nv[g as int] is Some);
                if g >= row.len() {
                    return false;
                }
                if row[g].is_none() {
                    assert(rv[r as int][g as int] is None);
                    return false;
                }
            }
            g = g + 1;
        }
        r = r + 1;
    }
    true
}

impl RegexMatcher {
    /// The pattern the matcher was built from.
    pub closed spec fn pattern_text(&self) -> Seq<char> {
        self.pattern@
    }

    /// Builds a matcher from a pattern; `Err` where the `regex` crate refuses it.
    pub fn new(pattern: &str) -> (r: Result<RegexMatcher, InvalidPattern>)
        ensures
            r is Ok == regex_compiles(pattern@),
            r matches Ok(m) ==> m.pattern_text() == pattern@,
    {
        match compile(pattern) {
            Ok(regex) => Ok(RegexMatcher { pattern: pattern.to_owned(), regex }),
            Err(_) => Err(InvalidPattern),
        }
    }

    /// The pattern the matcher was built from.
    pub fn as_str(&self) -> (r: &str)
        ensures
            r@ == self.pattern_text(),
    {
        self.pattern.as_str()
    }

}

/// Types that decide whether a route string matches, and what it captures. Users
/// implement it to supply their own matching rules.
pub trait MatcherProvider {
    /// The captures of `route_string`, or `None` where it does not match.
    fn match_route_string(&self, route_string: &str) -> Option<Captures>;
}

impl MatcherProvider for RegexMatcher {
    /// Matches a route string: where the pattern matches, the named groups of every match,
    /// each with the text it took (a later match's value for a name comes after an earlier
    /// one's). `None` where the pattern does not match, or where a named group took no part
    /// in a match.
    fn match_route_string(&self, route_string: &str) -> (r: Option<Captures>)
        ensures
            r is Some <==> regex_is_match(self.pattern_text(), route_string@)
                && named_groups_take_part(
                regex_capture_names(self.pattern_text()),
                regex_captures(self.pattern_text(), route_string@),
            ),
            r matches Some(c) ==> c@ == all_pairs(
                regex_capture_names(self.pattern_text()),
                regex_captures(self.pattern_text(), route_string@),
            ),
    {
        if !is_match(self, route_string) {
            return None;
        }
        let names = capture_names(self);
        let rows = all_captures(self, route_string);
        if take_part(&names, &rows) {
            Some(captures_from(&names, &rows))
        } else {
            None
        }
    }
}

/// A matcher supplied by the user: any [`MatcherProvider`], shared.
pub struct CustomMatcher(pub std::rc::Rc<dyn MatcherProvider>);

impl CustomMatcher {
    /// Matches a route string with the user's matcher.
    pub fn match_route_string(&self, route_string: &str) -> (r: Option<Captures>) {
        self.0.match_route_string(route_string)
    }
}

} // verus!
