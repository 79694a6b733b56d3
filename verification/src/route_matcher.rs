//! A matcher string together with its settings: whether a trailing `/` after the path is
//! optional, whether the whole route must be used, and whether case matters.
use vstd::prelude::*;
use crate::grammar::{parse_spec, section_counts_fit};
use crate::matcher::{match_path, match_route, well_formed, Captures, MatcherSettings};
use crate::optimizer::{matcher_tokens_view, optimize_tokens, optimized, MatcherToken};
use crate::parser::{parse, ParseFailure};
use crate::shape::{good_after, guarded, is_cap, lemma_guarded_optimized, lemma_parse_guarded};
use crate::token::{lemma_tokens_view_index, token_view, tokens_view, RouteParserToken, TokenModel};

verus! {

/// The position where the path part of parsed tokens ends: the first `?` or `#`, or the
/// end.
pub open spec fn path_end(ts: Seq<TokenModel>) -> int
    decreases ts.len(),
{
    if ts.len() == 0 || ts[0] is QueryBegin || ts[0] is FragmentBegin {
        0
    } else {
        1 + path_end(ts.drop_first())
    }
}

/// An optional `/`.
pub open spec fn optional_slash() -> TokenModel {
    TokenModel::Optional(seq![TokenModel::Separator])
}

/// Whether an optional `/` may follow the path: the path is not empty and ends in a
/// literal.
pub open spec fn slash_fits(ts: Seq<TokenModel>) -> bool {
    let k = path_end(ts);
    0 < k && ts[k - 1] is Match
}

/// The tokens with an optional `/` after the path, where one fits.
pub open spec fn with_trailing_slash(ts: Seq<TokenModel>) -> Seq<TokenModel> {
    if slash_fits(ts) {
        ts.insert(path_end(ts), optional_slash())
    } else {
        ts
    }
}

/// The matcher tokens of a matcher string: the condensed tokens, where the setting is not
/// strict with an optional `/` after the path where one fits; or the offset at which
/// parsing failed.
pub open spec fn route_tokens(s: Seq<char>, strict: bool) -> Result<Seq<crate::optimizer::MatcherTokenModel>, nat> {
    match parse_spec(s) {
        Ok(ts) => Ok(optimized(if strict { ts } else { with_trailing_slash(ts) })),
        Err(e) => Err(e),
    }
}

/// The path ends within the tokens.
proof fn lemma_path_end_bounds(ts: Seq<TokenModel>)
    ensures
        0 <= path_end(ts) <= ts.len(),
    decreases ts.len(),
{
    if ts.len() > 0 && !(ts[0] is QueryBegin || ts[0] is FragmentBegin) {
        lemma_path_end_bounds(ts.drop_first());
    }
}

/// Whether the tokens after a capture are acceptable is decided by the time a literal is
/// reached.
proof fn lemma_good_after_stops(a: Seq<TokenModel>, b: Seq<TokenModel>, c: Seq<TokenModel>)
    requires
        a.len() > 0,
        a.last() is Match,
    ensures
        good_after(a + b) == good_after(a + c),
    decreases a.len(),
{
    let x = a + b;
    let y = a + c;
    assert(x[0] == a[0] && y[0] == a[0]);
    if a.len() > 1 {
        let a1 = a.drop_first();
        assert(a1.last() == a.last());
        lemma_good_after_stops(a1, b, c);
        assert(x.drop_first() =~= a1 + b);
        assert(y.drop_first() =~= a1 + c);
    }
}

/// An optional `/` after a literal keeps tokens guarded.
proof fn lemma_insert_guarded(a: Seq<TokenModel>, b: Seq<TokenModel>)
    requires
        guarded(a + b),
        a.len() > 0,
        a.last() is Match,
    ensures
        guarded(a + seq![optional_slash()] + b),
    decreases a.len(),
{
    let o = optional_slash();
    let x = a + b;
    let y = a + seq![o] + b;
    assert(y[0] == a[0] && x[0] == a[0]);
    if a.len() == 1 {
        let z = seq![o] + b;
        assert(y.drop_first() =~= z);
        assert(x.drop_first() =~= b);
        assert(z[0] == o);
        assert(z.drop_first() =~= b);
        let inner = seq![TokenModel::Separator];
        assert(inner.drop_first() =~= Seq::<TokenModel>::empty());
        assert(guarded(inner.drop_first()));
        assert(inner[0] == TokenModel::Separator);
        assert(guarded(inner));
        assert(guarded(z));
    } else {
        let a1 = a.drop_first();
        assert(a1.last() == a.last());
        assert(x.drop_first() =~= a1 + b);
        assert(y.drop_first() =~= a1 + seq![o] + b);
        lemma_insert_guarded(a1, b);
        if is_cap(a[0]) {
            lemma_good_after_stops(a1, b, seq![o] + b);
            assert(a1 + (seq![o] + b) =~= a1 + seq![o] + b);
        }
    }
}

/// The matcher tokens of a matcher string that parses are well formed, with or without
/// the optional `/`.
pub proof fn lemma_route_tokens_well_formed(s: Seq<char>, strict: bool)
    requires
        parse_spec(s) is Ok,
    ensures
        route_tokens(s, strict) is Ok,
        well_formed(route_tokens(s, strict)->Ok_0),
{
    let ts = parse_spec(s)->Ok_0;
    lemma_parse_guarded(s);
    if !strict && slash_fits(ts) {
        let k = path_end(ts);
        lemma_path_end_bounds(ts);
        let a = ts.take(k);
        let b = ts.skip(k);
        assert(a + b =~= ts);
        assert(a.last() == ts[k - 1]);
        lemma_insert_guarded(a, b);
        assert(ts.insert(k, optional_slash()) =~= a + seq![optional_slash()] + b);
        lemma_guarded_optimized(with_trailing_slash(ts));
    } else {
        lemma_guarded_optimized(ts);
    }
}

/// Where the path of the tokens ends; see [`path_end`].
fn path_end_exec(tokens: &Vec<RouteParserToken>) -> (k: usize)
    ensures
        k as int == path_end(tokens_view(tokens@)),
{
    let ghost m = tokens_view(tokens@);
    proof { lemma_tokens_view_index(tokens@); }
    let mut i: usize = 0;
    assert(m.skip(0) =~= m);
    while i < tokens.len()
        invariant
            i <= tokens@.len(),
            m == tokens_view(tokens@),
            m.len() == tokens@.len(),
            forall|j: int| 0 <= j < tokens@.len() ==> #[trigger] m[j] == token_view(tokens@[j]),
            path_end(m) == i + path_end(m.skip(i as int)),
        decreases tokens@.len() - i,
    {
        assert(m.skip(i as int)[0] == token_view(tokens@[i as int]));
        if matches!(tokens[i], RouteParserToken::QueryBegin) || matches!(tokens[i], RouteParserToken::FragmentBegin) {
            return i;
        }
        assert(m.skip(i as int).drop_first() =~= m.skip(i + 1));
        i = i + 1;
    }
    assert(m.skip(i as int).len() == 0);
    i
}

/// Adds an optional `/` after the path, where one fits.
fn add_trailing_slash(tokens: &mut Vec<RouteParserToken>)
    ensures
        tokens_view(final(tokens)@) == with_trailing_slash(tokens_view(old(tokens)@)),
{
    let ghost m = tokens_view(tokens@);
    proof { lemma_tokens_view_index(tokens@); lemma_path_end_bounds(m); }
    let k = path_end_exec(tokens);
    if k == 0 {
        return;
    }
    assert(m[k - 1] == token_view(tokens@[k - 1]));
    if !matches!(tokens[k - 1], RouteParserToken::Match(_)) {
        return;
    }
    let slash: Vec<RouteParserToken> = vec![RouteParserToken::Separator];
    proof {
        lemma_tokens_view_index(slash@);
        assert(tokens_view(slash@) =~= seq![TokenModel::Separator]);
    }
    let opt = RouteParserToken::Optional(slash);
    let ghost before = tokens@;
    tokens.insert(k, opt);
    proof {
        lemma_tokens_view_index(tokens@);
        assert(token_view(opt) == optional_slash());
        assert(tokens_view(tokens@) =~= m.insert(k as int, optional_slash()));
    }
}

/// A matcher string, condensed, with the settings it is matched by.
#[derive(Debug, PartialEq, Eq)]
pub struct RouteMatcher {
    /// The matcher tokens.
    pub tokens: Vec<MatcherToken>,
    /// How route strings are matched.
    pub settings: MatcherSettings,
}

impl RouteMatcher {
    /// Parses a matcher string. Unless the settings are strict, an optional `/` follows the
    /// path where the path ends in a literal.
    pub fn new(i: &str, settings: MatcherSettings) -> (r: Result<RouteMatcher, ParseFailure>)
        requires
            section_counts_fit(i@),
        ensures
            match r {
                Ok(m) => route_tokens(i@, settings.strict) == Ok::<Seq<crate::optimizer::MatcherTokenModel>, nat>(
                    matcher_tokens_view(m.tokens@),
                ) && m.settings == settings && well_formed(matcher_tokens_view(m.tokens@)),
                Err(f) => route_tokens(i@, settings.strict) == Err::<Seq<crate::optimizer::MatcherTokenModel>, nat>(
                    f.offset as nat,
                ),
            },
    {
        let mut tokens = parse(i)?;
        if !settings.strict {
            add_trailing_slash(&mut tokens);
        }
        proof { lemma_route_tokens_well_formed(i@, settings.strict); }
        Ok(RouteMatcher { tokens: optimize_tokens(tokens), settings })
    }

    /// Parses a matcher string with the default settings.
    pub fn try_from(i: &str) -> (r: Result<RouteMatcher, ParseFailure>)
        requires
            section_counts_fit(i@),
        ensures
            match r {
                Ok(m) => route_tokens(i@, false) == Ok::<Seq<crate::optimizer::MatcherTokenModel>, nat>(
                    matcher_tokens_view(m.tokens@),
                ) && m.settings == (MatcherSettings { strict: false, complete: true, case_insensitive: false }) && well_formed(matcher_tokens_view(m.tokens@)),
                Err(f) => route_tokens(i@, false) == Err::<Seq<crate::optimizer::MatcherTokenModel>, nat>(
                    f.offset as nat,
                ),
            },
    {
        RouteMatcher::new(i, MatcherSettings::default())
    }

    /// Matches a route string: the captures, where the tokens match from its start and,
    /// where the settings ask for a complete match, use all of it.
    pub fn match_route_string(&self, i: &str) -> (r: Option<Captures>)
        requires
            well_formed(matcher_tokens_view(self.tokens@)),
        ensures
            match match_route(matcher_tokens_view(self.tokens@), i@, self.settings) {
                Some((q, pairs)) => if !self.settings.complete || q == i@.len() {
                    r matches Some(c) && c@ == pairs
                } else {
                    r is None
                },
                None => r is None,
            },
    {
        match match_path(&self.tokens, &self.settings, i) {
            Some((rest, caps)) => {
                proof {
                    let q = match_route(matcher_tokens_view(self.tokens@), i@, self.settings)->Some_0.0;
                    assert(rest@.len() == i@.len() - q);
                }
                let used_all = rest.as_str().is_empty();
                assert(used_all == (rest@.len() == 0));
                if self.settings.complete && !used_all {
                    None
                } else {
                    Some(caps)
                }
            },
            None => None,
        }
    }
}

} // verus!
