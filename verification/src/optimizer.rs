//! Condensing parsed tokens into the tokens used for matching routes.
use vstd::prelude::*;
use crate::grammar::{parse_spec, section_counts_fit};
use crate::parser::{parse, ParseFailure};
use crate::text::{chars_of, string_of};
use crate::token::{
    lemma_tokens_view_index, token_view, tokens_view, CaptureModel, CaptureOrMatch,
    CaptureOrMatchModel, CaptureVariant, RouteParserToken, TokenModel,
};

verus! {

/// Tokens used to decide how to match and capture sections of a route string.
#[derive(Debug, PartialEq, Eq)]
pub enum MatcherToken {
    /// Literal text that must appear exactly (or ignoring case, where so configured).
    Match(String),
    /// A capture section.
    Capture(CaptureVariant),
    /// Tokens that are matched if possible and skipped otherwise.
    Optional(Vec<MatcherToken>),
}

/// Mathematical model of a [`MatcherToken`].
pub enum MatcherTokenModel {
    Match(Seq<char>),
    Capture(CaptureModel),
    Optional(Seq<MatcherTokenModel>),
}

/// The model of one matcher token.
pub open spec fn matcher_token_view(t: MatcherToken) -> MatcherTokenModel
    decreases t, 1int,
{
    match t {
        MatcherToken::Match(s) => MatcherTokenModel::Match(s@),
        MatcherToken::Capture(c) => MatcherTokenModel::Capture(c@),
        MatcherToken::Optional(v) => MatcherTokenModel::Optional(matcher_tokens_view(v@)),
    }
}

/// The model of a sequence of matcher tokens, element by element.
pub open spec fn matcher_tokens_view(s: Seq<MatcherToken>) -> Seq<MatcherTokenModel>
    decreases s, 0int,
{
    if s.len() == 0 {
        Seq::empty()
    } else {
        matcher_tokens_view(s.drop_last()).push(matcher_token_view(s.last()))
    }
}

/// Pushing a matcher token pushes its model.
pub proof fn lemma_matcher_tokens_view_push(s: Seq<MatcherToken>, t: MatcherToken)
    ensures
        matcher_tokens_view(s.push(t)) == matcher_tokens_view(s).push(matcher_token_view(t)),
{
    assert(s.push(t).drop_last() =~= s);
}

/// The model of a sequence has the same length, element by element.
pub proof fn lemma_matcher_tokens_view_index(s: Seq<MatcherToken>)
    ensures
        matcher_tokens_view(s).len() == s.len(),
        forall|i: int| 0 <= i < s.len() ==> #[trigger] matcher_tokens_view(s)[i] == matcher_token_view(s[i]),
    decreases s.len(),
{
    if s.len() > 0 {
        lemma_matcher_tokens_view_index(s.drop_last());
    }
}

/// Whether a token is plain text that can be merged into a literal run.
pub open spec fn is_plain_token(t: TokenModel) -> bool {
    t is Separator || t is Match || t is QueryBegin || t is QuerySeparator || t is FragmentBegin
}

/// The text of a plain token.
pub open spec fn plain_text(t: TokenModel) -> Seq<char> {
    match t {
        TokenModel::Separator => seq!['/'],
        TokenModel::Match(m) => m,
        TokenModel::QueryBegin => seq!['?'],
        TokenModel::QuerySeparator => seq!['&'],
        TokenModel::FragmentBegin => seq!['#'],
        _ => Seq::empty(),
    }
}

/// The text of a pending literal run; nothing where no plain token is pending.
pub open spec fn run_text(run: Option<Seq<char>>) -> Seq<char> {
    match run {
        Some(t) => t,
        None => Seq::empty(),
    }
}

/// A pending literal run, as zero or one literal token: a run of plain tokens becomes one
/// literal, also where its text is empty.
pub open spec fn flush(run: Option<Seq<char>>) -> Seq<MatcherTokenModel> {
    match run {
        Some(t) => seq![MatcherTokenModel::Match(t)],
        None => Seq::empty(),
    }
}

/// The matcher token for the value of a query item.
pub open spec fn value_token(c: CaptureOrMatchModel) -> MatcherTokenModel {
    match c {
        CaptureOrMatchModel::Match(m) => MatcherTokenModel::Match(m),
        CaptureOrMatchModel::Capture(v) => MatcherTokenModel::Capture(v),
    }
}

/// Condenses tokens, carrying the pending literal run `run` (`None` where no plain token is
/// pending).
///
/// Consecutive plain tokens merge into one literal. A capture or an optional section ends
/// the run; a query item `ident=value` becomes the literal `ident=` followed by the value.
pub open spec fn optimize_spec(ts: Seq<TokenModel>, run: Option<Seq<char>>) -> Seq<MatcherTokenModel>
    decreases ts,
{
    if ts.len() == 0 {
        flush(run)
    } else {
        let t = ts[0];
        let rest = ts.drop_first();
        if is_plain_token(t) {
            optimize_spec(rest, Some(run_text(run) + plain_text(t)))
        } else {
            match t {
                TokenModel::Optional(inner) => flush(run) + seq![
                    MatcherTokenModel::Optional(optimize_spec(inner, None)),
                ] + optimize_spec(rest, None),
                TokenModel::Capture(v) => flush(run) + seq![MatcherTokenModel::Capture(v)]
                    + optimize_spec(rest, None),
                TokenModel::QueryCapture(ident, value) => flush(run) + seq![
                    MatcherTokenModel::Match(ident + seq!['=']),
                    value_token(value),
                ] + optimize_spec(rest, None),
                _ => Seq::empty(),
            }
        }
    }
}

/// The condensed form of a whole token sequence.
pub open spec fn optimized(ts: Seq<TokenModel>) -> Seq<MatcherTokenModel> {
    optimize_spec(ts, None)
}

/// A copy of a capture variant.
pub fn clone_capture(v: &CaptureVariant) -> (r: CaptureVariant)
    ensures
        r@ == v@,
{
    match v {
        CaptureVariant::Unnamed => CaptureVariant::Unnamed,
        CaptureVariant::ManyUnnamed => CaptureVariant::ManyUnnamed,
        CaptureVariant::NumberedUnnamed { sections } => CaptureVariant::NumberedUnnamed { sections: *sections },
        CaptureVariant::Named(n) => CaptureVariant::Named(n.clone()),
        CaptureVariant::ManyNamed(n) => CaptureVariant::ManyNamed(n.clone()),
        CaptureVariant::NumberedNamed { sections, name } => CaptureVariant::NumberedNamed {
            sections: *sections,
            name: name.clone(),
        },
    }
}

/// The text of a plain token: `/`, a literal, `?`, `&` or `#`.
pub fn token_to_string(token: &RouteParserToken) -> (r: String)
    requires
        is_plain_token(token_view(*token)),
    ensures
        r@ == plain_text(token_view(*token)),
{
    match token {
        RouteParserToken::Separator => {
            let v: Vec<char> = vec!['/'];
            string_of(v.as_slice())
        },
        RouteParserToken::Match(m) => m.clone(),
        RouteParserToken::QueryBegin => {
            let v: Vec<char> = vec!['?'];
            string_of(v.as_slice())
        },
        RouteParserToken::QuerySeparator => {
            let v: Vec<char> = vec!['&'];
            string_of(v.as_slice())
        },
        RouteParserToken::FragmentBegin => {
            let v: Vec<char> = vec!['#'];
            string_of(v.as_slice())
        },
        _ => String::new(),
    }
}

/// The pending run as the exec state holds it: its characters, and whether any plain
/// token is pending.
pub open spec fn pending_run(run: Seq<char>, pending: bool) -> Option<Seq<char>> {
    if pending {
        Some(run)
    } else {
        None
    }
}

/// Appends the pending literal run (if any) as one literal token, and empties the run.
fn flush_exec(out: &mut Vec<MatcherToken>, run: &mut Vec<char>, pending: &mut bool)
    requires
        !*old(pending) ==> old(run)@ == Seq::<char>::empty(),
    ensures
        matcher_tokens_view(final(out)@) == matcher_tokens_view(old(out)@) + flush(
            pending_run(old(run)@, *old(pending)),
        ),
        final(run)@ == Seq::<char>::empty(),
        !*final(pending),
{
    if *pending {
        let t = MatcherToken::Match(string_of(run.as_slice()));
        proof { lemma_matcher_tokens_view_push(out@, t); }
        out.push(t);
        run.clear();
        *pending = false;
    }
    assert(matcher_tokens_view(out@) =~= matcher_tokens_view(old(out)@) + flush(pending_run(old(run)@, *old(pending))));
}

/// Appends the characters of `s` to `run`.
fn extend_run(run: &mut Vec<char>, s: &String)
    ensures
        final(run)@ == old(run)@ + s@,
{
    let mut c = chars_of(s.as_str());
    run.append(&mut c);
}

/// Condenses the tokens of `tokens` into matcher tokens.
fn optimize_ref(tokens: &Vec<RouteParserToken>) -> (r: Vec<MatcherToken>)
    ensures
        matcher_tokens_view(r@) == optimized(tokens_view(tokens@)),
    decreases tokens,
{
    let ghost ts = tokens_view(tokens@);
    proof { lemma_tokens_view_index(tokens@); }
    let mut out: Vec<MatcherToken> = Vec::new();
    let mut run: Vec<char> = Vec::new();
    let mut pending = false;
    let mut i: usize = 0;
    assert(ts.skip(0) =~= ts);
    assert(matcher_tokens_view(out@) + optimize_spec(ts.skip(0), pending_run(run@, pending)) =~= optimized(ts));
    while i < tokens.len()
        invariant
            ts == tokens_view(tokens@),
            ts.len() == tokens@.len(),
            forall|k: int| 0 <= k < tokens@.len() ==> #[trigger] ts[k] == token_view(tokens@[k]),
            i <= tokens@.len(),
            !pending ==> run@ == Seq::<char>::empty(),
            matcher_tokens_view(out@) + optimize_spec(ts.skip(i as int), pending_run(run@, pending)) == optimized(ts),
        decreases tokens@.len() - i,
    {
        let ghost rest = ts.skip(i as int);
        let ghost old_out = matcher_tokens_view(out@);
        let ghost old_run = pending_run(run@, pending);
        assert(rest[0] == ts[i as int]);
        assert(rest.drop_first() =~= ts.skip(i + 1));
        let token = &tokens[i];
        match token {
            RouteParserToken::Separator | RouteParserToken::Match(_) | RouteParserToken::QueryBegin
            | RouteParserToken::QuerySeparator | RouteParserToken::FragmentBegin => {
                let text = token_to_string(token);
                extend_run(&mut run, &text);
                pending = true;
                assert(run@ == run_text(old_run) + plain_text(rest[0]));
            },
            RouteParserToken::Optional(inner) => {
                flush_exec(&mut out, &mut run, &mut pending);
                let inner_out = optimize_ref(inner);
                let t = MatcherToken::Optional(inner_out);
                proof { lemma_matcher_tokens_view_push(out@, t); }
                out.push(t);
                assert(matcher_tokens_view(out@) + optimize_spec(ts.skip(i + 1), pending_run(run@, pending)) =~= old_out
                    + optimize_spec(rest, old_run));
            },
            RouteParserToken::Capture(v) => {
                flush_exec(&mut out, &mut run, &mut pending);
                let t = MatcherToken::Capture(clone_capture(v));
                proof { lemma_matcher_tokens_view_push(out@, t); }
                out.push(t);
                assert(matcher_tokens_view(out@) + optimize_spec(ts.skip(i + 1), pending_run(run@, pending)) =~= old_out
                    + optimize_spec(rest, old_run));
            },
            RouteParserToken::QueryCapture { ident, capture_or_match } => {
                flush_exec(&mut out, &mut run, &mut pending);
                let mut key = ident.clone();
                key.push('=');
                assert(key@ =~= ident@ + seq!['=']);
                let t1 = MatcherToken::Match(key);
                proof { lemma_matcher_tokens_view_push(out@, t1); }
                out.push(t1);
                let t2 = match capture_or_match {
                    CaptureOrMatch::Match(m) => MatcherToken::Match(m.clone()),
                    CaptureOrMatch::Capture(v) => MatcherToken::Capture(clone_capture(v)),
                };
                assert(matcher_token_view(t2) == value_token(capture_or_match@));
                proof { lemma_matcher_tokens_view_push(out@, t2); }
                out.push(t2);
                assert(matcher_tokens_view(out@) + optimize_spec(ts.skip(i + 1), pending_run(run@, pending)) =~= old_out
                    + optimize_spec(rest, old_run));
            },
        }
        i = i + 1;
    }
    flush_exec(&mut out, &mut run, &mut pending);
    assert(ts.skip(i as int) =~= Seq::<TokenModel>::empty());
    out
}

/// Condenses parsed tokens into matcher tokens: runs of plain tokens become single
/// literals, and each query item `ident=value` becomes the literal `ident=` and the value.
pub fn optimize_tokens(tokens: Vec<RouteParserToken>) -> (r: Vec<MatcherToken>)
    ensures
        matcher_tokens_view(r@) == optimized(tokens_view(tokens@)),
{
    optimize_ref(&tokens)
}

/// Parses a matcher string and condenses its tokens.
pub fn parse_str_and_optimize_tokens(i: &str) -> (r: Result<Vec<MatcherToken>, ParseFailure>)
    requires
        section_counts_fit(i@),
    ensures
        match r {
            Ok(t) => parse_spec(i@) is Ok && matcher_tokens_view(t@) == optimized(parse_spec(i@)->Ok_0)
                && crate::matcher::well_formed(matcher_tokens_view(t@)),
            Err(f) => parse_spec(i@) == Err::<Seq<TokenModel>, nat>(f.offset as nat),
        },
{
    let tokens = parse(i)?;
    proof { crate::shape::lemma_parsed_well_formed(i@); }
    Ok(optimize_tokens(tokens))
}

} // verus!
