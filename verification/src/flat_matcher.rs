//! Matching with flat tokens: literals, single-section captures and query values, without
//! optional sections.
use vstd::prelude::*;
use crate::grammar::ident_at;
use crate::matcher::{
    after_captures, first_stop, first_stop_exec, keys_of, lemma_keys_of_add, lemma_keys_of_one, pairs_view, seqs_view,
    Captures,
};
use crate::parser::ident_at_exec;
use crate::path_matcher::{add_name, strings_view};
use crate::text::{
    append_str, chars_of, lemma_run_end, lemma_run_end_at, occurs_at, occurs_at_exec, run_end, string_of_range,
};

verus! {

/// Tokens of a matcher string, one per construct.
#[derive(Debug, Clone, PartialEq, Eq)]
pub enum Token {
    /// `/`
    Separator,
    /// Literal text.
    Match(String),
    /// A section that matches anything and is not recorded.
    MatchAny,
    /// A section recorded under `ident`.
    Capture {
        /// The key under which the section is recorded.
        ident: String,
    },
    /// `?`
    QueryBegin,
    /// `&`
    QuerySeparator,
    /// `ident=` followed by a value recorded under `value`.
    QueryCapture {
        /// The query key.
        ident: String,
        /// The key under which the query value is recorded.
        value: String,
    },
    /// `#`
    FragmentBegin,
}

/// Mathematical model of a [`Token`].
pub enum TokenModel {
    Separator,
    Match(Seq<char>),
    MatchAny,
    Capture(Seq<char>),
    QueryBegin,
    QuerySeparator,
    QueryCapture(Seq<char>, Seq<char>),
    FragmentBegin,
}

impl View for Token {
    type V = TokenModel;

    open spec fn view(&self) -> TokenModel {
        match self {
            Token::Separator => TokenModel::Separator,
            Token::Match(m) => TokenModel::Match(m@),
            Token::MatchAny => TokenModel::MatchAny,
            Token::Capture { ident } => TokenModel::Capture(ident@),
            Token::QueryBegin => TokenModel::QueryBegin,
            Token::QuerySeparator => TokenModel::QuerySeparator,
            Token::QueryCapture { ident, value } => TokenModel::QueryCapture(ident@, value@),
            Token::FragmentBegin => TokenModel::FragmentBegin,
        }
    }
}

/// Tokens after condensing: runs of literal tokens become one literal.
#[derive(Debug, Clone, PartialEq, Eq)]
pub enum OptimizedToken {
    /// Literal text.
    Match(String),
    /// A section that matches anything and is not recorded.
    MatchAny,
    /// A section recorded under `ident`.
    Capture {
        /// The key under which the section is recorded.
        ident: String,
    },
    /// `ident=` followed by a value recorded under `value`.
    QueryCapture {
        /// The query key.
        ident: String,
        /// The key under which the query value is recorded.
        value: String,
    },
}

/// Mathematical model of an [`OptimizedToken`].
pub enum OptimizedTokenModel {
    Match(Seq<char>),
    MatchAny,
    Capture(Seq<char>),
    QueryCapture(Seq<char>, Seq<char>),
}

impl View for OptimizedToken {
    type V = OptimizedTokenModel;

    open spec fn view(&self) -> OptimizedTokenModel {
        match self {
            OptimizedToken::Match(m) => OptimizedTokenModel::Match(m@),
            OptimizedToken::MatchAny => OptimizedTokenModel::MatchAny,
            OptimizedToken::Capture { ident } => OptimizedTokenModel::Capture(ident@),
            OptimizedToken::QueryCapture { ident, value } => OptimizedTokenModel::QueryCapture(ident@, value@),
        }
    }
}

/// The models of a list of tokens.
pub open spec fn tokens_model(v: Seq<Token>) -> Seq<TokenModel> {
    v.map_values(|t: Token| t@)
}

/// The models of a list of condensed tokens.
pub open spec fn optimized_model(v: Seq<OptimizedToken>) -> Seq<OptimizedTokenModel> {
    v.map_values(|t: OptimizedToken| t@)
}

/// A token that stands for fixed text.
pub open spec fn is_literal(t: TokenModel) -> bool {
    t is Separator || t is Match || t is QueryBegin || t is QuerySeparator || t is FragmentBegin
}

/// The text of a literal token.
pub open spec fn literal_text(t: TokenModel) -> Seq<char> {
    match t {
        TokenModel::Separator => seq!['/'],
        TokenModel::Match(m) => m,
        TokenModel::QueryBegin => seq!['?'],
        TokenModel::QuerySeparator => seq!['&'],
        TokenModel::FragmentBegin => seq!['#'],
        _ => Seq::empty(),
    }
}

/// The condensed form of a token that is not a literal.
pub open spec fn condensed_one(t: TokenModel) -> OptimizedTokenModel {
    match t {
        TokenModel::Capture(i) => OptimizedTokenModel::Capture(i),
        TokenModel::QueryCapture(i, v) => OptimizedTokenModel::QueryCapture(i, v),
        _ => OptimizedTokenModel::MatchAny,
    }
}

/// A pending run of literal tokens (`None` when there is none) as zero or one literal.
pub open spec fn flush_run(run: Option<Seq<char>>) -> Seq<OptimizedTokenModel> {
    match run {
        Some(r) => seq![OptimizedTokenModel::Match(r)],
        None => Seq::empty(),
    }
}

/// The text of a pending run.
pub open spec fn run_text(run: Option<Seq<char>>) -> Seq<char> {
    match run {
        Some(r) => r,
        None => Seq::empty(),
    }
}

/// Condenses tokens, carrying the pending run `run`: each maximal run of literal tokens
/// becomes one literal of their texts; other tokens are kept.
pub open spec fn condense(ts: Seq<TokenModel>, run: Option<Seq<char>>) -> Seq<OptimizedTokenModel>
    decreases ts.len(),
{
    if ts.len() == 0 {
        flush_run(run)
    } else if is_literal(ts[0]) {
        condense(ts.drop_first(), Some(run_text(run) + literal_text(ts[0])))
    } else {
        flush_run(run) + seq![condensed_one(ts[0])] + condense(ts.drop_first(), None)
    }
}

/// A token list in which every token that consumes a varying amount of text, and is not
/// the last, is followed by a literal.
pub open spec fn delimited(ts: Seq<OptimizedTokenModel>) -> bool {
    forall|i: int| 0 <= i < ts.len() - 1 && !(#[trigger] ts[i] is Match) ==> ts[i + 1] is Match
}

/// Condensed tokens are delimited when every non-literal token that is not the last is
/// followed by a literal token.
pub open spec fn tokens_delimited(ts: Seq<TokenModel>) -> bool {
    forall|i: int| 0 <= i < ts.len() - 1 && !is_literal(#[trigger] ts[i]) ==> is_literal(ts[i + 1])
}

/// Matches route strings against condensed flat tokens.
#[derive(Debug, Clone, PartialEq, Eq)]
pub struct PathMatcher {
    /// The condensed tokens.
    pub tokens: Vec<OptimizedToken>,
}

/// A copy of a token's text.
fn literal_string(t: &Token) -> (r: String)
    requires
        is_literal(t@),
    ensures
        r@ == literal_text(t@),
{
    match t {
        Token::Separator => {
            proof { reveal_strlit("/"); }
            "/".to_owned()
        },
        Token::Match(m) => m.clone(),
        Token::QueryBegin => {
            proof { reveal_strlit("?"); }
            "?".to_owned()
        },
        Token::QuerySeparator => {
            proof { reveal_strlit("&"); }
            "&".to_owned()
        },
        _ => {
            proof { reveal_strlit("#"); }
            "#".to_owned()
        },
    }
}

/// Pushes the pending run as a literal, if there is one, and clears it.
fn flush_exec(out: &mut Vec<OptimizedToken>, run: &mut String, has_run: &mut bool)
    ensures
        optimized_model(final(out)@) == optimized_model(old(out)@) + flush_run(
            if *old(has_run) { Some(old(run)@) } else { None },
        ),
        !*final(has_run),
        final(run)@ == Seq::<char>::empty(),
{
    let ghost before = optimized_model(out@);
    if *has_run {
        let s = run.clone();
        out.push(OptimizedToken::Match(s));
        assert(optimized_model(out@) =~= before + seq![OptimizedTokenModel::Match(old(run)@)]);
    } else {
        assert(optimized_model(out@) =~= before + Seq::<OptimizedTokenModel>::empty());
    }
    *run = String::new();
    *has_run = false;
}

impl PathMatcher {
    /// Condenses tokens into a path matcher: each maximal run of literal tokens becomes one
    /// literal of their texts.
    pub fn from_tokens(tokens: Vec<Token>) -> (r: PathMatcher)
        ensures
            optimized_model(r.tokens@) == condense(tokens_model(tokens@), None),
    {
        let ghost m = tokens_model(tokens@);
        let mut out: Vec<OptimizedToken> = Vec::new();
        let mut run = String::new();
        let mut has_run = false;
        let mut i: usize = 0;
        assert(m.skip(0) =~= m);
        assert(optimized_model(out@) + condense(m, None) =~= condense(m, None));
        while i < tokens.len()
            invariant
                m == tokens_model(tokens@),
                i <= tokens@.len(),
                !has_run ==> run@ == Seq::<char>::empty(),
                optimized_model(out@) + condense(m.skip(i as int), if has_run { Some(run@) } else { None })
                    == condense(m, None),
            decreases tokens@.len() - i,
        {
            let ghost rest = m.skip(i as int);
            let ghost old_out = optimized_model(out@);
            let ghost old_run: Option<Seq<char>> = if has_run { Some(run@) } else { None };
            assert(rest[0] == tokens@[i as int]@);
            assert(rest.drop_first() =~= m.skip(i + 1));
            let t = &tokens[i];
            match t {
                Token::MatchAny | Token::Capture { .. } | Token::QueryCapture { .. } => {
                    flush_exec(&mut out, &mut run, &mut has_run);
                    let o = match t {
                        Token::Capture { ident } => OptimizedToken::Capture { ident: ident.clone() },
                        Token::QueryCapture { ident, value } => OptimizedToken::QueryCapture {
                            ident: ident.clone(),
                            value: value.clone(),
                        },
                        _ => OptimizedToken::MatchAny,
                    };
                    let ghost mid = optimized_model(out@);
                    out.push(o);
                    assert(optimized_model(out@) =~= mid + seq![condensed_one(rest[0])]);
                    assert(optimized_model(out@) + condense(m.skip(i + 1), None) =~= old_out + (flush_run(
                        old_run,
                    ) + seq![condensed_one(rest[0])] + condense(rest.drop_first(), None)));
                },
                _ => {
                    let text = literal_string(t);
                    append_str(&mut run, text.as_str());
                    has_run = true;
                    assert(run@ =~= run_text(old_run) + literal_text(rest[0]));
                },
            }
            i = i + 1;
        }
        assert(m.skip(i as int) =~= Seq::<TokenModel>::empty());
        flush_exec(&mut out, &mut run, &mut has_run);
        PathMatcher { tokens: out }
    }
}

// ---------------------------------------------------------------------------------------
// Matching condensed tokens
// ---------------------------------------------------------------------------------------

/// Characters that a capture within one section may consume.
pub open spec fn is_section_char(c: char) -> bool {
    !(c == ' ' || c == '*' || c == '/' || c == '#' || c == '&' || c == '?' || c == '|' || c == '{'
        || c == '}' || c == '=')
}

/// Characters that a query value at the end may consume.
pub open spec fn is_query_value_char(c: char) -> bool {
    !(c == ' ' || c == '*' || c == '#' || c == '&' || c == '?' || c == '|' || c == '{' || c == '}'
        || c == '=')
}

/// [`is_section_char`] as a predicate.
pub open spec fn section_class() -> spec_fn(char) -> bool {
    |c: char| is_section_char(c)
}

/// [`is_query_value_char`] as a predicate.
pub open spec fn query_value_class() -> spec_fn(char) -> bool {
    |c: char| is_query_value_char(c)
}

/// The end of a non-empty run of characters of the class from `p`.
pub open spec fn nonempty_run(s: Seq<char>, p: int, class: spec_fn(char) -> bool) -> Option<int> {
    let e = run_end(s, p, class);
    if 0 <= p && e > p {
        Some(e)
    } else {
        None
    }
}

/// Where a section capture starting at `p` ends: a non-empty run of section characters,
/// directly followed by the next literal when there is one.
pub open spec fn section_end(s: Seq<char>, p: int, rest: Seq<OptimizedTokenModel>) -> Option<int> {
    match nonempty_run(s, p, section_class()) {
        Some(e) => if rest.len() == 0 || occurs_at(s, e, rest[0]->Match_0) {
            Some(e)
        } else {
            None
        },
        None => None,
    }
}

/// Where a `MatchAny` starting at `p` ends: as a section capture does, except that with
/// nothing after it, it also matches an empty remainder.
pub open spec fn any_end(s: Seq<char>, p: int, rest: Seq<OptimizedTokenModel>) -> Option<int> {
    if rest.len() == 0 && p == s.len() {
        Some(p)
    } else {
        section_end(s, p, rest)
    }
}

/// Where a query value starting at `q` ends: where the next literal first occurs, or, when
/// nothing follows, after a non-empty run of query value characters.
pub open spec fn query_value_end(s: Seq<char>, q: int, rest: Seq<OptimizedTokenModel>) -> Option<int> {
    if rest.len() > 0 {
        first_stop(s, q, seq![rest[0]->Match_0], false)
    } else {
        nonempty_run(s, q, query_value_class())
    }
}

/// What the first of the condensed tokens `ts` does at `p`: the position after it and the
/// pairs it records, or `None` where it does not match. Literals must appear exactly,
/// captures take a section, query items take `ident=` and a value.
pub open spec fn flat_step(ts: Seq<OptimizedTokenModel>, s: Seq<char>, p: int) -> Option<(int, Seq<(Seq<char>, Seq<char>)>)>
    recommends
        ts.len() > 0,
{
    let rest = ts.drop_first();
    match ts[0] {
        OptimizedTokenModel::Match(lit) => if occurs_at(s, p, lit) {
            Some((p + lit.len(), Seq::empty()))
        } else {
            None
        },
        OptimizedTokenModel::MatchAny => match any_end(s, p, rest) {
            Some(e) => Some((e, Seq::empty())),
            None => None,
        },
        OptimizedTokenModel::Capture(id) => match section_end(s, p, rest) {
            Some(e) => Some((e, seq![(id, s.subrange(p, e))])),
            None => None,
        },
        OptimizedTokenModel::QueryCapture(id, v) => {
            let key = id + seq!['='];
            if occurs_at(s, p, key) {
                let q = p + key.len();
                match query_value_end(s, q, rest) {
                    Some(e) => Some((e, seq![(v, s.subrange(q, e))])),
                    None => None,
                }
            } else {
                None
            }
        },
    }
}

/// Matches condensed tokens against `s` from `p`, one after another (see [`flat_step`]).
/// Yields the position reached and the recorded pairs in order.
pub open spec fn match_flat(ts: Seq<OptimizedTokenModel>, s: Seq<char>, p: int) -> Option<(int, Seq<(Seq<char>, Seq<char>)>)>
    decreases ts.len(),
{
    if ts.len() == 0 {
        Some((p, Seq::empty()))
    } else {
        match flat_step(ts, s, p) {
            Some((e, rec)) => after_captures(rec, match_flat(ts.drop_first(), s, e)),
            None => None,
        }
    }
}

/// The names under which condensed tokens record values.
pub open spec fn flat_names(ts: Seq<OptimizedTokenModel>) -> Set<Seq<char>>
    decreases ts.len(),
{
    if ts.len() == 0 {
        Set::empty()
    } else {
        let here = match ts[0] {
            OptimizedTokenModel::Capture(id) => set![id],
            OptimizedTokenModel::QueryCapture(_, v) => set![v],
            _ => Set::empty(),
        };
        here + flat_names(ts.drop_first())
    }
}

/// A successful match from `p` records values under exactly the names of the tokens.
proof fn lemma_flat_keys(ts: Seq<OptimizedTokenModel>, s: Seq<char>, p: int)
    requires
        match_flat(ts, s, p) is Some,
    ensures
        keys_of(match_flat(ts, s, p)->Some_0.1) == flat_names(ts),
    decreases ts.len(),
{
    if ts.len() == 0 {
        assert(keys_of(Seq::<(Seq<char>, Seq<char>)>::empty()) =~= Set::<Seq<char>>::empty());
    } else {
        let (e, rec) = flat_step(ts, s, p)->Some_0;
        lemma_flat_keys(ts.drop_first(), s, e);
        let more = match_flat(ts.drop_first(), s, e)->Some_0.1;
        lemma_keys_of_add(rec, more);
        match ts[0] {
            OptimizedTokenModel::Capture(id) => {
                lemma_keys_of_one(id, s.subrange(p, e));
            },
            OptimizedTokenModel::QueryCapture(id, v) => {
                lemma_keys_of_one(v, rec[0].1);
                assert(rec =~= seq![(v, rec[0].1)]);
            },
            _ => {
                assert(keys_of(rec) =~= Set::<Seq<char>>::empty());
            },
        }
        assert(keys_of(rec) + keys_of(more) =~= flat_names(ts));
    }
}

/// The names that [`PathMatcher::capture_names`] gives are exactly the keys under which
/// every successful [`PathMatcher::match_path`] records values.
pub proof fn lemma_capture_names_are_match_keys(m: PathMatcher, i: Seq<char>)
    requires
        match_flat(optimized_model(m.tokens@), i, 0) is Some,
    ensures
        keys_of(match_flat(optimized_model(m.tokens@), i, 0)->Some_0.1) == flat_names(optimized_model(m.tokens@)),
{
    lemma_flat_keys(optimized_model(m.tokens@), i, 0);
}

/// Recording `a` and then `b` in front of a result records `a + b`.
proof fn lemma_after_captures_join(
    a: Seq<(Seq<char>, Seq<char>)>,
    b: Seq<(Seq<char>, Seq<char>)>,
    r: Option<(int, Seq<(Seq<char>, Seq<char>)>)>,
)
    ensures
        after_captures(a, after_captures(b, r)) == after_captures(a + b, r),
{
    match r {
        Some((q, more)) => {
            assert(a + (b + more) =~= (a + b) + more);
        },
        None => {},
    }
}

/// Nothing recorded in front leaves a result as it is.
proof fn lemma_after_captures_empty(r: Option<(int, Seq<(Seq<char>, Seq<char>)>)>)
    ensures
        after_captures(Seq::empty(), r) == r,
{
    match r {
        Some((q, more)) => {
            assert(Seq::<(Seq<char>, Seq<char>)>::empty() + more =~= more);
        },
        None => {},
    }
}

/// The end of the run of section characters from `p`.
fn section_run_end(s: &Vec<char>, p: usize) -> (e: usize)
    requires
        p <= s@.len(),
    ensures
        e as int == run_end(s@, p as int, section_class()),
        p <= e <= s@.len(),
{
    proof { lemma_run_end(s@, p as int, section_class()); }
    let mut i = p;
    while i < s.len() && !(s[i] == ' ' || s[i] == '*' || s[i] == '/' || s[i] == '#' || s[i] == '&'
        || s[i] == '?' || s[i] == '|' || s[i] == '{' || s[i] == '}' || s[i] == '=')
        invariant
            p <= i <= s@.len(),
            run_end(s@, i as int, section_class()) == run_end(s@, p as int, section_class()),
        decreases s@.len() - i,
    {
        i = i + 1;
    }
    i
}

/// The end of the run of query value characters from `p`.
fn query_run_end(s: &Vec<char>, p: usize) -> (e: usize)
    requires
        p <= s@.len(),
    ensures
        e as int == run_end(s@, p as int, query_value_class()),
        p <= e <= s@.len(),
{
    proof { lemma_run_end(s@, p as int, query_value_class()); }
    let mut i = p;
    while i < s.len() && !(s[i] == ' ' || s[i] == '*' || s[i] == '#' || s[i] == '&' || s[i] == '?'
        || s[i] == '|' || s[i] == '{' || s[i] == '}' || s[i] == '=')
        invariant
            p <= i <= s@.len(),
            run_end(s@, i as int, query_value_class()) == run_end(s@, p as int, query_value_class()),
        decreases s@.len() - i,
    {
        i = i + 1;
    }
    i
}

/// Where `pat` first occurs in `s` at or after `p`.
pub(crate) fn find_from(s: &Vec<char>, p: usize, pat: Vec<char>) -> (r: Option<usize>)
    requires
        p <= s@.len(),
    ensures
        match r {
            Some(q) => first_stop(s@, p as int, seq![pat@], false) == Some(q as int) && p <= q <= s@.len(),
            None => first_stop(s@, p as int, seq![pat@], false) is None,
        },
{
    let ghost pv = pat@;
    let ds = vec![pat];
    assert(seqs_view(ds@) =~= seq![pv]);
    first_stop_exec(s, p, &ds, false)
}

/// The literal text of the condensed token at `k`, which must be a literal.
fn literal_at_index(ts: &Vec<OptimizedToken>, k: usize) -> (r: Vec<char>)
    requires
        k < ts@.len(),
        ts@[k as int] is Match,
    ensures
        r@ == optimized_model(ts@)[k as int]->Match_0,
{
    match &ts[k] {
        OptimizedToken::Match(d) => chars_of(d.as_str()),
        _ => Vec::new(),
    }
}

/// One step of matching: the token at `k`, at position `pos`; see [`flat_step`].
fn flat_step_exec(ts: &Vec<OptimizedToken>, k: usize, s: &Vec<char>, pos: usize) -> (r: Option<(usize, Vec<(String, String)>)>)
    requires
        k < ts@.len(),
        pos <= s@.len(),
        delimited(optimized_model(ts@)),
    ensures
        match r {
            Some((e, rec)) => flat_step(optimized_model(ts@).skip(k as int), s@, pos as int) == Some(
                (e as int, pairs_view(rec@)),
            ) && e <= s@.len(),
            None => flat_step(optimized_model(ts@).skip(k as int), s@, pos as int) is None,
        },
{
    let ghost m = optimized_model(ts@);
    let ghost rest = m.skip(k as int);
    assert(rest[0] == ts@[k as int]@);
    assert(rest.drop_first() =~= m.skip(k + 1));
    let mut rec: Vec<(String, String)> = Vec::new();
    assert(pairs_view(rec@) =~= Seq::<(Seq<char>, Seq<char>)>::empty());
    proof {
        if k + 1 < ts@.len() {
            assert(rest.drop_first()[0] == m[k + 1]);
            assert(m[k + 1] == ts@[k + 1]@);
            if !(ts@[k as int] is Match) {
                assert(m[k as int] == ts@[k as int]@);
                assert(!(m[k as int] is Match));
                assert(m[k + 1] is Match);
            }
        }
    }
    match &ts[k] {
        OptimizedToken::Match(lit) => {
            let l = chars_of(lit.as_str());
            if occurs_at_exec(s, pos, &l) {
                assert(pos + l@.len() <= s@.len() && s@.len() == s.len() && l@.len() == l.len());
                Some((pos + l.len(), rec))
            } else {
                None
            }
        },
        OptimizedToken::MatchAny | OptimizedToken::Capture { .. } => {
            let e = section_run_end(s, pos);
            if e == pos {
                if k == ts.len() - 1 && pos == s.len() && matches!(ts[k], OptimizedToken::MatchAny) {
                    return Some((pos, rec));
                }
                return None;
            }
            if k < ts.len() - 1 {
                let d = literal_at_index(ts, k + 1);
                if !occurs_at_exec(s, e, &d) {
                    return None;
                }
            }
            if let OptimizedToken::Capture { ident } = &ts[k] {
                let value = string_of_range(s, pos, e);
                rec.push((ident.clone(), value));
                assert(pairs_view(rec@) =~= seq![(ident@, s@.subrange(pos as int, e as int))]);
            }
            Some((e, rec))
        },
        OptimizedToken::QueryCapture { ident, value } => {
            let mut key = String::new();
            append_str(&mut key, ident.as_str());
            key.push('=');
            let kc = chars_of(key.as_str());
            assert(kc@ =~= ident@ + seq!['=']);
            if !occurs_at_exec(s, pos, &kc) {
                return None;
            }
            assert(pos + kc@.len() <= s@.len() && s@.len() == s.len() && kc@.len() == kc.len());
            let q = pos + kc.len();
            let end = if k < ts.len() - 1 {
                find_from(s, q, literal_at_index(ts, k + 1))
            } else {
                let f = query_run_end(s, q);
                if f > q {
                    Some(f)
                } else {
                    None
                }
            };
            match end {
                Some(e) => {
                    let v = string_of_range(s, q, e);
                    rec.push((value.clone(), v));
                    assert(pairs_view(rec@) =~= seq![(value@, s@.subrange(q as int, e as int))]);
                    Some((e, rec))
                },
                None => None,
            }
        },
    }
}

impl PathMatcher {
    /// Whether every token that consumes a varying amount of text, and is not the last, is
    /// followed by a literal, as [`PathMatcher::match_path`] needs.
    pub fn is_delimited(&self) -> (r: bool)
        ensures
            r == delimited(optimized_model(self.tokens@)),
    {
        let ghost m = optimized_model(self.tokens@);
        let n = self.tokens.len();
        let mut k: usize = 0;
        while n > 0 && k < n - 1
            invariant
                m == optimized_model(self.tokens@),
                n == self.tokens@.len(),
                k <= n,
                forall|i: int| 0 <= i < k && i < n - 1 && !(#[trigger] m[i] is Match) ==> m[i + 1] is Match,
            decreases n - k,
        {
            assert(m[k as int] == self.tokens@[k as int]@);
            assert(m[k + 1] == self.tokens@[k + 1]@);
            let here_literal = match &self.tokens[k] {
                OptimizedToken::Match(_) => true,
                _ => false,
            };
            let next_literal = match &self.tokens[k + 1] {
                OptimizedToken::Match(_) => true,
                _ => false,
            };
            if !here_literal && !next_literal {
                return false;
            }
            k = k + 1;
        }
        true
    }

    /// Matches the route string `i` against the tokens from its start. Yields the unmatched
    /// rest of `i` and the recorded values.
    pub fn match_path(&self, i: &str) -> (r: Option<(String, Captures)>)
        requires
            delimited(optimized_model(self.tokens@)),
        ensures
            match r {
                Some((rest, caps)) => match match_flat(optimized_model(self.tokens@), i@, 0) {
                    Some((q, pairs)) => rest@ == i@.skip(q) && caps@ == pairs,
                    None => false,
                },
                None => match_flat(optimized_model(self.tokens@), i@, 0) is None,
            },
    {
        let ts = &self.tokens;
        let s = chars_of(i);
        let ghost m = optimized_model(ts@);
        let mut caps: Vec<(String, String)> = Vec::new();
        let mut pos: usize = 0;
        let mut k: usize = 0;
        assert(m.skip(0) =~= m);
        assert(pairs_view(caps@) =~= Seq::<(Seq<char>, Seq<char>)>::empty());
        proof { lemma_after_captures_empty(match_flat(m, s@, 0)); }
        while k < ts.len()
            invariant
                m == optimized_model(ts@),
                m == optimized_model(self.tokens@),
                delimited(m),
                s@ == i@,
                k <= ts@.len(),
                pos <= s@.len(),
                match_flat(m, s@, 0) == after_captures(pairs_view(caps@), match_flat(m.skip(k as int), s@, pos as int)),
            decreases ts@.len() - k,
        {
            let ghost old_caps = pairs_view(caps@);
            assert(m.skip(k as int).drop_first() =~= m.skip(k + 1));
            match flat_step_exec(ts, k, &s, pos) {
                Some((e, rec)) => {
                    let ghost rv = pairs_view(rec@);
                    let mut rec = rec;
                    caps.append(&mut rec);
                    assert(pairs_view(caps@) =~= old_caps + rv);
                    proof { lemma_after_captures_join(old_caps, rv, match_flat(m.skip(k + 1), s@, e as int)); }
                    pos = e;
                },
                None => {
                    return None;
                },
            }
            k = k + 1;
        }
        assert(m.skip(k as int).len() == 0);
        let rest = string_of_range(&s, pos, s.len());
        assert(rest@ =~= i@.skip(pos as int));
        assert(pairs_view(caps@) + Seq::<(Seq<char>, Seq<char>)>::empty() =~= pairs_view(caps@));
        Some((rest, Captures { entries: caps }))
    }

    /// The names under which matching records values, each once.
    pub fn capture_names(&self) -> (r: Vec<String>)
        ensures
            strings_view(r@).no_duplicates(),
            strings_view(r@).to_set() == flat_names(optimized_model(self.tokens@)),
    {
        let ts = &self.tokens;
        let ghost m = optimized_model(ts@);
        let mut acc: Vec<String> = Vec::new();
        let mut k: usize = 0;
        assert(strings_view(acc@) =~= Seq::<Seq<char>>::empty());
        assert(m.skip(0) =~= m);
        assert(Set::<Seq<char>>::empty() + flat_names(m) =~= flat_names(m));
        while k < ts.len()
            invariant
                m == optimized_model(ts@),
                m == optimized_model(self.tokens@),
                k <= ts@.len(),
                strings_view(acc@).no_duplicates(),
                strings_view(acc@).to_set() + flat_names(m.skip(k as int)) == flat_names(m),
            decreases ts@.len() - k,
        {
            let ghost cur = strings_view(acc@).to_set();
            assert(m.skip(k as int)[0] == ts@[k as int]@);
            assert(m.skip(k as int).drop_first() =~= m.skip(k + 1));
            match &ts[k] {
                OptimizedToken::Capture { ident } => add_name(&mut acc, ident),
                OptimizedToken::QueryCapture { value, .. } => add_name(&mut acc, value),
                _ => {},
            }
            assert(strings_view(acc@).to_set() + flat_names(m.skip(k + 1)) =~= cur + flat_names(m.skip(k as int)));
            k = k + 1;
        }
        assert(m.skip(k as int) =~= Seq::<OptimizedTokenModel>::empty());
        assert(strings_view(acc@).to_set() + Set::<Seq<char>>::empty() =~= strings_view(acc@).to_set());
        acc
    }
}

// ---------------------------------------------------------------------------------------
// Matching tokens one by one
// ---------------------------------------------------------------------------------------

/// The text that a literal token stands for; a capture before it runs up to this text.
pub fn delimiter_lookup(token: &Token) -> (r: &str)
    requires
        is_literal(token@),
    ensures
        r@ == literal_text(token@),
{
    match token {
        Token::Separator => {
            proof { reveal_strlit("/"); }
            "/"
        },
        Token::Match(literal) => literal.as_str(),
        Token::QueryBegin => {
            proof { reveal_strlit("?"); }
            "?"
        },
        Token::QuerySeparator => {
            proof { reveal_strlit("&"); }
            "&"
        },
        _ => {
            proof { reveal_strlit("#"); }
            "#"
        },
    }
}

/// Where a value starting at `p` ends: where the text of the next token first occurs, or,
/// when nothing follows, after an identifier.
pub open spec fn value_end(s: Seq<char>, p: int, rest: Seq<TokenModel>) -> Option<int> {
    if rest.len() > 0 {
        first_stop(s, p, seq![literal_text(rest[0])], false)
    } else {
        ident_at(s, p)
    }
}

/// What the first of the tokens `ts` does at `p`: the position after it and the pairs it
/// records, or `None`. Literal tokens must appear exactly; `MatchAny` and captures run up
/// to the next token's text (or take an identifier when last); query items take `ident=`
/// and a value in the same way.
pub open spec fn token_step(ts: Seq<TokenModel>, s: Seq<char>, p: int) -> Option<(int, Seq<(Seq<char>, Seq<char>)>)>
    recommends
        ts.len() > 0,
{
    let rest = ts.drop_first();
    let t = ts[0];
    if is_literal(t) {
        if occurs_at(s, p, literal_text(t)) {
            Some((p + literal_text(t).len(), Seq::empty()))
        } else {
            None
        }
    } else {
        match t {
            TokenModel::Capture(id) => match value_end(s, p, rest) {
                Some(e) => Some((e, seq![(id, s.subrange(p, e))])),
                None => None,
            },
            TokenModel::QueryCapture(id, v) => {
                let key = id + seq!['='];
                if occurs_at(s, p, key) {
                    let q = p + key.len();
                    match value_end(s, q, rest) {
                        Some(e) => Some((e, seq![(v, s.subrange(q, e))])),
                        None => None,
                    }
                } else {
                    None
                }
            },
            _ => match value_end(s, p, rest) {
                Some(e) => Some((e, Seq::empty())),
                None => None,
            },
        }
    }
}

/// Matches tokens against `s` from `p`, one after another (see [`token_step`]). Yields the
/// position reached and the recorded pairs in order.
pub open spec fn match_token_list(ts: Seq<TokenModel>, s: Seq<char>, p: int) -> Option<(int, Seq<(Seq<char>, Seq<char>)>)>
    decreases ts.len(),
{
    if ts.len() == 0 {
        Some((p, Seq::empty()))
    } else {
        match token_step(ts, s, p) {
            Some((e, rec)) => after_captures(rec, match_token_list(ts.drop_first(), s, e)),
            None => None,
        }
    }
}

/// Where a value starting at `p` ends, with `ts[k..]` following it; see [`value_end`].
fn value_end_exec(ts: &Vec<Token>, k: usize, s: &Vec<char>, p: usize) -> (r: Option<usize>)
    requires
        k <= ts@.len(),
        p <= s@.len(),
        k < ts@.len() ==> is_literal(ts@[k as int]@),
    ensures
        match r {
            Some(e) => value_end(s@, p as int, tokens_model(ts@).skip(k as int)) == Some(e as int) && p <= e
                <= s@.len(),
            None => value_end(s@, p as int, tokens_model(ts@).skip(k as int)) is None,
        },
{
    if k < ts.len() {
        assert(tokens_model(ts@).skip(k as int)[0] == ts@[k as int]@);
        let d = chars_of(delimiter_lookup(&ts[k]));
        find_from(s, p, d)
    } else {
        ident_at_exec(s, p)
    }
}

/// One step of matching: the token at `k`, at position `pos`; see [`token_step`].
fn token_step_exec(ts: &Vec<Token>, k: usize, s: &Vec<char>, pos: usize) -> (r: Option<(usize, Vec<(String, String)>)>)
    requires
        k < ts@.len(),
        pos <= s@.len(),
        tokens_delimited(tokens_model(ts@)),
    ensures
        match r {
            Some((e, rec)) => token_step(tokens_model(ts@).skip(k as int), s@, pos as int) == Some(
                (e as int, pairs_view(rec@)),
            ) && e <= s@.len(),
            None => token_step(tokens_model(ts@).skip(k as int), s@, pos as int) is None,
        },
{
    let ghost m = tokens_model(ts@);
    let ghost rest = m.skip(k as int);
    assert(rest[0] == ts@[k as int]@);
    assert(rest.drop_first() =~= m.skip(k + 1));
    proof {
        if k + 1 < ts@.len() && !is_literal(ts@[k as int]@) {
            assert(m[k as int] == ts@[k as int]@);
            assert(m[k + 1] == ts@[k + 1]@);
        }
    }
    let mut rec: Vec<(String, String)> = Vec::new();
    assert(pairs_view(rec@) =~= Seq::<(Seq<char>, Seq<char>)>::empty());
    let n = ts.len();
    assert(k + 1 <= n);
    match &ts[k] {
        Token::MatchAny => {
            match value_end_exec(ts, k + 1, s, pos) {
                Some(e) => Some((e, rec)),
                None => None,
            }
        },
        Token::Capture { ident } => {
            match value_end_exec(ts, k + 1, s, pos) {
                Some(e) => {
                    let value = string_of_range(s, pos, e);
                    rec.push((ident.clone(), value));
                    assert(pairs_view(rec@) =~= seq![(ident@, s@.subrange(pos as int, e as int))]);
                    Some((e, rec))
                },
                None => None,
            }
        },
        Token::QueryCapture { ident, value } => {
            let mut key = String::new();
            append_str(&mut key, ident.as_str());
            key.push('=');
            let kc = chars_of(key.as_str());
            assert(kc@ =~= ident@ + seq!['=']);
            if !occurs_at_exec(s, pos, &kc) {
                return None;
            }
            assert(pos + kc@.len() <= s@.len() && s@.len() == s.len() && kc@.len() == kc.len());
            let q = pos + kc.len();
            match value_end_exec(ts, k + 1, s, q) {
                Some(e) => {
                    let v = string_of_range(s, q, e);
                    rec.push((value.clone(), v));
                    assert(pairs_view(rec@) =~= seq![(value@, s@.subrange(q as int, e as int))]);
                    Some((e, rec))
                },
                None => None,
            }
        },
        t => {
            let l = chars_of(delimiter_lookup(t));
            if occurs_at_exec(s, pos, &l) {
                assert(pos + l@.len() <= s@.len() && s@.len() == s.len() && l@.len() == l.len());
                Some((pos + l.len(), rec))
            } else {
                None
            }
        },
    }
}

/// Whether every non-literal token that is not the last is followed by a literal token,
/// as [`create_path_matcher`] needs.
pub fn tokens_are_delimited(tokens: &Vec<Token>) -> (r: bool)
    ensures
        r == tokens_delimited(tokens_model(tokens@)),
{
    let ghost m = tokens_model(tokens@);
    let n = tokens.len();
    let mut k: usize = 0;
    while n > 0 && k < n - 1
        invariant
            m == tokens_model(tokens@),
            n == tokens@.len(),
            k <= n,
            forall|i: int| 0 <= i < k && i < n - 1 && !is_literal(#[trigger] m[i]) ==> is_literal(m[i + 1]),
        decreases n - k,
    {
        assert(m[k as int] == tokens@[k as int]@);
        assert(m[k + 1] == tokens@[k + 1]@);
        let here_literal = match &tokens[k] {
            Token::MatchAny | Token::Capture { .. } | Token::QueryCapture { .. } => false,
            _ => true,
        };
        let next_literal = match &tokens[k + 1] {
            Token::MatchAny | Token::Capture { .. } | Token::QueryCapture { .. } => false,
            _ => true,
        };
        if !here_literal && !next_literal {
            return false;
        }
        k = k + 1;
    }
    true
}

/// Matches the route string `i` against the tokens, one after another, from its start.
/// Yields the unmatched rest of `i` and the recorded values.
pub fn create_path_matcher(i: &str, tokens: Vec<Token>) -> (r: Option<(String, Captures)>)
    requires
        tokens_delimited(tokens_model(tokens@)),
    ensures
        match r {
            Some((rest, caps)) => match match_token_list(tokens_model(tokens@), i@, 0) {
                Some((q, pairs)) => rest@ == i@.skip(q) && caps@ == pairs,
                None => false,
            },
            None => match_token_list(tokens_model(tokens@), i@, 0) is None,
        },
{
    let s = chars_of(i);
    let ghost m = tokens_model(tokens@);
    let mut caps: Vec<(String, String)> = Vec::new();
    let mut pos: usize = 0;
    let mut k: usize = 0;
    assert(m.skip(0) =~= m);
    assert(pairs_view(caps@) =~= Seq::<(Seq<char>, Seq<char>)>::empty());
    proof { lemma_after_captures_empty(match_token_list(m, s@, 0)); }
    while k < tokens.len()
        invariant
            m == tokens_model(tokens@),
            tokens_delimited(m),
            s@ == i@,
            k <= tokens@.len(),
            pos <= s@.len(),
            match_token_list(m, s@, 0) == after_captures(
                pairs_view(caps@),
                match_token_list(m.skip(k as int), s@, pos as int),
            ),
        decreases tokens@.len() - k,
    {
        let ghost old_caps = pairs_view(caps@);
        assert(m.skip(k as int).drop_first() =~= m.skip(k + 1));
        match token_step_exec(&tokens, k, &s, pos) {
            Some((e, rec)) => {
                let ghost rv = pairs_view(rec@);
                let mut rec = rec;
                caps.append(&mut rec);
                assert(pairs_view(caps@) =~= old_caps + rv);
                proof { lemma_after_captures_join(old_caps, rv, match_token_list(m.skip(k + 1), s@, e as int)); }
                pos = e;
            },
            None => {
                return None;
            },
        }
        k = k + 1;
    }
    assert(m.skip(k as int).len() == 0);
    let rest = string_of_range(&s, pos, s.len());
    assert(rest@ =~= i@.skip(pos as int));
    assert(pairs_view(caps@) + Seq::<(Seq<char>, Seq<char>)>::empty() =~= pairs_view(caps@));
    Some((rest, Captures { entries: caps }))
}

/// A section capture takes every character from `p` up to the first of `` */#&?|{}=``
/// (a space among them), or up to the end.
pub proof fn lemma_section_capture_run(s: Seq<char>, p: int, e: int)
    requires
        0 <= p < e <= s.len(),
        forall|k: int| p <= k < e ==> !(#[trigger] s[k] == ' ' || s[k] == '*' || s[k] == '/' || s[k] == '#' || s[k] == '&' || s[k] == '?' || s[k] == '|' || s[k] == '{' || s[k] == '}' || s[k] == '='),
        e == s.len() || s[e] == ' ' || s[e] == '*' || s[e] == '/' || s[e] == '#' || s[e] == '&' || s[e] == '?' || s[e] == '|' || s[e] == '{' || s[e] == '}' || s[e] == '=',
    ensures
        nonempty_run(s, p, section_class()) == Some(e),
{
    lemma_run_end_at(s, p, e, section_class());
}

/// A capture at the end of the tokens, after a literal, records everything that follows
/// the literal when that holds none of `` */#&?|{}=``, and the match uses the whole
/// string.
pub proof fn lemma_flat_trailing_capture(lit: Seq<char>, id: Seq<char>, w: Seq<char>)
    requires
        w.len() > 0,
        forall|k: int| 0 <= k < w.len() ==> !(w[k] == ' ' || w[k] == '*' || w[k] == '/' || w[k] == '#' || w[k] == '&' || w[k] == '?' || w[k] == '|' || w[k] == '{' || w[k] == '}' || w[k] == '='),
    ensures
        match_flat(
            seq![OptimizedTokenModel::Match(lit), OptimizedTokenModel::Capture(id)],
            lit + w,
            0,
        ) == Some(((lit + w).len() as int, seq![(id, w)])),
{
    let s = lit + w;
    let ts = seq![OptimizedTokenModel::Match(lit), OptimizedTokenModel::Capture(id)];
    let p = lit.len() as int;
    assert(s.subrange(0, p) =~= lit);
    assert forall|k: int| p <= k < s.len() implies !(s[k] == ' ' || s[k] == '*' || s[k] == '/' || s[k] == '#' || s[k] == '&' || s[k] == '?' || s[k] == '|' || s[k] == '{' || s[k] == '}' || s[k] == '=') by {
        assert(s[k] == w[k - p]);
    }
    lemma_section_capture_run(s, p, s.len() as int);
    let rest = ts.drop_first();
    assert(rest =~= seq![OptimizedTokenModel::Capture(id)]);
    assert(rest.drop_first() =~= Seq::<OptimizedTokenModel>::empty());
    assert(s.subrange(p, s.len() as int) =~= w);
    assert(flat_step(rest, s, p) == Some((s.len() as int, seq![(id, w)])));
    assert(match_flat(rest.drop_first(), s, s.len() as int) == Some((s.len() as int, Seq::<(Seq<char>, Seq<char>)>::empty())));
    assert(seq![(id, w)] + Seq::<(Seq<char>, Seq<char>)>::empty() =~= seq![(id, w)]);
    assert(match_flat(rest, s, p) == Some((s.len() as int, seq![(id, w)])));
    assert(flat_step(ts, s, 0) == Some((p, Seq::<(Seq<char>, Seq<char>)>::empty())));
    assert(Seq::<(Seq<char>, Seq<char>)>::empty() + seq![(id, w)] =~= seq![(id, w)]);
}

} // verus!
