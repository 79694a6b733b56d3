//! The shape of parsed token sequences, and why their condensed form is always usable for
//! matching: every capture that is followed by other tokens finds a delimiter after it.
use vstd::prelude::*;
use crate::grammar::{
    capture_at, fragment_at, ident_at, parse_spec, path_at, plain_fragment_at, prefix_tokens,
    query_at, query_item_at, query_rest_at, section_at, section_rest_at, segments_at,
};
use crate::matcher::{first_literal, delimiters_after, well_formed};
use crate::optimizer::{flush, is_plain_token, optimize_spec, optimized, plain_text, run_text, value_token, MatcherTokenModel};
use crate::token::{CaptureOrMatchModel, TokenModel};

verus! {

/// A token that consumes a variable amount of text: a capture, or a query item whose value
/// is a capture.
pub open spec fn is_cap(t: TokenModel) -> bool {
    t is Capture || (t is QueryCapture && t->QueryCapture_1 is Capture)
}

/// A token that begins with literal text once condensed.
pub open spec fn lit_start(t: TokenModel) -> bool {
    (is_plain_token(t) && plain_text(t).len() > 0) || t is QueryCapture
}

/// An optional section whose first token begins with literal text.
pub open spec fn opt_lit(t: TokenModel) -> bool {
    t is Optional && t->Optional_0.len() > 0 && lit_start(t->Optional_0[0])
}

/// What may follow a capture: nothing, a token that begins with literal text, or optional
/// sections that begin with literal text, followed by more of the same.
pub open spec fn good_after(x: Seq<TokenModel>) -> bool
    decreases x.len(),
{
    if x.len() == 0 {
        true
    } else if lit_start(x[0]) {
        true
    } else {
        opt_lit(x[0]) && good_after(x.drop_first())
    }
}

/// Every capture is followed by what [`good_after`] allows, also inside optional sections.
pub open spec fn guarded(ts: Seq<TokenModel>) -> bool
    decreases ts,
{
    if ts.len() == 0 {
        true
    } else {
        &&& (is_cap(ts[0]) ==> good_after(ts.drop_first()))
        &&& match ts[0] {
            TokenModel::Optional(inner) => guarded(inner),
            _ => true,
        }
        &&& guarded(ts.drop_first())
    }
}

/// No optional sections.
pub open spec fn no_opt(t: Seq<TokenModel>) -> bool {
    forall|i: int| 0 <= i < t.len() ==> !(#[trigger] t[i] is Optional)
}

/// Every capture but a last one is directly followed by a token that begins with literal text.
pub open spec fn flat_guarded(t: Seq<TokenModel>) -> bool {
    forall|i: int| 0 <= i < t.len() - 1 && #[trigger] is_cap(t[i]) ==> lit_start(t[i + 1])
}

// ---------------------------------------------------------------------------------------
// Condensing
// ---------------------------------------------------------------------------------------

/// With a pending literal run, the condensed form begins with a literal.
proof fn lemma_run_first_literal(ts: Seq<TokenModel>, run: Option<Seq<char>>)
    requires
        run is Some,
    ensures
        optimize_spec(ts, run).len() > 0,
        optimize_spec(ts, run)[0] is Match,
    decreases ts,
{
    if ts.len() > 0 {
        let t = ts[0];
        if is_plain_token(t) {
            lemma_run_first_literal(ts.drop_first(), Some(run_text(run) + plain_text(t)));
        }
    }
}

/// Tokens that begin with literal text condense to tokens that begin with a literal.
proof fn lemma_lit_start_first_literal(x: Seq<TokenModel>)
    requires
        x.len() > 0,
        lit_start(x[0]),
    ensures
        optimized(x).len() > 0,
        optimized(x)[0] is Match,
{
    let t = x[0];
    if is_plain_token(t) {
        lemma_run_first_literal(x.drop_first(), Some(run_text(None) + plain_text(t)));
    } else {
        assert(flush(None) =~= Seq::<MatcherTokenModel>::empty());
    }
}

/// What may follow a capture condenses to tokens in which the capture finds its delimiters.
proof fn lemma_good_after_delimiters(x: Seq<TokenModel>)
    requires
        good_after(x),
    ensures
        delimiters_after(optimized(x)) is Some,
    decreases x.len(),
{
    if x.len() == 0 {
        assert(optimized(x) =~= Seq::<MatcherTokenModel>::empty());
    } else if lit_start(x[0]) {
        lemma_lit_start_first_literal(x);
    } else {
        let inner = x[0]->Optional_0;
        lemma_lit_start_first_literal(inner);
        lemma_good_after_delimiters(x.drop_first());
        let o = optimized(x);
        let oi = optimized(inner);
        let orest = optimized(x.drop_first());
        assert(flush(None) =~= Seq::<MatcherTokenModel>::empty());
        assert(o =~= seq![MatcherTokenModel::Optional(oi)] + orest);
        assert(o.drop_first() =~= orest);
        assert(first_literal(oi) is Some);
    }
}

/// A literal in front keeps well-formedness as it is.
proof fn lemma_wf_literal(t: Seq<char>, y: Seq<MatcherTokenModel>)
    ensures
        well_formed(seq![MatcherTokenModel::Match(t)] + y) == well_formed(y),
{
    assert((seq![MatcherTokenModel::Match(t)] + y).drop_first() =~= y);
}

/// A pending run in front keeps well-formedness as it is.
proof fn lemma_wf_flush(run: Option<Seq<char>>, y: Seq<MatcherTokenModel>)
    ensures
        well_formed(flush(run) + y) == well_formed(y),
{
    match run {
        Some(t) => lemma_wf_literal(t, y),
        None => assert(flush(run) + y =~= y),
    }
}

/// Condensing guarded tokens yields well-formed matcher tokens.
proof fn lemma_optimize_well_formed(ts: Seq<TokenModel>, run: Option<Seq<char>>)
    requires
        guarded(ts),
    ensures
        well_formed(optimize_spec(ts, run)),
    decreases ts,
{
    if ts.len() == 0 {
        lemma_wf_flush(run, Seq::empty());
        assert(flush(run) + Seq::<MatcherTokenModel>::empty() =~= flush(run));
    } else {
        let t = ts[0];
        let rest = ts.drop_first();
        if is_plain_token(t) {
            lemma_optimize_well_formed(rest, Some(run_text(run) + plain_text(t)));
        } else {
            lemma_optimize_well_formed(rest, None);
            let orest = optimize_spec(rest, None);
            match t {
                TokenModel::Optional(inner) => {
                    lemma_optimize_well_formed(inner, None);
                    let x = MatcherTokenModel::Optional(optimize_spec(inner, None));
                    assert((seq![x] + orest).drop_first() =~= orest);
                    assert(flush(run) + seq![x] + orest =~= flush(run) + (seq![x] + orest));
                    lemma_wf_flush(run, seq![x] + orest);
                },
                TokenModel::Capture(v) => {
                    lemma_good_after_delimiters(rest);
                    let x = MatcherTokenModel::Capture(v);
                    assert((seq![x] + orest).drop_first() =~= orest);
                    assert(flush(run) + seq![x] + orest =~= flush(run) + (seq![x] + orest));
                    lemma_wf_flush(run, seq![x] + orest);
                },
                TokenModel::QueryCapture(ident, value) => {
                    let e = MatcherTokenModel::Match(ident + seq!['=']);
                    let x = value_token(value);
                    if value is Capture {
                        lemma_good_after_delimiters(rest);
                    }
                    assert((seq![x] + orest).drop_first() =~= orest);
                    lemma_wf_literal(ident + seq!['='], seq![x] + orest);
                    assert(seq![e, x] + orest =~= seq![e] + (seq![x] + orest));
                    assert(flush(run) + seq![e, x] + orest =~= flush(run) + (seq![e, x] + orest));
                    lemma_wf_flush(run, seq![e, x] + orest);
                },
                _ => {},
            }
        }
    }
}

/// The condensed form of guarded tokens is well formed.
pub proof fn lemma_guarded_optimized(ts: Seq<TokenModel>)
    requires
        guarded(ts),
    ensures
        well_formed(optimized(ts)),
{
    lemma_optimize_well_formed(ts, None);
}

// ---------------------------------------------------------------------------------------
// Concatenation
// ---------------------------------------------------------------------------------------

/// Joining flat sequences keeps them flat and guarded when the join is guarded.
proof fn lemma_flat_concat(a: Seq<TokenModel>, b: Seq<TokenModel>)
    requires
        flat_guarded(a),
        flat_guarded(b),
        no_opt(a),
        no_opt(b),
        a.len() > 0 && b.len() > 0 && is_cap(a.last()) ==> lit_start(b[0]),
    ensures
        flat_guarded(a + b),
        no_opt(a + b),
{
    let c = a + b;
    assert forall|i: int| 0 <= i < c.len() - 1 && #[trigger] is_cap(c[i]) implies lit_start(c[i + 1]) by {
        if i < a.len() - 1 {
            assert(c[i] == a[i] && c[i + 1] == a[i + 1]);
        } else if i == a.len() - 1 {
            assert(c[i] == a.last() && c[i + 1] == b[0]);
        } else {
            assert(c[i] == b[i - a.len()] && c[i + 1] == b[i + 1 - a.len()]);
        }
    }
    assert forall|i: int| 0 <= i < c.len() implies !(#[trigger] c[i] is Optional) by {
        if i < a.len() {
            assert(c[i] == a[i]);
        } else {
            assert(c[i] == b[i - a.len()]);
        }
    }
}

/// A flat guarded sequence in front of a guarded one gives a guarded sequence, when what
/// follows a trailing capture is allowed after it.
proof fn lemma_guarded_concat(a: Seq<TokenModel>, b: Seq<TokenModel>)
    requires
        flat_guarded(a),
        no_opt(a),
        guarded(b),
        a.len() > 0 && is_cap(a.last()) ==> good_after(b),
    ensures
        guarded(a + b),
    decreases a.len(),
{
    if a.len() == 0 {
        assert(a + b =~= b);
    } else {
        let c = a + b;
        let a2 = a.drop_first();
        assert(c.drop_first() =~= a2 + b);
        assert(!(a[0] is Optional));
        assert forall|i: int| 0 <= i < a2.len() - 1 && #[trigger] is_cap(a2[i]) implies lit_start(a2[i + 1]) by {
            assert(a2[i] == a[i + 1] && a2[i + 1] == a[i + 2]);
            assert(is_cap(a[i + 1]));
        }
        assert forall|i: int| 0 <= i < a2.len() implies !(#[trigger] a2[i] is Optional) by {
            assert(a2[i] == a[i + 1]);
        }
        if a2.len() > 0 {
            assert(a2.last() == a.last());
        }
        lemma_guarded_concat(a2, b);
        if is_cap(a[0]) {
            if a.len() > 1 {
                assert(is_cap(a[0]) && 0 < a.len() - 1);
                assert(lit_start(a[1]));
                assert((a2 + b)[0] == a[1]);
            } else {
                assert(a2 + b =~= b);
            }
        }
    }
}

/// A flat guarded sequence is guarded.
proof fn lemma_flat_guarded(t: Seq<TokenModel>)
    requires
        flat_guarded(t),
        no_opt(t),
    ensures
        guarded(t),
{
    lemma_guarded_concat(t, Seq::empty());
    assert(t + Seq::<TokenModel>::empty() =~= t);
}

// ---------------------------------------------------------------------------------------
// The grammar
// ---------------------------------------------------------------------------------------

/// The tokens after a section's first one alternate literals and captures; after a capture
/// a non-empty literal follows.
proof fn lemma_section_rest(s: Seq<char>, p: int, after_match: bool)
    ensures
        flat_guarded(section_rest_at(s, p, after_match).0),
        no_opt(section_rest_at(s, p, after_match).0),
        section_rest_at(s, p, after_match).0.len() > 0 && !after_match ==> lit_start(
            section_rest_at(s, p, after_match).0[0],
        ),
    decreases s.len() - p,
{
    if after_match {
        match capture_at(s, p) {
            Some((v, e)) => if p < e <= s.len() {
                let (t, f) = section_rest_at(s, e, false);
                lemma_section_rest(s, e, false);
                let one = seq![TokenModel::Capture(v)];
                lemma_flat_concat(one, t);
            },
            None => {},
        }
    } else {
        match ident_at(s, p) {
            Some(e) => if p < e <= s.len() {
                let (t, f) = section_rest_at(s, e, true);
                lemma_section_rest(s, e, true);
                let one = seq![TokenModel::Match(s.subrange(p, e))];
                lemma_flat_concat(one, t);
                assert((one + t)[0] == one[0]);
            },
            None => {},
        }
    }
}

/// A section is flat and guarded.
proof fn lemma_section(s: Seq<char>, p: int)
    requires
        section_at(s, p) is Some,
    ensures
        flat_guarded((section_at(s, p)->0).0),
        no_opt((section_at(s, p)->0).0),
{
    match ident_at(s, p) {
        Some(e) => {
            lemma_section_rest(s, e, true);
            let (t, f) = section_rest_at(s, e, true);
            lemma_flat_concat(seq![TokenModel::Match(s.subrange(p, e))], t);
        },
        None => {
            let (v, e) = capture_at(s, p)->0;
            lemma_section_rest(s, e, false);
            let (t, f) = section_rest_at(s, e, false);
            lemma_flat_concat(seq![TokenModel::Capture(v)], t);
        },
    }
}

/// Path segments are flat and guarded, and begin with `/`.
proof fn lemma_segments(s: Seq<char>, p: int)
    ensures
        flat_guarded(segments_at(s, p).0),
        no_opt(segments_at(s, p).0),
        segments_at(s, p).0.len() > 0 ==> segments_at(s, p).0[0] is Separator,
    decreases s.len() - p,
{
    if 0 <= p < s.len() && s[p] == '/' && section_at(s, p + 1) is Some {
        let (t, e) = section_at(s, p + 1)->0;
        if p < e <= s.len() {
            let (r, f) = segments_at(s, e);
            lemma_section(s, p + 1);
            lemma_segments(s, e);
            let one = seq![TokenModel::Separator];
            lemma_flat_concat(one, t);
            if r.len() > 0 {
                assert(plain_text(r[0]).len() == 1);
            }
            lemma_flat_concat(one + t, r);
            assert((one + t + r)[0] == TokenModel::Separator);
        }
    }
}

/// A path is flat and guarded.
proof fn lemma_path(s: Seq<char>, p: int)
    requires
        path_at(s, p) is Some,
    ensures
        flat_guarded((path_at(s, p)->0).0),
        no_opt((path_at(s, p)->0).0),
{
    let (t, e) = segments_at(s, p);
    lemma_segments(s, p);
    if e > p {
        if e < s.len() && s[e] == '/' {
            let one = seq![TokenModel::Separator];
            assert(plain_text(one[0]).len() == 1);
            lemma_flat_concat(t, one);
            assert(t + one =~= t.push(TokenModel::Separator));
        }
    }
}

/// Query items after the first are flat and guarded, and begin with `&`.
proof fn lemma_query_rest(s: Seq<char>, p: int)
    ensures
        flat_guarded(query_rest_at(s, p).0),
        no_opt(query_rest_at(s, p).0),
        query_rest_at(s, p).0.len() > 0 ==> query_rest_at(s, p).0[0] is QuerySeparator,
    decreases s.len() - p,
{
    if 0 <= p < s.len() && s[p] == '&' && query_item_at(s, p + 1) is Some {
        let (t, e) = query_item_at(s, p + 1)->0;
        if p < e <= s.len() {
            let (r, f) = query_rest_at(s, e);
            lemma_query_rest(s, e);
            let two = seq![TokenModel::QuerySeparator, t];
            if r.len() > 0 {
                assert(plain_text(r[0]).len() == 1);
            }
            assert(t is QueryCapture);
            assert(!(two[0] is Optional) && !(two[1] is Optional));
            lemma_flat_concat(two, r);
            assert((two + r)[0] == TokenModel::QuerySeparator);
        }
    }
}

/// A query is flat and guarded, and begins with `?`.
proof fn lemma_query(s: Seq<char>, p: int)
    requires
        query_at(s, p) is Some,
    ensures
        flat_guarded((query_at(s, p)->0).0),
        no_opt((query_at(s, p)->0).0),
        (query_at(s, p)->0).0.len() > 0,
        (query_at(s, p)->0).0[0] is QueryBegin,
{
    let (t, e) = query_item_at(s, p + 1)->0;
    let (r, f) = query_rest_at(s, e);
    lemma_query_rest(s, e);
    let two = seq![TokenModel::QueryBegin, t];
    if r.len() > 0 {
        assert(plain_text(r[0]).len() == 1);
    }
    assert(t is QueryCapture);
    assert(!(two[0] is Optional) && !(two[1] is Optional));
    lemma_flat_concat(two, r);
    assert((two + r)[0] == TokenModel::QueryBegin);
}

/// A plain fragment is guarded and begins with `#`.
proof fn lemma_plain_fragment(s: Seq<char>, p: int)
    requires
        plain_fragment_at(s, p) is Some,
    ensures
        guarded((plain_fragment_at(s, p)->0).0),
        (plain_fragment_at(s, p)->0).0.len() > 0,
        (plain_fragment_at(s, p)->0).0[0] is FragmentBegin,
{
    let one = seq![TokenModel::FragmentBegin];
    if section_at(s, p + 1) is Some {
        let (t, e) = section_at(s, p + 1)->0;
        lemma_section(s, p + 1);
        lemma_flat_guarded(t);
        lemma_guarded_concat(one, t);
        assert((one + t)[0] == TokenModel::FragmentBegin);
    } else if p + 1 < s.len() && s[p + 1] == '(' && section_at(s, p + 2) is Some && {
        let e = (section_at(s, p + 2)->0).1;
        e < s.len() && s[e] == ')'
    } {
        let (t, e) = section_at(s, p + 2)->0;
        lemma_section(s, p + 2);
        lemma_flat_guarded(t);
        let o = seq![TokenModel::Optional(t)];
        assert(o.drop_first() =~= Seq::<TokenModel>::empty());
        assert(guarded(Seq::<TokenModel>::empty()));
        assert(guarded(o));
        lemma_guarded_concat(one, o);
        assert(one + o =~= seq![TokenModel::FragmentBegin, TokenModel::Optional(t)]);
    } else {
        assert(one.drop_first() =~= Seq::<TokenModel>::empty());
        assert(guarded(Seq::<TokenModel>::empty()));
    }
}

/// A fragment is guarded, and may follow a capture.
proof fn lemma_fragment(s: Seq<char>, p: int)
    requires
        fragment_at(s, p) is Some,
    ensures
        guarded((fragment_at(s, p)->0).0),
        good_after((fragment_at(s, p)->0).0),
{
    if plain_fragment_at(s, p) is Some {
        lemma_plain_fragment(s, p);
        let t = (plain_fragment_at(s, p)->0).0;
        assert(plain_text(t[0]).len() == 1);
    } else {
        lemma_plain_fragment(s, p + 1);
        let t = (plain_fragment_at(s, p + 1)->0).0;
        assert(plain_text(t[0]).len() == 1);
        let o = seq![TokenModel::Optional(t)];
        assert(o.drop_first() =~= Seq::<TokenModel>::empty());
        assert(guarded(Seq::<TokenModel>::empty()));
        assert(guarded(o));
        assert(opt_lit(o[0]));
        assert(good_after(o));
    }
}

/// Path, query and fragment joined are guarded.
proof fn lemma_join(t1: Seq<TokenModel>, t2: Seq<TokenModel>, t3: Seq<TokenModel>)
    requires
        flat_guarded(t1),
        no_opt(t1),
        flat_guarded(t2),
        no_opt(t2),
        t2.len() > 0 ==> t2[0] is QueryBegin,
        guarded(t3),
        good_after(t3),
    ensures
        guarded(t1 + t2 + t3),
{
    if t2.len() > 0 {
        assert(plain_text(t2[0]).len() == 1);
    }
    lemma_guarded_concat(t2, t3);
    let t23 = t2 + t3;
    if t2.len() > 0 {
        assert(t23[0] == t2[0]);
    } else {
        assert(t23 =~= t3);
    }
    assert(good_after(t23));
    lemma_guarded_concat(t1, t23);
    assert(t1 + t2 + t3 =~= t1 + t23);
}

/// What path, query and fragment yield is guarded.
proof fn lemma_prefix_guarded(s: Seq<char>)
    ensures
        guarded(prefix_tokens(s).0),
{
    let (t1, e1) = match path_at(s, 0) {
        Some(x) => x,
        None => (Seq::empty(), 0),
    };
    let (t2, e2) = match query_at(s, e1) {
        Some(x) => x,
        None => (Seq::empty(), e1),
    };
    let (t3, e3) = match fragment_at(s, e2) {
        Some(x) => x,
        None => (Seq::empty(), e2),
    };
    if path_at(s, 0) is Some {
        lemma_path(s, 0);
    }
    if query_at(s, e1) is Some {
        lemma_query(s, e1);
    }
    if fragment_at(s, e2) is Some {
        lemma_fragment(s, e2);
    } else {
        assert(guarded(t3));
    }
    lemma_join(t1, t2, t3);
}

/// Every token sequence that the grammar yields is guarded.
pub proof fn lemma_parse_guarded(s: Seq<char>)
    requires
        parse_spec(s) is Ok,
    ensures
        guarded(parse_spec(s)->Ok_0),
{
    let (t, e) = prefix_tokens(s);
    if e == s.len() {
        lemma_prefix_guarded(s);
    } else {
        let v = (capture_at(s, 0)->0).0;
        let one = seq![TokenModel::Capture(v)];
        assert(one.drop_first() =~= Seq::<TokenModel>::empty());
        assert(guarded(Seq::<TokenModel>::empty()));
    }
}

/// A matcher string that parses condenses to matcher tokens in which every capture that
/// is followed by other tokens has its delimiters: matching with them never lacks one.
pub proof fn lemma_parsed_well_formed(s: Seq<char>)
    requires
        parse_spec(s) is Ok,
    ensures
        well_formed(optimized(parse_spec(s)->Ok_0)),
{
    lemma_parse_guarded(s);
    lemma_guarded_optimized(parse_spec(s)->Ok_0);
}

} // verus!
