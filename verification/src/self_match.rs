//! A matcher string made only of fixed text matches exactly itself.
use vstd::prelude::*;
use crate::grammar::{
    capture_at, capture_or_match_at, fragment_at, ident_at, parse_spec, path_at, plain_fragment_at,
    prefix_tokens, query_at, query_item_at, query_rest_at, section_at, section_rest_at, segments_at,
};
use crate::matcher::{chars_eq_no_case, literal_at, match_route, match_tokens, MatcherSettings};
use crate::optimizer::{flush, is_plain_token, optimize_spec, optimized, plain_text, run_text, MatcherTokenModel};
use crate::parser::lemma_capture_at_bounds;
use crate::text::{lemma_run_end, occurs_at};
use crate::grammar::ident_class;
use crate::token::{CaptureOrMatchModel, TokenModel};

verus! {

/// A token that stands for fixed text: a literal, or a query item with a literal value.
pub open spec fn is_fixed(t: TokenModel) -> bool {
    is_plain_token(t) || (t is QueryCapture && t->QueryCapture_1 is Match)
}

/// The text a fixed token stands for.
pub open spec fn fixed_text(t: TokenModel) -> Seq<char> {
    match t {
        TokenModel::QueryCapture(id, CaptureOrMatchModel::Match(m)) => id + seq!['='] + m,
        _ => plain_text(t),
    }
}

/// Every token stands for fixed text.
pub open spec fn all_fixed(ts: Seq<TokenModel>) -> bool {
    forall|i: int| 0 <= i < ts.len() ==> is_fixed(#[trigger] ts[i])
}

/// The texts of the tokens, one after another.
pub open spec fn fixed_texts(ts: Seq<TokenModel>) -> Seq<char>
    decreases ts.len(),
{
    if ts.len() == 0 {
        Seq::empty()
    } else {
        fixed_text(ts[0]) + fixed_texts(ts.drop_first())
    }
}

/// Every matcher token is a literal.
pub open spec fn all_literal(ms: Seq<MatcherTokenModel>) -> bool {
    forall|i: int| 0 <= i < ms.len() ==> #[trigger] ms[i] is Match
}

/// The texts of literal matcher tokens, one after another.
pub open spec fn literal_texts(ms: Seq<MatcherTokenModel>) -> Seq<char>
    decreases ms.len(),
{
    if ms.len() == 0 {
        Seq::empty()
    } else {
        ms[0]->Match_0 + literal_texts(ms.drop_first())
    }
}

// ---------------------------------------------------------------------------------------
// Joining
// ---------------------------------------------------------------------------------------

/// The texts of joined tokens are the joined texts, and joined sequences are fixed when
/// both parts are.
proof fn lemma_fixed_join(a: Seq<TokenModel>, b: Seq<TokenModel>)
    ensures
        fixed_texts(a + b) == fixed_texts(a) + fixed_texts(b),
        all_fixed(a + b) <==> all_fixed(a) && all_fixed(b),
    decreases a.len(),
{
    if a.len() == 0 {
        assert(a + b =~= b);
        assert(Seq::<char>::empty() + fixed_texts(b) =~= fixed_texts(b));
    } else {
        lemma_fixed_join(a.drop_first(), b);
        assert((a + b).drop_first() =~= a.drop_first() + b);
        assert(fixed_text(a[0]) + (fixed_texts(a.drop_first()) + fixed_texts(b)) =~= (fixed_text(a[0])
            + fixed_texts(a.drop_first())) + fixed_texts(b));
    }
    assert(all_fixed(a + b) <==> all_fixed(a) && all_fixed(b)) by {
        if all_fixed(a + b) {
            assert forall|i: int| 0 <= i < a.len() implies is_fixed(#[trigger] a[i]) by {
                assert((a + b)[i] == a[i]);
            }
            assert forall|i: int| 0 <= i < b.len() implies is_fixed(#[trigger] b[i]) by {
                assert((a + b)[a.len() + i] == b[i]);
            }
        }
        if all_fixed(a) && all_fixed(b) {
            assert forall|i: int| 0 <= i < (a + b).len() implies is_fixed(#[trigger] (a + b)[i]) by {
                if i < a.len() {
                    assert((a + b)[i] == a[i]);
                } else {
                    assert((a + b)[i] == b[i - a.len()]);
                }
            }
        }
    }
}

/// The text of one fixed token.
proof fn lemma_fixed_one(t: TokenModel)
    ensures
        fixed_texts(seq![t]) == fixed_text(t),
        all_fixed(seq![t]) == is_fixed(t),
{
    let one = seq![t];
    assert(fixed_texts(Seq::<TokenModel>::empty()) == Seq::<char>::empty());
    assert(one.drop_first() =~= Seq::<TokenModel>::empty());
    assert(one[0] == t);
    assert(fixed_text(t) + Seq::<char>::empty() =~= fixed_text(t));
    if is_fixed(t) {
        assert forall|i: int| 0 <= i < one.len() implies is_fixed(#[trigger] one[i]) by {
            assert(one[i] == t);
        }
    } else {
        assert(!is_fixed(one[0]));
    }
}

/// Adjacent pieces of a sequence join up.
proof fn lemma_subrange_join(s: Seq<char>, p: int, e: int, f: int)
    requires
        0 <= p <= e <= f <= s.len(),
    ensures
        s.subrange(p, e) + s.subrange(e, f) == s.subrange(p, f),
{
    assert(s.subrange(p, e) + s.subrange(e, f) =~= s.subrange(p, f));
}

/// One character of a sequence as a piece.
proof fn lemma_subrange_one(s: Seq<char>, p: int, c: char)
    requires
        0 <= p < s.len(),
        s[p] == c,
    ensures
        s.subrange(p, p + 1) == seq![c],
{
    assert(s.subrange(p, p + 1) =~= seq![c]);
}

// ---------------------------------------------------------------------------------------
// The grammar reads fixed text back as that text
// ---------------------------------------------------------------------------------------

/// An identifier ends after it starts and within the input.
proof fn lemma_ident_bounds(s: Seq<char>, p: int)
    requires
        ident_at(s, p) is Some,
    ensures
        p < ident_at(s, p)->0 <= s.len(),
{
    lemma_run_end(s, p, ident_class());
}

/// What follows a section's first token spells out the text it was read from, where it
/// is fixed.
proof fn lemma_section_rest_text(s: Seq<char>, p: int, after_match: bool)
    requires
        0 <= p <= s.len(),
    ensures
        p <= section_rest_at(s, p, after_match).1 <= s.len(),
        all_fixed(section_rest_at(s, p, after_match).0) ==> fixed_texts(section_rest_at(s, p, after_match).0)
            == s.subrange(p, section_rest_at(s, p, after_match).1),
    decreases s.len() - p,
{
    let (t, f) = section_rest_at(s, p, after_match);
    if after_match {
        match capture_at(s, p) {
            Some((v, e)) => if p < e <= s.len() {
                lemma_section_rest_text(s, e, false);
                let (t2, f2) = section_rest_at(s, e, false);
                assert(t == seq![TokenModel::Capture(v)] + t2);
                assert(t[0] == TokenModel::Capture(v));
                assert(!is_fixed(t[0]));
            } else {
                assert(fixed_texts(t) =~= s.subrange(p, p));
            },
            None => {
                assert(fixed_texts(t) =~= s.subrange(p, p));
            },
        }
    } else {
        match ident_at(s, p) {
            Some(e) => if p < e <= s.len() {
                lemma_section_rest_text(s, e, true);
                let (t2, f2) = section_rest_at(s, e, true);
                let one = seq![TokenModel::Match(s.subrange(p, e))];
                lemma_fixed_join(one, t2);
                lemma_fixed_one(one[0]);
                if all_fixed(t) {
                    lemma_subrange_join(s, p, e, f2);
                }
            } else {
                assert(fixed_texts(t) =~= s.subrange(p, p));
            },
            None => {
                assert(fixed_texts(t) =~= s.subrange(p, p));
            },
        }
    }
}

/// A section spells out the text it was read from, where it is fixed.
proof fn lemma_section_text(s: Seq<char>, p: int)
    requires
        0 <= p <= s.len(),
        section_at(s, p) is Some,
    ensures
        p <= (section_at(s, p)->0).1 <= s.len(),
        all_fixed((section_at(s, p)->0).0) ==> fixed_texts((section_at(s, p)->0).0) == s.subrange(
            p,
            (section_at(s, p)->0).1,
        ),
{
    let (t, f) = section_at(s, p)->0;
    match ident_at(s, p) {
        Some(e) => {
            lemma_ident_bounds(s, p);
            lemma_section_rest_text(s, e, true);
            let (t2, f2) = section_rest_at(s, e, true);
            let one = seq![TokenModel::Match(s.subrange(p, e))];
            lemma_fixed_join(one, t2);
            lemma_fixed_one(one[0]);
            if all_fixed(t) {
                lemma_subrange_join(s, p, e, f2);
            }
        },
        None => {
            let (v, e) = capture_at(s, p)->0;
            lemma_capture_at_bounds(s, p);
            lemma_section_rest_text(s, e, false);
            let (t2, f2) = section_rest_at(s, e, false);
            assert(t[0] == TokenModel::Capture(v));
            assert(!is_fixed(t[0]));
        },
    }
}

/// Path segments spell out the text they were read from, where they are fixed.
proof fn lemma_segments_text(s: Seq<char>, p: int)
    requires
        0 <= p <= s.len(),
    ensures
        p <= segments_at(s, p).1 <= s.len(),
        all_fixed(segments_at(s, p).0) ==> fixed_texts(segments_at(s, p).0) == s.subrange(p, segments_at(s, p).1),
    decreases s.len() - p,
{
    let (t, f) = segments_at(s, p);
    if 0 <= p < s.len() && s[p] == '/' && section_at(s, p + 1) is Some {
        let (t1, e) = section_at(s, p + 1)->0;
        lemma_section_text(s, p + 1);
        if p < e <= s.len() {
            lemma_segments_text(s, e);
            let (r, f2) = segments_at(s, e);
            let one = seq![TokenModel::Separator];
            lemma_fixed_join(one, t1);
            lemma_fixed_join(one + t1, r);
            lemma_fixed_one(TokenModel::Separator);
            if all_fixed(t) {
                lemma_subrange_one(s, p, '/');
                lemma_subrange_join(s, p, p + 1, e);
                lemma_subrange_join(s, p, e, f2);
            }
        } else {
            assert(fixed_texts(t) =~= s.subrange(p, p));
        }
    } else {
        assert(fixed_texts(t) =~= s.subrange(p, p));
    }
}

/// A path spells out the text it was read from, where it is fixed.
proof fn lemma_path_text(s: Seq<char>, p: int)
    requires
        0 <= p <= s.len(),
        path_at(s, p) is Some,
    ensures
        p <= (path_at(s, p)->0).1 <= s.len(),
        all_fixed((path_at(s, p)->0).0) ==> fixed_texts((path_at(s, p)->0).0) == s.subrange(p, (path_at(s, p)->0).1),
{
    let (t, e) = segments_at(s, p);
    lemma_segments_text(s, p);
    lemma_fixed_one(TokenModel::Separator);
    if e > p {
        if e < s.len() && s[e] == '/' {
            let one = seq![TokenModel::Separator];
            lemma_fixed_join(t, one);
            assert(t + one =~= t.push(TokenModel::Separator));
            if all_fixed(t.push(TokenModel::Separator)) {
                lemma_subrange_one(s, e, '/');
                lemma_subrange_join(s, p, e, e + 1);
            }
        }
    } else {
        lemma_subrange_one(s, p, '/');
    }
}

/// A query item spells out the text it was read from, where it is fixed.
proof fn lemma_query_item_text(s: Seq<char>, p: int)
    requires
        0 <= p <= s.len(),
        query_item_at(s, p) is Some,
    ensures
        p < (query_item_at(s, p)->0).1 <= s.len(),
        is_fixed((query_item_at(s, p)->0).0) ==> fixed_text((query_item_at(s, p)->0).0) == s.subrange(
            p,
            (query_item_at(s, p)->0).1,
        ),
{
    let e = ident_at(s, p)->0;
    lemma_ident_bounds(s, p);
    let (v, f) = capture_or_match_at(s, e + 1)->0;
    match capture_at(s, e + 1) {
        Some(_) => {
            lemma_capture_at_bounds(s, e + 1);
        },
        None => {
            lemma_ident_bounds(s, e + 1);
            lemma_subrange_one(s, e, '=');
            lemma_subrange_join(s, p, e, e + 1);
            lemma_subrange_join(s, p, e + 1, f);
        },
    }
}

/// Query items after the first spell out the text they were read from, where fixed.
proof fn lemma_query_rest_text(s: Seq<char>, p: int)
    requires
        0 <= p <= s.len(),
    ensures
        p <= query_rest_at(s, p).1 <= s.len(),
        all_fixed(query_rest_at(s, p).0) ==> fixed_texts(query_rest_at(s, p).0) == s.subrange(p, query_rest_at(s, p).1),
    decreases s.len() - p,
{
    let (t, f) = query_rest_at(s, p);
    if 0 <= p < s.len() && s[p] == '&' && query_item_at(s, p + 1) is Some {
        let (item, e) = query_item_at(s, p + 1)->0;
        lemma_query_item_text(s, p + 1);
        if p < e <= s.len() {
            lemma_query_rest_text(s, e);
            let (r, f2) = query_rest_at(s, e);
            let two = seq![TokenModel::QuerySeparator, item];
            assert(two == seq![TokenModel::QuerySeparator] + seq![item]);
            lemma_fixed_join(seq![TokenModel::QuerySeparator], seq![item]);
            lemma_fixed_one(TokenModel::QuerySeparator);
            lemma_fixed_one(item);
            lemma_fixed_join(two, r);
            if all_fixed(t) {
                lemma_subrange_one(s, p, '&');
                lemma_subrange_join(s, p, p + 1, e);
                lemma_subrange_join(s, p, e, f2);
            }
        } else {
            assert(fixed_texts(t) =~= s.subrange(p, p));
        }
    } else {
        assert(fixed_texts(t) =~= s.subrange(p, p));
    }
}

/// A query spells out the text it was read from, where it is fixed.
proof fn lemma_query_text(s: Seq<char>, p: int)
    requires
        0 <= p <= s.len(),
        query_at(s, p) is Some,
    ensures
        p <= (query_at(s, p)->0).1 <= s.len(),
        all_fixed((query_at(s, p)->0).0) ==> fixed_texts((query_at(s, p)->0).0) == s.subrange(p, (query_at(s, p)->0).1),
{
    let (item, e) = query_item_at(s, p + 1)->0;
    lemma_query_item_text(s, p + 1);
    lemma_query_rest_text(s, e);
    let (r, f) = query_rest_at(s, e);
    let two = seq![TokenModel::QueryBegin, item];
    assert(two == seq![TokenModel::QueryBegin] + seq![item]);
    lemma_fixed_join(seq![TokenModel::QueryBegin], seq![item]);
    lemma_fixed_one(TokenModel::QueryBegin);
    lemma_fixed_one(item);
    lemma_fixed_join(two, r);
    if all_fixed(two + r) {
        lemma_subrange_one(s, p, '?');
        lemma_subrange_join(s, p, p + 1, e);
        lemma_subrange_join(s, p, e, f);
    }
}

/// A plain fragment spells out the text it was read from, where it is fixed.
proof fn lemma_plain_fragment_text(s: Seq<char>, p: int)
    requires
        0 <= p <= s.len(),
        plain_fragment_at(s, p) is Some,
    ensures
        p <= (plain_fragment_at(s, p)->0).1 <= s.len(),
        all_fixed((plain_fragment_at(s, p)->0).0) ==> fixed_texts((plain_fragment_at(s, p)->0).0) == s.subrange(
            p,
            (plain_fragment_at(s, p)->0).1,
        ),
{
    let one = seq![TokenModel::FragmentBegin];
    lemma_fixed_one(TokenModel::FragmentBegin);
    lemma_subrange_one(s, p, '#');
    if section_at(s, p + 1) is Some {
        let (t, e) = section_at(s, p + 1)->0;
        lemma_section_text(s, p + 1);
        lemma_fixed_join(one, t);
        if all_fixed(one + t) {
            lemma_subrange_join(s, p, p + 1, e);
        }
    } else if p + 1 < s.len() && s[p + 1] == '(' && section_at(s, p + 2) is Some && {
        let e = (section_at(s, p + 2)->0).1;
        e < s.len() && s[e] == ')'
    } {
        let (t, e) = section_at(s, p + 2)->0;
        lemma_section_text(s, p + 2);
        let two = seq![TokenModel::FragmentBegin, TokenModel::Optional(t)];
        assert(!is_fixed(two[1]));
    }
}

/// A fragment spells out the text it was read from, where it is fixed.
proof fn lemma_fragment_text(s: Seq<char>, p: int)
    requires
        0 <= p <= s.len(),
        fragment_at(s, p) is Some,
    ensures
        p <= (fragment_at(s, p)->0).1 <= s.len(),
        all_fixed((fragment_at(s, p)->0).0) ==> fixed_texts((fragment_at(s, p)->0).0) == s.subrange(
            p,
            (fragment_at(s, p)->0).1,
        ),
{
    if plain_fragment_at(s, p) is Some {
        lemma_plain_fragment_text(s, p);
    } else {
        lemma_plain_fragment_text(s, p + 1);
        let (t, e) = plain_fragment_at(s, p + 1)->0;
        let o = seq![TokenModel::Optional(t)];
        assert(!is_fixed(o[0]));
    }
}

/// Path, query and fragment spell out the text they were read from, where fixed.
proof fn lemma_prefix_text(s: Seq<char>)
    ensures
        0 <= prefix_tokens(s).1 <= s.len(),
        all_fixed(prefix_tokens(s).0) ==> fixed_texts(prefix_tokens(s).0) == s.subrange(0, prefix_tokens(s).1),
{
    let (t1, e1) = match path_at(s, 0) {
        Some(x) => x,
        None => (Seq::empty(), 0),
    };
    let (t2, e2) = match query_at(s, e1) {
        Some(x) => x,
        None => (Seq::empty(), e1),
    };
    let (t3, e3) = match fragment_at(s, e2) {
        Some(x) => x,
        None => (Seq::empty(), e2),
    };
    if path_at(s, 0) is Some {
        lemma_path_text(s, 0);
    } else {
        assert(fixed_texts(t1) =~= s.subrange(0, 0));
    }
    if query_at(s, e1) is Some {
        lemma_query_text(s, e1);
    } else {
        assert(fixed_texts(t2) =~= s.subrange(e1, e1));
    }
    if fragment_at(s, e2) is Some {
        lemma_fragment_text(s, e2);
    } else {
        assert(fixed_texts(t3) =~= s.subrange(e2, e2));
    }
    lemma_fixed_join(t1, t2);
    lemma_fixed_join(t1 + t2, t3);
    if all_fixed(t1 + t2 + t3) {
        lemma_subrange_join(s, 0, e1, e2);
        lemma_subrange_join(s, 0, e2, e3);
    }
}

/// A matcher string whose tokens are all fixed is spelled out by their texts.
proof fn lemma_parse_text(s: Seq<char>)
    requires
        parse_spec(s) is Ok,
        all_fixed(parse_spec(s)->Ok_0),
    ensures
        fixed_texts(parse_spec(s)->Ok_0) == s,
{
    let (t, e) = prefix_tokens(s);
    lemma_prefix_text(s);
    if e == s.len() {
        assert(s.subrange(0, s.len() as int) =~= s);
    } else {
        let v = (capture_at(s, 0)->0).0;
        assert(!is_fixed(seq![TokenModel::Capture(v)][0]));
    }
}

// ---------------------------------------------------------------------------------------
// Condensing and matching fixed text
// ---------------------------------------------------------------------------------------

/// The texts of joined literal tokens are the joined texts.
proof fn lemma_literal_join(a: Seq<MatcherTokenModel>, b: Seq<MatcherTokenModel>)
    ensures
        literal_texts(a + b) == literal_texts(a) + literal_texts(b),
        all_literal(a) && all_literal(b) ==> all_literal(a + b),
    decreases a.len(),
{
    if a.len() == 0 {
        assert(a + b =~= b);
        assert(Seq::<char>::empty() + literal_texts(b) =~= literal_texts(b));
    } else {
        lemma_literal_join(a.drop_first(), b);
        assert((a + b).drop_first() =~= a.drop_first() + b);
        assert(a[0]->Match_0 + (literal_texts(a.drop_first()) + literal_texts(b)) =~= (a[0]->Match_0
            + literal_texts(a.drop_first())) + literal_texts(b));
    }
    if all_literal(a) && all_literal(b) {
        assert forall|i: int| 0 <= i < (a + b).len() implies #[trigger] (a + b)[i] is Match by {
            if i < a.len() {
                assert((a + b)[i] == a[i]);
            } else {
                assert((a + b)[i] == b[i - a.len()]);
            }
        }
    }
}

/// A pending run flushes to literals that spell out its text.
proof fn lemma_flush_literal(run: Option<Seq<char>>)
    ensures
        all_literal(flush(run)),
        literal_texts(flush(run)) == run_text(run),
{
    let f = flush(run);
    assert(literal_texts(Seq::<MatcherTokenModel>::empty()) == Seq::<char>::empty());
    match run {
        Some(t) => {
            assert(f.drop_first() =~= Seq::<MatcherTokenModel>::empty());
            assert(f[0] == MatcherTokenModel::Match(t));
            assert(t + Seq::<char>::empty() =~= t);
            assert forall|i: int| 0 <= i < f.len() implies #[trigger] f[i] is Match by {
                assert(f[i] == f[0]);
            }
        },
        None => {
            assert(f =~= Seq::<MatcherTokenModel>::empty());
        },
    }
}

/// Fixed tokens condense to literals that spell out the pending run and their texts.
proof fn lemma_condense_fixed(ts: Seq<TokenModel>, run: Option<Seq<char>>)
    requires
        all_fixed(ts),
    ensures
        all_literal(optimize_spec(ts, run)),
        literal_texts(optimize_spec(ts, run)) == run_text(run) + fixed_texts(ts),
    decreases ts.len(),
{
    if ts.len() == 0 {
        lemma_flush_literal(run);
        assert(optimize_spec(ts, run) == flush(run));
        assert(run_text(run) + Seq::<char>::empty() =~= run_text(run));
    } else {
        let t = ts[0];
        let rest = ts.drop_first();
        assert(all_fixed(rest)) by {
            assert forall|i: int| 0 <= i < rest.len() implies is_fixed(#[trigger] rest[i]) by {
                assert(rest[i] == ts[i + 1]);
            }
        }
        assert(is_fixed(ts[0]));
        if is_plain_token(t) {
            lemma_condense_fixed(rest, Some(run_text(run) + plain_text(t)));
            assert(run_text(run) + plain_text(t) + fixed_texts(rest) =~= run_text(run) + (fixed_text(t) + fixed_texts(rest)));
        } else {
            let id = t->QueryCapture_0;
            let m = t->QueryCapture_1->Match_0;
            lemma_condense_fixed(rest, None);
            let orest = optimize_spec(rest, None);
            let two = seq![MatcherTokenModel::Match(id + seq!['=']), MatcherTokenModel::Match(m)];
            let f = flush(run);
            assert(optimize_spec(ts, run) == f + two + orest);
            assert(literal_texts(Seq::<MatcherTokenModel>::empty()) == Seq::<char>::empty());
            lemma_flush_literal(run);
            assert(all_literal(two) && literal_texts(two) == id + seq!['='] + m) by {
                let t2 = two.drop_first();
                assert(t2 =~= seq![MatcherTokenModel::Match(m)]);
                assert(t2.drop_first() =~= Seq::<MatcherTokenModel>::empty());
                assert(t2[0] == MatcherTokenModel::Match(m));
                assert(literal_texts(t2) =~= m + Seq::<char>::empty());
                assert(m + Seq::<char>::empty() =~= m);
                assert(two[0] == MatcherTokenModel::Match(id + seq!['=']));
                assert(literal_texts(two) == (id + seq!['=']) + literal_texts(t2));
                assert((id + seq!['=']) + m =~= id + seq!['='] + m);
                assert forall|i: int| 0 <= i < two.len() implies #[trigger] two[i] is Match by {
                    if i == 0 {
                        assert(two[0] == MatcherTokenModel::Match(id + seq!['=']));
                    } else {
                        assert(two[1] == MatcherTokenModel::Match(m));
                    }
                }
            }
            lemma_literal_join(f, two);
            lemma_literal_join(f + two, orest);
            assert(run_text(run) + (id + seq!['='] + m) + (Seq::<char>::empty() + fixed_texts(rest)) =~= run_text(run) + (fixed_text(t)
                + fixed_texts(rest)));
        }
    }
}

/// Literal tokens match where their texts occur, consuming those texts and recording
/// nothing.
proof fn lemma_match_literals(ms: Seq<MatcherTokenModel>, s: Seq<char>, p: int, no_case: bool)
    requires
        all_literal(ms),
        occurs_at(s, p, literal_texts(ms)),
    ensures
        match_tokens(ms, s, p, no_case) == Some((p + literal_texts(ms).len(), Seq::<(Seq<char>, Seq<char>)>::empty())),
    decreases ms.len(),
{
    if ms.len() > 0 {
        let lit = ms[0]->Match_0;
        let rest = ms.drop_first();
        assert(ms[0] is Match);
        assert(all_literal(rest)) by {
            assert forall|i: int| 0 <= i < rest.len() implies #[trigger] rest[i] is Match by {
                assert(rest[i] == ms[i + 1]);
            }
        }
        let whole = literal_texts(ms);
        assert(whole == lit + literal_texts(rest));
        assert(s.subrange(p, p + lit.len()) =~= whole.subrange(0, lit.len() as int));
        assert(whole.subrange(0, lit.len() as int) =~= lit);
        assert(s.subrange(p + lit.len(), p + whole.len()) =~= whole.subrange(lit.len() as int, whole.len() as int));
        assert(whole.subrange(lit.len() as int, whole.len() as int) =~= literal_texts(rest));
        assert(occurs_at(s, p, lit));
        assert(literal_at(s, p, lit, no_case)) by {
            if no_case {
                assert forall|k: int| 0 <= k < lit.len() implies chars_eq_no_case(#[trigger] s[p + k], lit[k]) by {
                    assert(s.subrange(p, p + lit.len())[k] == s[p + k]);
                }
            }
        }
        lemma_match_literals(rest, s, p + lit.len(), no_case);
    }
}

/// A matcher string made only of fixed text (no captures and no optional sections)
/// matches itself entirely, with any settings, and records nothing.
pub proof fn lemma_fixed_string_matches_itself(s: Seq<char>, settings: MatcherSettings)
    requires
        parse_spec(s) is Ok,
        all_fixed(parse_spec(s)->Ok_0),
    ensures
        match_route(optimized(parse_spec(s)->Ok_0), s, settings) == Some(
            (s.len() as int, Seq::<(Seq<char>, Seq<char>)>::empty()),
        ),
{
    let ts = parse_spec(s)->Ok_0;
    lemma_parse_text(s);
    lemma_condense_fixed(ts, None);
    assert(Seq::<char>::empty() + fixed_texts(ts) =~= s);
    assert(s.subrange(0, s.len() as int) =~= s);
    lemma_match_literals(optimized(ts), s, 0, settings.case_insensitive);
}

} // verus!
