//! Parsing matcher strings (such as `/users/{id}?tab={tab}#top`) into tokens.
use vstd::prelude::*;
use crate::grammar::{
    lemma_digits_value_prefix,
    capture_at, capture_body_at, capture_or_match_at, fragment_at, path_at, plain_fragment_at,
    parse_spec, prefix_tokens, query_at, query_item_at, query_rest_at, section_at,
    section_rest_at, segments_at, digit_class, digits_at, digits_value, ident_at, ident_class,
    is_digit_char, is_ident_char, section_counts_fit,
};
use crate::text::{chars_of, lemma_run_end, run_end, string_of_range};
use crate::token::{lemma_tokens_view_add, lemma_tokens_view_push, CaptureOrMatch, token_view, tokens_view, CaptureVariant, RouteParserToken, TokenModel};

verus! {

/// Whether `c` may appear in an identifier or a literal section.
pub fn is_ident_char_exec(c: char) -> (r: bool)
    ensures
        r == is_ident_char(c),
{
    !(c == ' ' || c == '-' || c == '*' || c == '/' || c == '+' || c == '#' || c == '?'
        || c == '&' || c == '^' || c == '@' || c == '~' || c == '`' || c == ';' || c == ','
        || c == '.' || c == '|' || c == '\\' || c == '{' || c == '}' || c == '[' || c == ']'
        || c == '(' || c == ')' || c == '=' || c == '\t' || c == '\n')
}

/// Whether `c` is an ASCII decimal digit.
pub fn is_digit_exec(c: char) -> (r: bool)
    ensures
        r == is_digit_char(c),
{
    '0' <= c && c <= '9'
}

/// The end of the run of identifier characters starting at `p`.
fn ident_run_end(s: &Vec<char>, p: usize) -> (e: usize)
    requires
        p <= s@.len(),
    ensures
        e as int == run_end(s@, p as int, ident_class()),
{
    let mut i = p;
    while i < s.len() && is_ident_char_exec(s[i])
        invariant
            p <= i <= s@.len(),
            run_end(s@, i as int, ident_class()) == run_end(s@, p as int, ident_class()),
        decreases s@.len() - i,
    {
        i = i + 1;
    }
    i
}

/// The end of the run of decimal digits starting at `p`.
fn digit_run_end(s: &Vec<char>, p: usize) -> (e: usize)
    requires
        p <= s@.len(),
    ensures
        e as int == run_end(s@, p as int, digit_class()),
{
    let mut i = p;
    while i < s.len() && is_digit_exec(s[i])
        invariant
            p <= i <= s@.len(),
            run_end(s@, i as int, digit_class()) == run_end(s@, p as int, digit_class()),
        decreases s@.len() - i,
    {
        i = i + 1;
    }
    i
}

/// Reads an identifier at `p`: a non-empty run of identifier characters not starting
/// with a digit. Returns where it ends.
pub fn ident_at_exec(s: &Vec<char>, p: usize) -> (r: Option<usize>)
    requires
        p <= s@.len(),
    ensures
        match r {
            Some(e) => ident_at(s@, p as int) == Some(e as int) && p < e <= s@.len(),
            None => ident_at(s@, p as int) is None,
        },
{
    proof {
        lemma_run_end(s@, p as int, ident_class());
    }
    if p >= s.len() || is_digit_exec(s[p]) {
        return None;
    }
    let e = ident_run_end(s, p);
    if e > p {
        Some(e)
    } else {
        None
    }
}

/// Reads a non-empty run of digits at `p`. Returns where it ends.
fn digits_at_exec(s: &Vec<char>, p: usize) -> (r: Option<usize>)
    requires
        p <= s@.len(),
    ensures
        match r {
            Some(e) => digits_at(s@, p as int) == Some(e as int) && p < e <= s@.len(),
            None => digits_at(s@, p as int) is None,
        },
{
    proof {
        lemma_run_end(s@, p as int, digit_class());
    }
    let e = digit_run_end(s, p);
    if e > p {
        Some(e)
    } else {
        None
    }
}

/// The number written by the digits between `a` and `b`.
fn digits_value_exec(s: &Vec<char>, a: usize, b: usize) -> (v: usize)
    requires
        a <= b <= s@.len(),
        forall|k: int| a <= k < b ==> is_digit_char(#[trigger] s@[k]),
        digits_value(s@.subrange(a as int, b as int)) <= usize::MAX,
    ensures
        v == digits_value(s@.subrange(a as int, b as int)),
{
    let ghost d = s@.subrange(a as int, b as int);
    let mut v: usize = 0;
    let mut i = a;
    assert(d.take(0) =~= Seq::<char>::empty());
    while i < b
        invariant
            a <= i <= b <= s@.len(),
            d == s@.subrange(a as int, b as int),
            forall|k: int| a <= k < b ==> is_digit_char(#[trigger] s@[k]),
            digits_value(d) <= usize::MAX,
            v == digits_value(d.take(i - a)),
        decreases b - i,
    {
        proof {
            lemma_digits_value_prefix(d, i - a + 1);
            assert(d.take(i - a + 1).drop_last() =~= d.take(i - a));
            assert(d.take(i - a + 1).last() == s@[i as int]);
            assert(is_digit_char(s@[i as int]));
        }
        let c = s[i];
        let digit = (c as u32 - '0' as u32) as usize;
        v = v * 10 + digit;
        i = i + 1;
    }
    assert(d.take(b - a) =~= d);
    v
}

/// Whether the digits between `a` and `b` denote a number of at most `usize::MAX`.
fn digits_fit(s: &Vec<char>, a: usize, b: usize) -> (r: bool)
    requires
        a <= b <= s@.len(),
        forall|k: int| a <= k < b ==> is_digit_char(#[trigger] s@[k]),
    ensures
        r == (digits_value(s@.subrange(a as int, b as int)) <= usize::MAX),
{
    let ghost d = s@.subrange(a as int, b as int);
    let mut v: u128 = 0;
    let mut i = a;
    assert(d.take(0) =~= Seq::<char>::empty());
    while i < b
        invariant
            a <= i <= b <= s@.len(),
            d == s@.subrange(a as int, b as int),
            forall|k: int| a <= k < b ==> is_digit_char(#[trigger] s@[k]),
            v <= usize::MAX,
            v == digits_value(d.take(i - a)),
        decreases b - i,
    {
        proof {
            assert(d.take(i - a + 1).drop_last() =~= d.take(i - a));
            assert(d.take(i - a + 1).last() == s@[i as int]);
            assert(is_digit_char(s@[i as int]));
        }
        let c = s[i];
        let digit = (c as u32 - '0' as u32) as u128;
        v = v * 10 + digit;
        i = i + 1;
        if v > usize::MAX as u128 {
            proof { lemma_digits_value_prefix(d, i - a); }
            return false;
        }
    }
    assert(d.take(b - a) =~= d);
    true
}

/// Whether every run of digits that directly follows a `{` in `s` denotes a number that
/// fits in `usize`; see [`section_counts_fit`].
pub fn section_counts_fit_exec(s: &Vec<char>) -> (r: bool)
    ensures
        r == section_counts_fit(s@),
{
    let mut p: usize = 0;
    while p < s.len()
        invariant
            p <= s@.len(),
            forall|q: int|
                0 <= q < p && #[trigger] s@[q] == '{' ==> digits_value(
                    s@.subrange(q + 1, run_end(s@, q + 1, digit_class())),
                ) <= usize::MAX,
        decreases s@.len() - p,
    {
        if s[p] == '{' {
            proof { lemma_run_end(s@, p + 1, digit_class()); }
            let e = digit_run_end(s, p + 1);
            if !digits_fit(s, p + 1, e) {
                assert(s@[p as int] == '{');
                return false;
            }
        }
        p = p + 1;
    }
    true
}

/// Whether `i` meets what [`parse`] needs: every number of sections in a capture fits in
/// `usize`.
pub fn counts_fit(i: &str) -> (r: bool)
    ensures
        r == section_counts_fit(i@),
{
    let s = chars_of(i);
    section_counts_fit_exec(&s)
}

/// Reads the part of a capture between `{` and `}` starting at `q` (just after a `{`).
fn capture_body_exec(s: &Vec<char>, q: usize) -> (r: Option<(CaptureVariant, usize)>)
    requires
        1 <= q <= s@.len(),
        s@[q - 1] == '{',
        section_counts_fit(s@),
    ensures
        match r {
            Some((v, e)) => capture_body_at(s@, q as int) == Some((v@, e as int)),
            None => capture_body_at(s@, q as int) is None,
        },
{
    if q < s.len() && s[q] == '}' {
        return Some((CaptureVariant::Unnamed, q));
    }
    if q < s.len() && s.len() - q > 1 && s[q] == '*' && s[q + 1] == ':' {
        if let Some(e) = ident_at_exec(s, q + 2) {
            return Some((CaptureVariant::ManyNamed(string_of_range(s, q + 2, e)), e));
        }
    }
    if q < s.len() && s[q] == '*' {
        return Some((CaptureVariant::ManyUnnamed, q + 1));
    }
    if let Some(e) = ident_at_exec(s, q) {
        return Some((CaptureVariant::Named(string_of_range(s, q, e)), e));
    }
    match digits_at_exec(s, q) {
        Some(d) => {
            proof {
                lemma_run_end(s@, q as int, digit_class());
                assert(s@[(q - 1) as int] == '{');
            }
            let n = digits_value_exec(s, q, d);
            if d < s.len() && s[d] == ':' {
                if let Some(e) = ident_at_exec(s, d + 1) {
                    return Some(
                        (CaptureVariant::NumberedNamed { sections: n, name: string_of_range(s, d + 1, e) }, e),
                    );
                }
            }
            Some((CaptureVariant::NumberedUnnamed { sections: n }, d))
        },
        None => None,
    }
}

/// Reads a capture section `{..}` at `p`.
pub fn capture_exec(s: &Vec<char>, p: usize) -> (r: Option<(CaptureVariant, usize)>)
    requires
        p <= s@.len(),
        section_counts_fit(s@),
    ensures
        match r {
            Some((v, e)) => capture_at(s@, p as int) == Some((v@, e as int)),
            None => capture_at(s@, p as int) is None,
        },
{
    if p < s.len() && s[p] == '{' {
        match capture_body_exec(s, p + 1) {
            Some((v, e)) => {
                if e < s.len() && s[e] == '}' {
                    Some((v, e + 1))
                } else {
                    None
                }
            },
            None => None,
        }
    } else {
        None
    }
}

/// Reads a section at `p`: a literal or a capture, then alternating literals and
/// captures for as long as they can be read.
pub fn section_exec(s: &Vec<char>, p: usize) -> (r: Option<(Vec<RouteParserToken>, usize)>)
    requires
        p <= s@.len(),
        section_counts_fit(s@),
    ensures
        match r {
            Some((t, e)) => section_at(s@, p as int) == Some((tokens_view(t@), e as int))
                && p < e <= s@.len(),
            None => section_at(s@, p as int) is None,
        },
{
    let mut acc: Vec<RouteParserToken> = Vec::new();
    let mut i: usize;
    let mut after_match: bool;
    match ident_at_exec(s, p) {
        Some(e) => {
            let tok = RouteParserToken::Match(string_of_range(s, p, e));
            proof { lemma_tokens_view_push(acc@, tok); }
            acc.push(tok);
            i = e;
            after_match = true;
        },
        None => match capture_exec(s, p) {
            Some((v, e)) => {
                let tok = RouteParserToken::Capture(v);
                proof {
                    lemma_tokens_view_push(acc@, tok);
                    lemma_capture_at_bounds(s@, p as int);
                }
                acc.push(tok);
                i = e;
                after_match = false;
            },
            None => {
                return None;
            },
        },
    }
    let ghost full = section_at(s@, p as int)->0;
    assert(tokens_view(acc@) + section_rest_at(s@, i as int, after_match).0 =~= full.0);
    loop
        invariant
            p < i <= s@.len(),
            section_counts_fit(s@),
            full == section_at(s@, p as int)->0,
            section_at(s@, p as int) is Some,
            tokens_view(acc@) + section_rest_at(s@, i as int, after_match).0 == full.0,
            section_rest_at(s@, i as int, after_match).1 == full.1,
        ensures
            tokens_view(acc@) == full.0,
            i as int == full.1,
            p < i <= s@.len(),
        decreases s@.len() - i,
    {
        if after_match {
            match capture_exec(s, i) {
                Some((v, e)) => {
                    proof { lemma_capture_at_bounds(s@, i as int); }
                    let tok = RouteParserToken::Capture(v);
                    proof {
                        lemma_tokens_view_push(acc@, tok);
                        let r = section_rest_at(s@, e as int, false);
                        assert(tokens_view(acc@.push(tok)) + r.0 =~= tokens_view(acc@) + (seq![token_view(tok)] + r.0));
                    }
                    acc.push(tok);
                    i = e;
                    after_match = false;
                },
                None => {
                    assert(tokens_view(acc@) + Seq::<TokenModel>::empty() =~= tokens_view(acc@));
                    break;
                },
            }
        } else {
            match ident_at_exec(s, i) {
                Some(e) => {
                    let tok = RouteParserToken::Match(string_of_range(s, i, e));
                    proof {
                        lemma_tokens_view_push(acc@, tok);
                        let r = section_rest_at(s@, e as int, true);
                        assert(tokens_view(acc@.push(tok)) + r.0 =~= tokens_view(acc@) + (seq![token_view(tok)] + r.0));
                    }
                    acc.push(tok);
                    i = e;
                    after_match = true;
                },
                None => {
                    assert(tokens_view(acc@) + Seq::<TokenModel>::empty() =~= tokens_view(acc@));
                    break;
                },
            }
        }
    }
    Some((acc, i))
}

/// Reads as many `/section` segments as possible from `p`.
fn segments_exec(s: &Vec<char>, p: usize) -> (r: (Vec<RouteParserToken>, usize))
    requires
        p <= s@.len(),
        section_counts_fit(s@),
    ensures
        segments_at(s@, p as int) == (tokens_view(r.0@), r.1 as int),
        p <= r.1 <= s@.len(),
{
    let mut acc: Vec<RouteParserToken> = Vec::new();
    let mut i = p;
    let ghost full = segments_at(s@, p as int);
    assert(tokens_view(acc@) + segments_at(s@, i as int).0 =~= full.0);
    loop
        invariant
            p <= i <= s@.len(),
            section_counts_fit(s@),
            full == segments_at(s@, p as int),
            tokens_view(acc@) + segments_at(s@, i as int).0 == full.0,
            segments_at(s@, i as int).1 == full.1,
        ensures
            tokens_view(acc@) == full.0,
            i as int == full.1,
            p <= i <= s@.len(),
        decreases s@.len() - i,
    {
        if i < s.len() && s[i] == '/' {
            match section_exec(s, i + 1) {
                Some((t, e)) => {
                    let ghost old_acc = acc@;
                    let mut t = t;
                    let sep = RouteParserToken::Separator;
                    proof { lemma_tokens_view_push(acc@, sep); }
                    acc.push(sep);
                    proof { lemma_tokens_view_add(acc@, t@); }
                    let ghost tv = tokens_view(t@);
                    acc.append(&mut t);
                    proof {
                        let r = segments_at(s@, e as int);
                        assert(tokens_view(acc@) + r.0 =~= tokens_view(old_acc) + (seq![TokenModel::Separator] + tv + r.0));
                    }
                    i = e;
                },
                None => {
                    assert(tokens_view(acc@) + Seq::<TokenModel>::empty() =~= tokens_view(acc@));
                    break;
                },
            }
        } else {
            assert(tokens_view(acc@) + Seq::<TokenModel>::empty() =~= tokens_view(acc@));
            break;
        }
    }
    (acc, i)
}

/// Reads the path at `p`: `/section` segments with an optional trailing `/`, or a lone `/`.
pub fn path_exec(s: &Vec<char>, p: usize) -> (r: Option<(Vec<RouteParserToken>, usize)>)
    requires
        p <= s@.len(),
        section_counts_fit(s@),
    ensures
        match r {
            Some((t, e)) => path_at(s@, p as int) == Some((tokens_view(t@), e as int)) && p < e <= s@.len(),
            None => path_at(s@, p as int) is None,
        },
{
    let (mut t, e) = segments_exec(s, p);
    if e > p {
        if e < s.len() && s[e] == '/' {
            proof { lemma_tokens_view_push(t@, RouteParserToken::Separator); }
            t.push(RouteParserToken::Separator);
            Some((t, e + 1))
        } else {
            Some((t, e))
        }
    } else if p < s.len() && s[p] == '/' {
        let mut v: Vec<RouteParserToken> = Vec::new();
        proof { lemma_tokens_view_push(v@, RouteParserToken::Separator); }
        v.push(RouteParserToken::Separator);
        assert(tokens_view(v@) =~= seq![TokenModel::Separator]);
        Some((v, p + 1))
    } else {
        None
    }
}

/// Reads a capture or a literal at `p`.
fn capture_or_match_exec(s: &Vec<char>, p: usize) -> (r: Option<(CaptureOrMatch, usize)>)
    requires
        p <= s@.len(),
        section_counts_fit(s@),
    ensures
        match r {
            Some((v, e)) => capture_or_match_at(s@, p as int) == Some((v@, e as int)) && p < e <= s@.len(),
            None => capture_or_match_at(s@, p as int) is None,
        },
{
    match capture_exec(s, p) {
        Some((v, e)) => {
            proof { lemma_capture_at_bounds(s@, p as int); }
            Some((CaptureOrMatch::Capture(v), e))
        },
        None => match ident_at_exec(s, p) {
            Some(e) => Some((CaptureOrMatch::Match(string_of_range(s, p, e)), e)),
            None => None,
        },
    }
}

/// Reads a query item `ident=value` at `p`.
fn query_item_exec(s: &Vec<char>, p: usize) -> (r: Option<(RouteParserToken, usize)>)
    requires
        p <= s@.len(),
        section_counts_fit(s@),
    ensures
        match r {
            Some((t, e)) => query_item_at(s@, p as int) == Some((token_view(t), e as int)) && p < e <= s@.len(),
            None => query_item_at(s@, p as int) is None,
        },
{
    match ident_at_exec(s, p) {
        Some(e) => {
            if e < s.len() && s[e] == '=' {
                match capture_or_match_exec(s, e + 1) {
                    Some((v, f)) => Some(
                        (RouteParserToken::QueryCapture { ident: string_of_range(s, p, e), capture_or_match: v }, f),
                    ),
                    None => None,
                }
            } else {
                None
            }
        },
        None => None,
    }
}

/// Reads as many `&item` parts as possible from `p`.
fn query_rest_exec(s: &Vec<char>, p: usize) -> (r: (Vec<RouteParserToken>, usize))
    requires
        p <= s@.len(),
        section_counts_fit(s@),
    ensures
        query_rest_at(s@, p as int) == (tokens_view(r.0@), r.1 as int),
        p <= r.1 <= s@.len(),
{
    let mut acc: Vec<RouteParserToken> = Vec::new();
    let mut i = p;
    let ghost full = query_rest_at(s@, p as int);
    assert(tokens_view(acc@) + query_rest_at(s@, i as int).0 =~= full.0);
    loop
        invariant
            p <= i <= s@.len(),
            section_counts_fit(s@),
            full == query_rest_at(s@, p as int),
            tokens_view(acc@) + query_rest_at(s@, i as int).0 == full.0,
            query_rest_at(s@, i as int).1 == full.1,
        ensures
            tokens_view(acc@) == full.0,
            i as int == full.1,
            p <= i <= s@.len(),
        decreases s@.len() - i,
    {
        if i < s.len() && s[i] == '&' {
            match query_item_exec(s, i + 1) {
                Some((t, e)) => {
                    let ghost old_acc = acc@;
                    let ghost tv = token_view(t);
                    let sep = RouteParserToken::QuerySeparator;
                    proof { lemma_tokens_view_push(acc@, sep); }
                    acc.push(sep);
                    proof { lemma_tokens_view_push(acc@, t); }
                    acc.push(t);
                    proof {
                        let r = query_rest_at(s@, e as int);
                        assert(tokens_view(acc@) + r.0 =~= tokens_view(old_acc) + (seq![TokenModel::QuerySeparator, tv] + r.0));
                    }
                    i = e;
                },
                None => {
                    assert(tokens_view(acc@) + Seq::<TokenModel>::empty() =~= tokens_view(acc@));
                    break;
                },
            }
        } else {
            assert(tokens_view(acc@) + Seq::<TokenModel>::empty() =~= tokens_view(acc@));
            break;
        }
    }
    (acc, i)
}

/// Reads the query at `p`: `?item` followed by any number of `&item`.
pub fn query_exec(s: &Vec<char>, p: usize) -> (r: Option<(Vec<RouteParserToken>, usize)>)
    requires
        p <= s@.len(),
        section_counts_fit(s@),
    ensures
        match r {
            Some((t, e)) => query_at(s@, p as int) == Some((tokens_view(t@), e as int)) && p < e <= s@.len(),
            None => query_at(s@, p as int) is None,
        },
{
    if p < s.len() && s[p] == '?' {
        match query_item_exec(s, p + 1) {
            Some((t, e)) => {
                let ghost tv = token_view(t);
                let mut v: Vec<RouteParserToken> = Vec::new();
                proof { lemma_tokens_view_push(v@, RouteParserToken::QueryBegin); }
                v.push(RouteParserToken::QueryBegin);
                proof { lemma_tokens_view_push(v@, t); }
                v.push(t);
                let (mut rest, f) = query_rest_exec(s, e);
                proof { lemma_tokens_view_add(v@, rest@); }
                let ghost rv = tokens_view(rest@);
                v.append(&mut rest);
                assert(tokens_view(v@) =~= seq![TokenModel::QueryBegin, tv] + rv);
                Some((v, f))
            },
            None => None,
        }
    } else {
        None
    }
}

/// Reads a fragment without outer parentheses at `p`: `#section`, `#(section)` or `#`.
fn plain_fragment_exec(s: &Vec<char>, p: usize) -> (r: Option<(Vec<RouteParserToken>, usize)>)
    requires
        p <= s@.len(),
        section_counts_fit(s@),
    ensures
        match r {
            Some((t, e)) => plain_fragment_at(s@, p as int) == Some((tokens_view(t@), e as int)) && p < e <= s@.len(),
            None => plain_fragment_at(s@, p as int) is None,
        },
{
    if p < s.len() && s[p] == '#' {
        let mut v: Vec<RouteParserToken> = Vec::new();
        proof { lemma_tokens_view_push(v@, RouteParserToken::FragmentBegin); }
        v.push(RouteParserToken::FragmentBegin);
        match section_exec(s, p + 1) {
            Some((t, e)) => {
                let mut t = t;
                proof { lemma_tokens_view_add(v@, t@); }
                let ghost tv = tokens_view(t@);
                v.append(&mut t);
                assert(tokens_view(v@) =~= seq![TokenModel::FragmentBegin] + tv);
                return Some((v, e));
            },
            None => {},
        }
        if p + 1 < s.len() && s[p + 1] == '(' {
            match section_exec(s, p + 2) {
                Some((t, e)) => {
                    if e < s.len() && s[e] == ')' {
                        let opt = RouteParserToken::Optional(t);
                        proof { lemma_tokens_view_push(v@, opt); }
                        v.push(opt);
                        assert(tokens_view(v@) =~= seq![TokenModel::FragmentBegin, token_view(opt)]);
                        return Some((v, e + 1));
                    }
                },
                None => {},
            }
        }
        assert(tokens_view(v@) =~= seq![TokenModel::FragmentBegin]);
        Some((v, p + 1))
    } else {
        None
    }
}

/// Reads the fragment at `p`: a plain fragment, or one wrapped in parentheses.
pub fn fragment_exec(s: &Vec<char>, p: usize) -> (r: Option<(Vec<RouteParserToken>, usize)>)
    requires
        p <= s@.len(),
        section_counts_fit(s@),
    ensures
        match r {
            Some((t, e)) => fragment_at(s@, p as int) == Some((tokens_view(t@), e as int)) && p < e <= s@.len(),
            None => fragment_at(s@, p as int) is None,
        },
{
    match plain_fragment_exec(s, p) {
        Some(x) => {
            return Some(x);
        },
        None => {},
    }
    if p < s.len() && s[p] == '(' {
        match plain_fragment_exec(s, p + 1) {
            Some((t, e)) => {
                if e < s.len() && s[e] == ')' {
                    let mut v: Vec<RouteParserToken> = Vec::new();
                    let opt = RouteParserToken::Optional(t);
                    proof { lemma_tokens_view_push(v@, opt); }
                    v.push(opt);
                    assert(tokens_view(v@) =~= seq![token_view(opt)]);
                    return Some((v, e + 1));
                }
            },
            None => {},
        }
    }
    None
}

/// Where reading a matcher string stopped, counted in characters from its start.
///
/// The unread rest of the input begins at `offset`.
#[derive(Debug, Clone, Copy, PartialEq, Eq)]
pub struct ParseFailure {
    /// Position of the first character that could not be read.
    pub offset: usize,
}

/// Reads path, query and fragment, each if present, from the start of `s`.
fn prefix_exec(s: &Vec<char>) -> (r: (Vec<RouteParserToken>, usize))
    requires
        section_counts_fit(s@),
    ensures
        prefix_tokens(s@) == (tokens_view(r.0@), r.1 as int),
        r.1 <= s@.len(),
{
    let mut acc: Vec<RouteParserToken> = Vec::new();
    let mut e: usize = 0;
    match path_exec(s, 0) {
        Some((t, f)) => {
            acc = t;
            e = f;
        },
        None => {},
    }
    proof { crate::token::lemma_tokens_view_index(acc@); }
    let ghost t1 = tokens_view(acc@);
    let ghost e1 = e;
    match query_exec(s, e) {
        Some((t, f)) => {
            let mut t = t;
            proof { lemma_tokens_view_add(acc@, t@); }
            acc.append(&mut t);
            e = f;
        },
        None => {
            assert(tokens_view(acc@) + Seq::<TokenModel>::empty() =~= tokens_view(acc@));
        },
    }
    let ghost t2 = tokens_view(acc@);
    match fragment_exec(s, e) {
        Some((t, f)) => {
            let mut t = t;
            proof { lemma_tokens_view_add(acc@, t@); }
            acc.append(&mut t);
            e = f;
        },
        None => {
            assert(tokens_view(acc@) + Seq::<TokenModel>::empty() =~= tokens_view(acc@));
        },
    }
    assert(tokens_view(acc@) =~= prefix_tokens(s@).0);
    (acc, e)
}

/// Parses a matcher string given as characters.
pub fn parse_chars(s: &Vec<char>) -> (r: Result<Vec<RouteParserToken>, ParseFailure>)
    requires
        section_counts_fit(s@),
    ensures
        match r {
            Ok(t) => parse_spec(s@) == Ok::<Seq<TokenModel>, nat>(tokens_view(t@)),
            Err(f) => parse_spec(s@) == Err::<Seq<TokenModel>, nat>(f.offset as nat),
        },
{
    if s.len() == 0 {
        return Err(ParseFailure { offset: 0 });
    }
    let (t, e) = prefix_exec(s);
    if e == s.len() {
        Ok(t)
    } else {
        match capture_exec(s, 0) {
            Some((v, _)) => {
                let mut r: Vec<RouteParserToken> = Vec::new();
                let tok = RouteParserToken::Capture(v);
                proof { lemma_tokens_view_push(r@, tok); }
                r.push(tok);
                assert(tokens_view(r@) =~= seq![token_view(tok)]);
                Ok(r)
            },
            None => Err(ParseFailure { offset: e }),
        }
    }
}

/// Parses a matcher string into tokens.
///
/// Path, query and fragment must make up the whole string, in that order, each of them
/// optional; a string that begins with a capture may instead be that capture alone.
/// The empty string is refused.
pub fn parse(i: &str) -> (r: Result<Vec<RouteParserToken>, ParseFailure>)
    requires
        section_counts_fit(i@),
    ensures
        match r {
            Ok(t) => parse_spec(i@) == Ok::<Seq<TokenModel>, nat>(tokens_view(t@)),
            Err(f) => parse_spec(i@) == Err::<Seq<TokenModel>, nat>(f.offset as nat),
        },
{
    let s = chars_of(i);
    parse_chars(&s)
}

/// A capture that is read ends after it begins and within the input.
pub proof fn lemma_capture_at_bounds(s: Seq<char>, p: int)
    requires
        capture_at(s, p) is Some,
    ensures
        p < (capture_at(s, p)->0).1 <= s.len(),
{
}

} // verus!
