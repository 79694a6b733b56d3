//! The grammar of matcher strings, stated as spec functions over character sequences.
//!
//! Each `*_at` function reads the sequence `s` from position `p` and yields the tokens it
//! recognises together with the position where it stopped, or `None` where it fails.
use vstd::prelude::*;
use crate::text::{lemma_run_end_at, run_end};
use crate::token::{CaptureModel, CaptureOrMatchModel, TokenModel};

verus! {

/// Characters that cannot appear in an identifier or a literal section.
pub open spec fn is_ident_char(c: char) -> bool {
    !(c == ' ' || c == '-' || c == '*' || c == '/' || c == '+' || c == '#' || c == '?'
        || c == '&' || c == '^' || c == '@' || c == '~' || c == '`' || c == ';' || c == ','
        || c == '.' || c == '|' || c == '\\' || c == '{' || c == '}' || c == '[' || c == ']'
        || c == '(' || c == ')' || c == '=' || c == '\t' || c == '\n')
}

/// An ASCII decimal digit.
pub open spec fn is_digit_char(c: char) -> bool {
    '0' <= c && c <= '9'
}

/// The class of identifier characters, as a predicate.
pub open spec fn ident_class() -> spec_fn(char) -> bool {
    |c: char| is_ident_char(c)
}

/// The class of decimal digits, as a predicate.
pub open spec fn digit_class() -> spec_fn(char) -> bool {
    |c: char| is_digit_char(c)
}

/// End of an identifier starting at `p`: a non-empty run of identifier characters that
/// does not begin with a digit.
pub open spec fn ident_at(s: Seq<char>, p: int) -> Option<int> {
    let e = run_end(s, p, ident_class());
    if 0 <= p < s.len() && !is_digit_char(s[p]) && e > p {
        Some(e)
    } else {
        None
    }
}

/// End of a non-empty run of digits starting at `p`.
pub open spec fn digits_at(s: Seq<char>, p: int) -> Option<int> {
    let e = run_end(s, p, digit_class());
    if 0 <= p && e > p {
        Some(e)
    } else {
        None
    }
}

/// The number written by a sequence of decimal digits.
pub open spec fn digits_value(d: Seq<char>) -> nat
    decreases d.len(),
{
    if d.len() == 0 {
        0
    } else {
        digits_value(d.drop_last()) * 10 + ((d.last() as int - '0' as int) as nat)
    }
}

/// The value of a prefix of a run of digits is at most the value of the whole run.
pub proof fn lemma_digits_value_prefix(d: Seq<char>, i: int)
    requires
        0 <= i <= d.len(),
    ensures
        digits_value(d.take(i)) <= digits_value(d),
    decreases d.len() - i,
{
    if i < d.len() {
        lemma_digits_value_prefix(d, i + 1);
        assert(d.take(i + 1).drop_last() =~= d.take(i));
        assert(digits_value(d.take(i + 1)) >= digits_value(d.take(i)));
    } else {
        assert(d.take(i) =~= d);
    }
}

/// The part of a capture between `{` and `}`, read from `q`.
pub open spec fn capture_body_at(s: Seq<char>, q: int) -> Option<(CaptureModel, int)> {
    if 0 <= q < s.len() && s[q] == '}' {
        Some((CaptureModel::Unnamed, q))
    } else if 0 <= q && q + 1 < s.len() && s[q] == '*' && s[q + 1] == ':' && ident_at(s, q + 2) is Some {
        let e = ident_at(s, q + 2)->0;
        Some((CaptureModel::ManyNamed(s.subrange(q + 2, e)), e))
    } else if 0 <= q < s.len() && s[q] == '*' {
        Some((CaptureModel::ManyUnnamed, q + 1))
    } else if ident_at(s, q) is Some {
        let e = ident_at(s, q)->0;
        Some((CaptureModel::Named(s.subrange(q, e)), e))
    } else if digits_at(s, q) is Some {
        let d = digits_at(s, q)->0;
        let n = digits_value(s.subrange(q, d));
        if d < s.len() && s[d] == ':' && ident_at(s, d + 1) is Some {
            let e = ident_at(s, d + 1)->0;
            Some((CaptureModel::NumberedNamed(n, s.subrange(d + 1, e)), e))
        } else {
            Some((CaptureModel::NumberedUnnamed(n), d))
        }
    } else {
        None
    }
}

/// A capture section `{..}` starting at `p`.
pub open spec fn capture_at(s: Seq<char>, p: int) -> Option<(CaptureModel, int)> {
    if 0 <= p < s.len() && s[p] == '{' {
        match capture_body_at(s, p + 1) {
            Some((v, e)) => if e < s.len() && s[e] == '}' {
                Some((v, e + 1))
            } else {
                None
            },
            None => None,
        }
    } else {
        None
    }
}

/// After the first token of a section, literals and captures alternate for as long as
/// the next one can be read. `after_match` says whether the last token was a literal.
pub open spec fn section_rest_at(s: Seq<char>, p: int, after_match: bool) -> (Seq<TokenModel>, int)
    decreases s.len() - p,
{
    if after_match {
        match capture_at(s, p) {
            Some((v, e)) => if p < e <= s.len() {
                let (t, f) = section_rest_at(s, e, false);
                (seq![TokenModel::Capture(v)] + t, f)
            } else {
                (Seq::empty(), p)
            },
            None => (Seq::empty(), p),
        }
    } else {
        match ident_at(s, p) {
            Some(e) => if p < e <= s.len() {
                let (t, f) = section_rest_at(s, e, true);
                (seq![TokenModel::Match(s.subrange(p, e))] + t, f)
            } else {
                (Seq::empty(), p)
            },
            None => (Seq::empty(), p),
        }
    }
}

/// A section: a literal or a capture, followed by alternating literals and captures.
pub open spec fn section_at(s: Seq<char>, p: int) -> Option<(Seq<TokenModel>, int)> {
    match ident_at(s, p) {
        Some(e) => {
            let (t, f) = section_rest_at(s, e, true);
            Some((seq![TokenModel::Match(s.subrange(p, e))] + t, f))
        },
        None => match capture_at(s, p) {
            Some((v, e)) => {
                let (t, f) = section_rest_at(s, e, false);
                Some((seq![TokenModel::Capture(v)] + t, f))
            },
            None => None,
        },
    }
}

/// As many `/section` segments as can be read from `p`.
pub open spec fn segments_at(s: Seq<char>, p: int) -> (Seq<TokenModel>, int)
    decreases s.len() - p,
{
    if 0 <= p < s.len() && s[p] == '/' && section_at(s, p + 1) is Some {
        let (t, e) = section_at(s, p + 1)->0;
        if p < e <= s.len() {
            let (r, f) = segments_at(s, e);
            (seq![TokenModel::Separator] + t + r, f)
        } else {
            (Seq::empty(), p)
        }
    } else {
        (Seq::empty(), p)
    }
}

/// The path: one or more `/section` segments with an optional trailing `/`, or a lone `/`.
pub open spec fn path_at(s: Seq<char>, p: int) -> Option<(Seq<TokenModel>, int)> {
    let (t, e) = segments_at(s, p);
    if e > p {
        if e < s.len() && s[e] == '/' {
            Some((t.push(TokenModel::Separator), e + 1))
        } else {
            Some((t, e))
        }
    } else if 0 <= p < s.len() && s[p] == '/' {
        Some((seq![TokenModel::Separator], p + 1))
    } else {
        None
    }
}

/// A capture or a literal, as the value of a query item.
pub open spec fn capture_or_match_at(s: Seq<char>, p: int) -> Option<(CaptureOrMatchModel, int)> {
    match capture_at(s, p) {
        Some((v, e)) => Some((CaptureOrMatchModel::Capture(v), e)),
        None => match ident_at(s, p) {
            Some(e) => Some((CaptureOrMatchModel::Match(s.subrange(p, e)), e)),
            None => None,
        },
    }
}

/// A query item `ident=value`.
pub open spec fn query_item_at(s: Seq<char>, p: int) -> Option<(TokenModel, int)> {
    match ident_at(s, p) {
        Some(e) => if e < s.len() && s[e] == '=' {
            match capture_or_match_at(s, e + 1) {
                Some((v, f)) => Some((TokenModel::QueryCapture(s.subrange(p, e), v), f)),
                None => None,
            }
        } else {
            None
        },
        None => None,
    }
}

/// As many `&item` parts as can be read from `p`.
pub open spec fn query_rest_at(s: Seq<char>, p: int) -> (Seq<TokenModel>, int)
    decreases s.len() - p,
{
    if 0 <= p < s.len() && s[p] == '&' && query_item_at(s, p + 1) is Some {
        let (t, e) = query_item_at(s, p + 1)->0;
        if p < e <= s.len() {
            let (r, f) = query_rest_at(s, e);
            (seq![TokenModel::QuerySeparator, t] + r, f)
        } else {
            (Seq::empty(), p)
        }
    } else {
        (Seq::empty(), p)
    }
}

/// The query: `?item` followed by any number of `&item`.
pub open spec fn query_at(s: Seq<char>, p: int) -> Option<(Seq<TokenModel>, int)> {
    if 0 <= p < s.len() && s[p] == '?' && query_item_at(s, p + 1) is Some {
        let (t, e) = query_item_at(s, p + 1)->0;
        let (r, f) = query_rest_at(s, e);
        Some((seq![TokenModel::QueryBegin, t] + r, f))
    } else {
        None
    }
}

/// A fragment without surrounding parentheses: `#section`, `#(section)` or a lone `#`.
pub open spec fn plain_fragment_at(s: Seq<char>, p: int) -> Option<(Seq<TokenModel>, int)> {
    if 0 <= p < s.len() && s[p] == '#' {
        if section_at(s, p + 1) is Some {
            let (t, e) = section_at(s, p + 1)->0;
            Some((seq![TokenModel::FragmentBegin] + t, e))
        } else if p + 1 < s.len() && s[p + 1] == '(' && section_at(s, p + 2) is Some && {
            let e = (section_at(s, p + 2)->0).1;
            e < s.len() && s[e] == ')'
        } {
            let (t, e) = section_at(s, p + 2)->0;
            Some((seq![TokenModel::FragmentBegin, TokenModel::Optional(t)], e + 1))
        } else {
            Some((seq![TokenModel::FragmentBegin], p + 1))
        }
    } else {
        None
    }
}

/// The fragment: a plain fragment, or one wrapped in parentheses (optional as a whole).
pub open spec fn fragment_at(s: Seq<char>, p: int) -> Option<(Seq<TokenModel>, int)> {
    if plain_fragment_at(s, p) is Some {
        plain_fragment_at(s, p)
    } else if 0 <= p < s.len() && s[p] == '(' && plain_fragment_at(s, p + 1) is Some && {
        let e = (plain_fragment_at(s, p + 1)->0).1;
        e < s.len() && s[e] == ')'
    } {
        let (t, e) = plain_fragment_at(s, p + 1)->0;
        Some((seq![TokenModel::Optional(t)], e + 1))
    } else {
        None
    }
}

/// Path, query and fragment, each read if present, in that order, from the start.
pub open spec fn prefix_tokens(s: Seq<char>) -> (Seq<TokenModel>, int) {
    let (t1, e1) = match path_at(s, 0) {
        Some(x) => x,
        None => (Seq::empty(), 0),
    };
    let (t2, e2) = match query_at(s, e1) {
        Some(x) => x,
        None => (Seq::empty(), e1),
    };
    let (t3, e3) = match fragment_at(s, e2) {
        Some(x) => x,
        None => (Seq::empty(), e2),
    };
    (t1 + t2 + t3, e3)
}

/// The result of parsing a whole matcher string: its tokens, or the position at which
/// reading stopped.
///
/// The empty string is refused at position 0. Otherwise path, query and fragment must
/// take up the whole string; failing that, a string that begins with a capture is read
/// as that single capture.
pub open spec fn parse_spec(s: Seq<char>) -> Result<Seq<TokenModel>, nat> {
    if s.len() == 0 {
        Err(0)
    } else {
        let (t, e) = prefix_tokens(s);
        if e == s.len() {
            Ok(t)
        } else {
            match capture_at(s, 0) {
                Some((v, _)) => Ok(seq![TokenModel::Capture(v)]),
                None => Err(e as nat),
            }
        }
    }
}

/// Every run of digits that directly follows a `{` denotes a number that fits in `usize`.
///
/// The number of sections in a capture such as `{4}` is held in a `usize`.
pub open spec fn section_counts_fit(s: Seq<char>) -> bool {
    forall|p: int|
        0 <= p < s.len() && #[trigger] s[p] == '{' ==> digits_value(
            s.subrange(p + 1, run_end(s, p + 1, digit_class())),
        ) <= usize::MAX
}

/// A path made of one literal section: `/` followed by a non-empty word that does not
/// begin with a digit and holds none of `` -*/+#?&^@~`;,.|\{}[]()=``, a space, a tab or
/// a newline, parses as a separator and that word.
pub proof fn lemma_single_literal_path(w: Seq<char>)
    requires
        w.len() > 0,
        !('0' <= w[0] && w[0] <= '9'),
        forall|k: int| 0 <= k < w.len() ==> !(#[trigger] w[k] == ' ' || w[k] == '-' || w[k] == '*' || w[k] == '/' || w[k] == '+' || w[k] == '#' || w[k] == '?' || w[k] == '&' || w[k] == '^' || w[k] == '@' || w[k] == '~' || w[k] == '`' || w[k] == ';' || w[k] == ',' || w[k] == '.' || w[k] == '|' || w[k] == '\\' || w[k] == '{' || w[k] == '}' || w[k] == '[' || w[k] == ']' || w[k] == '(' || w[k] == ')' || w[k] == '=' || w[k] == '\t' || w[k] == '\n'),
    ensures
        parse_spec(seq!['/'] + w) == Ok::<Seq<TokenModel>, nat>(seq![TokenModel::Separator, TokenModel::Match(w)]),
{
    let s = seq!['/'] + w;
    let n = s.len() as int;
    assert forall|k: int| 1 <= k < n implies is_ident_char(#[trigger] s[k]) by {
        assert(s[k] == w[k - 1]);
    }
    lemma_run_end_at(s, 1, n, ident_class());
    assert(s[1] == w[0]);
    assert(ident_at(s, 1) == Some(n));
    assert(capture_at(s, n) is None);
    assert(section_rest_at(s, n, true) == (Seq::<TokenModel>::empty(), n));
    assert(s.subrange(1, n) =~= w);
    let sec = seq![TokenModel::Match(w)];
    assert(seq![TokenModel::Match(w)] + Seq::<TokenModel>::empty() =~= sec);
    assert(section_at(s, 1) == Some((sec, n)));
    assert(segments_at(s, n) == (Seq::<TokenModel>::empty(), n));
    let t = seq![TokenModel::Separator, TokenModel::Match(w)];
    assert(seq![TokenModel::Separator] + sec + Seq::<TokenModel>::empty() =~= t);
    assert(segments_at(s, 0) == (t, n));
    assert(path_at(s, 0) == Some((t, n)));
    assert(query_at(s, n) is None);
    assert(plain_fragment_at(s, n) is None);
    assert(fragment_at(s, n) is None);
    assert(t + Seq::<TokenModel>::empty() + Seq::<TokenModel>::empty() =~= t);
    assert(prefix_tokens(s) == (t, n));
}

} // verus!
