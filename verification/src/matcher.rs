//! Matching route strings against matcher tokens and collecting captured sections.
use vstd::prelude::*;
use crate::optimizer::{matcher_token_view, matcher_tokens_view, MatcherToken, MatcherTokenModel};
use crate::text::{
    chars_of, lemma_run_end, lemma_run_end_at, occurs_at, occurs_at_exec, run_end, string_of, string_of_range,
};
use crate::token::{CaptureModel, CaptureVariant};

verus! {

// ---------------------------------------------------------------------------------------
// Characters and literals
// ---------------------------------------------------------------------------------------

/// Characters a capture within one section may consume: anything but ` */#&?{}=`.
pub open spec fn is_capture_char(c: char) -> bool {
    !(c == ' ' || c == '*' || c == '/' || c == '#' || c == '&' || c == '?' || c == '{' || c == '}'
        || c == '=')
}

/// Characters a capture over several sections may consume: anything but ` #&?=`.
pub open spec fn is_many_capture_char(c: char) -> bool {
    !(c == ' ' || c == '#' || c == '&' || c == '?' || c == '=')
}

/// [`is_capture_char`] as a predicate.
pub open spec fn capture_class() -> spec_fn(char) -> bool {
    |c: char| is_capture_char(c)
}

/// [`is_many_capture_char`] as a predicate.
pub open spec fn many_capture_class() -> spec_fn(char) -> bool {
    |c: char| is_many_capture_char(c)
}

/// The lowercase mapping of a character outside ASCII, as `char::to_lowercase` yields it.
pub uninterp spec fn unicode_lowercase(c: char) -> Seq<char>;

/// Whether `c` is an ASCII character.
pub open spec fn is_ascii_char(c: char) -> bool {
    (c as u32) < 128
}

/// The lowercase form of an ASCII character: `A` to `Z` become `a` to `z`, the rest stay.
pub open spec fn ascii_lowercase(c: char) -> char {
    if 65 <= (c as u32) <= 90 {
        ((c as u32) + 32) as char
    } else {
        c
    }
}

/// The lowercase mapping of a character, as `char::to_lowercase` yields it: for ASCII the
/// single character [`ascii_lowercase`], otherwise [`unicode_lowercase`].
pub open spec fn lowercase_of(c: char) -> Seq<char> {
    if is_ascii_char(c) {
        seq![ascii_lowercase(c)]
    } else {
        unicode_lowercase(c)
    }
}

/// The lowercase mapping of `c`, from `char::to_lowercase`.
///
/// For an ASCII character the contract states the result (an uppercase letter becomes
/// the same letter in lowercase; every other ASCII character stays as it is); outside
/// ASCII it names the result and states nothing of the Unicode case tables behind it.
#[verifier::external_body]
fn char_lowercase(c: char) -> (r: Vec<char>)
    ensures
        is_ascii_char(c) ==> r@ == seq![ascii_lowercase(c)],
        !is_ascii_char(c) ==> r@ == unicode_lowercase(c),
{
    c.to_lowercase().collect()
}

/// Two characters are equal ignoring case when their lowercase mappings agree on every
/// position that both have.
pub open spec fn chars_eq_no_case(a: char, b: char) -> bool {
    let la = lowercase_of(a);
    let lb = lowercase_of(b);
    forall|j: int| 0 <= j < la.len() && j < lb.len() ==> la[j] == lb[j]
}

/// Ignoring case, an ASCII literal appears at `p` exactly where the text there is the
/// literal with any of its letters in either case.
pub proof fn lemma_ascii_case_ignored(s: Seq<char>, p: int, lit: Seq<char>)
    requires
        0 <= p && p + lit.len() <= s.len(),
        forall|k: int| 0 <= k < lit.len() ==> is_ascii_char(#[trigger] lit[k]) && is_ascii_char(s[p + k]),
    ensures
        literal_at(s, p, lit, true) <==> forall|k: int|
            0 <= k < lit.len() ==> ascii_lowercase(#[trigger] s[p + k]) == ascii_lowercase(lit[k]),
{
    assert forall|k: int| 0 <= k < lit.len() implies chars_eq_no_case(#[trigger] s[p + k], lit[k]) == (
    ascii_lowercase(s[p + k]) == ascii_lowercase(lit[k])) by {
        assert(0 <= k < lit.len());
        assert(is_ascii_char(lit[k]));
        assert(is_ascii_char(s[p + k]));
        let la = lowercase_of(s[p + k]);
        let lb = lowercase_of(lit[k]);
        assert(la.len() == 1 && lb.len() == 1);
        if !chars_eq_no_case(s[p + k], lit[k]) {
            let j = choose|j: int| !(0 <= j < la.len() && j < lb.len() ==> la[j] == lb[j]);
            assert(j == 0);
        } else {
            assert(la[0] == lb[0]);
        }
    }
}

/// Whether the literal `lit` appears in `s` at `p`, exactly or (if `no_case`) ignoring case.
pub open spec fn literal_at(s: Seq<char>, p: int, lit: Seq<char>, no_case: bool) -> bool {
    if no_case {
        0 <= p && p + lit.len() <= s.len() && forall|k: int|
            0 <= k < lit.len() ==> chars_eq_no_case(#[trigger] s[p + k], lit[k])
    } else {
        occurs_at(s, p, lit)
    }
}

// ---------------------------------------------------------------------------------------
// Delimiters
// ---------------------------------------------------------------------------------------

/// The first literal among the tokens, looking inside optional sections.
pub open spec fn first_literal(ts: Seq<MatcherTokenModel>) -> Option<Seq<char>>
    decreases ts,
{
    if ts.len() == 0 {
        None
    } else {
        match ts[0] {
            MatcherTokenModel::Match(t) => Some(t),
            MatcherTokenModel::Optional(inner) => match first_literal(inner) {
                Some(t) => Some(t),
                None => first_literal(ts.drop_first()),
            },
            MatcherTokenModel::Capture(_) => first_literal(ts.drop_first()),
        }
    }
}

/// The texts that can end a capture followed by the tokens `ts`, and whether an optional
/// section lies among them (in which case the capture may also run to the end).
///
/// Optional sections contribute their first literal and are passed over; the first literal
/// outside them ends the search. `None` where a capture comes next, or an optional section
/// holds no literal.
pub open spec fn delimiters_after(ts: Seq<MatcherTokenModel>) -> Option<(Seq<Seq<char>>, bool)>
    decreases ts,
{
    if ts.len() == 0 {
        Some((Seq::empty(), false))
    } else {
        match ts[0] {
            MatcherTokenModel::Match(t) => Some((seq![t], false)),
            MatcherTokenModel::Optional(inner) => match first_literal(inner) {
                Some(t) => match delimiters_after(ts.drop_first()) {
                    Some((ds, _)) => Some((seq![t] + ds, true)),
                    None => None,
                },
                None => None,
            },
            MatcherTokenModel::Capture(_) => None,
        }
    }
}

/// Whether the search for a delimiter succeeds at `q`: one of `ds` occurs there, or the
/// end is reached and ending there is allowed.
pub open spec fn stops_at(s: Seq<char>, q: int, ds: Seq<Seq<char>>, to_end: bool) -> bool {
    (exists|k: int| 0 <= k < ds.len() && occurs_at(s, q, #[trigger] ds[k])) || (to_end && q == s.len())
}

/// The first position from `p` at which the search for a delimiter succeeds.
pub open spec fn first_stop(s: Seq<char>, p: int, ds: Seq<Seq<char>>, to_end: bool) -> Option<int>
    decreases s.len() - p,
{
    if p < 0 || p > s.len() {
        None
    } else if stops_at(s, p, ds, to_end) {
        Some(p)
    } else if p < s.len() {
        first_stop(s, p + 1, ds, to_end)
    } else {
        None
    }
}

/// Matcher tokens in which every capture that is followed by other tokens has its
/// delimiters defined, also inside optional sections.
pub open spec fn well_formed(ts: Seq<MatcherTokenModel>) -> bool
    decreases ts,
{
    if ts.len() == 0 {
        true
    } else {
        &&& (ts[0] is Capture && ts.len() > 1 ==> delimiters_after(ts.drop_first()) is Some)
        &&& match ts[0] {
            MatcherTokenModel::Optional(inner) => well_formed(inner),
            _ => true,
        }
        &&& well_formed(ts.drop_first())
    }
}

// ---------------------------------------------------------------------------------------
// Captures
// ---------------------------------------------------------------------------------------

/// Reads one section's worth of capture characters (at least one) from `p`.
pub open spec fn section_run(s: Seq<char>, p: int) -> Option<int> {
    let e = run_end(s, p, capture_class());
    if 0 <= p && e > p {
        Some(e)
    } else {
        None
    }
}

/// Where a capture that ends at the next delimiter stops, given the tokens after it.
pub open spec fn until_delimiter(s: Seq<char>, p: int, rest: Seq<MatcherTokenModel>) -> Option<int> {
    match delimiters_after(rest) {
        Some((ds, to_end)) => first_stop(s, p, ds, to_end),
        None => None,
    }
}

/// Where a single-section capture that is followed by the tokens `rest` stops: at the
/// first place after at least one character where the search for a delimiter succeeds,
/// provided every character before it is one a section may hold.
pub open spec fn section_until(s: Seq<char>, p: int, rest: Seq<MatcherTokenModel>) -> Option<int> {
    match delimiters_after(rest) {
        Some((ds, to_end)) => {
            let r = run_end(s, p, capture_class());
            if 0 <= p && p < r {
                match first_stop(s, p + 1, ds, to_end) {
                    Some(e) => if e <= r {
                        Some(e)
                    } else {
                        None
                    },
                    None => None,
                }
            } else {
                None
            }
        },
        None => None,
    }
}

/// Where a capture of `k` sections stops: all but the last section are followed by `/`,
/// which is consumed; the last ends at the next delimiter, or (when nothing follows) after
/// one section's worth of characters.
pub open spec fn numbered_end(s: Seq<char>, p: int, k: nat, rest: Seq<MatcherTokenModel>) -> Option<int>
    decreases k,
{
    if k == 0 {
        Some(p)
    } else if k > 1 {
        match section_run(s, p) {
            Some(e) => if e < s.len() && s[e] == '/' {
                numbered_end(s, e + 1, (k - 1) as nat, rest)
            } else {
                None
            },
            None => None,
        }
    } else if rest.len() > 0 {
        until_delimiter(s, p, rest)
    } else {
        section_run(s, p)
    }
}

/// Where a capture of the given kind, starting at `p` and followed by the tokens `rest`,
/// stops. The captured text is everything from `p` to that point.
pub open spec fn capture_end(v: CaptureModel, s: Seq<char>, p: int, rest: Seq<MatcherTokenModel>) -> Option<int> {
    match v {
        CaptureModel::Unnamed | CaptureModel::Named(_) => if rest.len() > 0 {
            section_until(s, p, rest)
        } else {
            section_run(s, p)
        },
        CaptureModel::ManyUnnamed | CaptureModel::ManyNamed(_) => if rest.len() > 0 {
            until_delimiter(s, p, rest)
        } else if p == s.len() {
            Some(p)
        } else {
            let e = run_end(s, p, many_capture_class());
            if 0 <= p && e > p {
                Some(e)
            } else {
                None
            }
        },
        CaptureModel::NumberedUnnamed(k) | CaptureModel::NumberedNamed(k, _) => numbered_end(s, p, k, rest),
    }
}

/// The key under which a capture is recorded, if it has one.
pub open spec fn capture_key(v: CaptureModel) -> Option<Seq<char>> {
    match v {
        CaptureModel::Named(n) => Some(n),
        CaptureModel::ManyNamed(n) => Some(n),
        CaptureModel::NumberedNamed(_, n) => Some(n),
        _ => None,
    }
}

/// The captures recorded by one capture token that consumed `s[p..e]`.
pub open spec fn recorded(v: CaptureModel, s: Seq<char>, p: int, e: int) -> Seq<(Seq<char>, Seq<char>)> {
    match capture_key(v) {
        Some(n) => seq![(n, s.subrange(p, e))],
        None => Seq::empty(),
    }
}

// ---------------------------------------------------------------------------------------
// Matching
// ---------------------------------------------------------------------------------------

/// Matches the tokens `ts` against `s` from position `p`, in order. Yields the position
/// reached and the captures recorded (in the order recorded), or `None`.
///
/// A literal must appear next; an optional section is matched if it can be and passed over
/// otherwise; a capture consumes text as [`capture_end`] says.
pub open spec fn match_tokens(ts: Seq<MatcherTokenModel>, s: Seq<char>, p: int, no_case: bool) -> Option<(int, Seq<(Seq<char>, Seq<char>)>)>
    decreases ts,
{
    if ts.len() == 0 {
        Some((p, Seq::empty()))
    } else {
        let rest = ts.drop_first();
        match ts[0] {
            MatcherTokenModel::Match(lit) => if literal_at(s, p, lit, no_case) {
                match_tokens(rest, s, p + lit.len(), no_case)
            } else {
                None
            },
            MatcherTokenModel::Optional(inner) => match match_tokens(inner, s, p, no_case) {
                Some((q, caps)) => match match_tokens(rest, s, q, no_case) {
                    Some((r, more)) => Some((r, caps + more)),
                    None => None,
                },
                None => match_tokens(rest, s, p, no_case),
            },
            MatcherTokenModel::Capture(v) => match capture_end(v, s, p, rest) {
                Some(e) => match match_tokens(rest, s, e, no_case) {
                    Some((r, more)) => Some((r, recorded(v, s, p, e) + more)),
                    None => None,
                },
                None => None,
            },
        }
    }
}

// ---------------------------------------------------------------------------------------
// Executable matching
// ---------------------------------------------------------------------------------------

/// The models of a sequence of character vectors.
pub open spec fn seqs_view(v: Seq<Vec<char>>) -> Seq<Seq<char>> {
    v.map_values(|x: Vec<char>| x@)
}

/// The model of a list of recorded captures.
pub open spec fn pairs_view(v: Seq<(String, String)>) -> Seq<(Seq<char>, Seq<char>)> {
    v.map_values(|x: (String, String)| (x.0@, x.1@))
}

/// Whether `c` may be consumed by a capture within one section.
fn is_capture_char_exec(c: char) -> (r: bool)
    ensures
        r == is_capture_char(c),
{
    !(c == ' ' || c == '*' || c == '/' || c == '#' || c == '&' || c == '?' || c == '{' || c == '}'
        || c == '=')
}

/// Whether `c` may be consumed by a capture over several sections.
fn is_many_capture_char_exec(c: char) -> (r: bool)
    ensures
        r == is_many_capture_char(c),
{
    !(c == ' ' || c == '#' || c == '&' || c == '?' || c == '=')
}

/// Whether two characters are equal ignoring case.
fn chars_eq_no_case_exec(a: char, b: char) -> (r: bool)
    ensures
        r == chars_eq_no_case(a, b),
{
    let la = char_lowercase(a);
    let lb = char_lowercase(b);
    let mut j: usize = 0;
    while j < la.len() && j < lb.len()
        invariant
            la@ == lowercase_of(a),
            lb@ == lowercase_of(b),
            j <= la@.len(),
            forall|m: int| 0 <= m < j && m < la@.len() && m < lb@.len() ==> la@[m] == lb@[m],
        decreases la@.len() - j,
    {
        if la[j] != lb[j] {
            return false;
        }
        j = j + 1;
    }
    true
}

/// Whether `lit` appears in `s` at `p`, exactly or (if `no_case`) ignoring case.
fn literal_at_exec(s: &Vec<char>, p: usize, lit: &Vec<char>, no_case: bool) -> (r: bool)
    ensures
        r == literal_at(s@, p as int, lit@, no_case),
{
    if !no_case {
        return occurs_at_exec(s, p, lit);
    }
    if p > s.len() || lit.len() > s.len() - p {
        return false;
    }
    let mut k: usize = 0;
    while k < lit.len()
        invariant
            p + lit@.len() <= s@.len(),
            s@.len() == s.len(),
            lit@.len() == lit.len(),
            k <= lit@.len(),
            forall|m: int| 0 <= m < k ==> chars_eq_no_case(#[trigger] s@[p + m], lit@[m]),
        decreases lit@.len() - k,
    {
        if !chars_eq_no_case_exec(s[p + k], lit[k]) {
            return false;
        }
        k = k + 1;
    }
    true
}

/// Facts about the model of a token list and its suffixes.
proof fn lemma_skip_view(ts: Seq<MatcherToken>, i: int)
    requires
        0 <= i < ts.len(),
    ensures
        matcher_tokens_view(ts).skip(i)[0] == matcher_token_view(ts[i]),
        matcher_tokens_view(ts).skip(i).drop_first() == matcher_tokens_view(ts).skip(i + 1),
        matcher_tokens_view(ts).skip(i).len() == ts.len() - i,
{
    crate::optimizer::lemma_matcher_tokens_view_index(ts);
    assert(matcher_tokens_view(ts).skip(i).drop_first() =~= matcher_tokens_view(ts).skip(i + 1));
}

/// The first literal among `ts[from..]`, looking inside optional sections.
fn first_literal_exec(ts: &Vec<MatcherToken>, from: usize) -> (r: Option<Vec<char>>)
    requires
        from <= ts@.len(),
    ensures
        match r {
            Some(t) => first_literal(matcher_tokens_view(ts@).skip(from as int)) == Some(t@),
            None => first_literal(matcher_tokens_view(ts@).skip(from as int)) is None,
        },
    decreases ts,
{
    let ghost m = matcher_tokens_view(ts@);
    proof { crate::optimizer::lemma_matcher_tokens_view_index(ts@); }
    let mut i = from;
    while i < ts.len()
        invariant
            from <= i <= ts@.len(),
            m == matcher_tokens_view(ts@),
            m.len() == ts@.len(),
            first_literal(m.skip(from as int)) == first_literal(m.skip(i as int)),
        decreases ts@.len() - i,
    {
        proof { lemma_skip_view(ts@, i as int); }
        match &ts[i] {
            MatcherToken::Match(t) => {
                return Some(chars_of(t.as_str()));
            },
            MatcherToken::Optional(inner) => {
                match first_literal_exec(inner, 0) {
                    Some(t) => {
                        assert(matcher_tokens_view(inner@).skip(0) =~= matcher_tokens_view(inner@));
                        return Some(t);
                    },
                    None => {
                        assert(matcher_tokens_view(inner@).skip(0) =~= matcher_tokens_view(inner@));
                    },
                }
            },
            MatcherToken::Capture(_) => {},
        }
        i = i + 1;
    }
    assert(m.skip(i as int).len() == 0);
    None
}

/// The delimiters that end a capture followed by `ts[from..]`, and whether an optional
/// section lies among them.
fn next_delimiters_exec(ts: &Vec<MatcherToken>, from: usize) -> (r: Option<(Vec<Vec<char>>, bool)>)
    requires
        from <= ts@.len(),
    ensures
        match r {
            Some((ds, o)) => delimiters_after(matcher_tokens_view(ts@).skip(from as int)) == Some((seqs_view(ds@), o)),
            None => delimiters_after(matcher_tokens_view(ts@).skip(from as int)) is None,
        },
{
    let ghost m = matcher_tokens_view(ts@);
    proof { crate::optimizer::lemma_matcher_tokens_view_index(ts@); }
    let mut acc: Vec<Vec<char>> = Vec::new();
    let mut seen = false;
    let mut i = from;
    assert(seqs_view(acc@) =~= Seq::<Seq<char>>::empty());
    while i < ts.len()
        invariant
            from <= i <= ts@.len(),
            m == matcher_tokens_view(ts@),
            m.len() == ts@.len(),
            delimiters_after(m.skip(from as int)) == match delimiters_after(m.skip(i as int)) {
                Some((ds, f)) => Some((seqs_view(acc@) + ds, seen || f)),
                None => None,
            },
        decreases ts@.len() - i,
    {
        proof { lemma_skip_view(ts@, i as int); }
        match &ts[i] {
            MatcherToken::Match(t) => {
                let c = chars_of(t.as_str());
                let ghost old_acc = acc@;
                acc.push(c);
                assert(seqs_view(acc@) =~= seqs_view(old_acc) + seq![c@]);
                return Some((acc, seen));
            },
            MatcherToken::Optional(inner) => {
                match first_literal_exec(inner, 0) {
                    Some(t) => {
                        assert(matcher_tokens_view(inner@).skip(0) =~= matcher_tokens_view(inner@));
                        let ghost old_acc = acc@;
                        acc.push(t);
                        assert(seqs_view(acc@) =~= seqs_view(old_acc) + seq![t@]);
                        proof {
                            match delimiters_after(m.skip(i + 1)) {
                                Some((ds, f)) => {
                                    assert(seqs_view(old_acc) + (seq![t@] + ds) =~= seqs_view(acc@) + ds);
                                },
                                None => {},
                            }
                        }
                        seen = true;
                    },
                    None => {
                        assert(matcher_tokens_view(inner@).skip(0) =~= matcher_tokens_view(inner@));
                        return None;
                    },
                }
            },
            MatcherToken::Capture(_) => {
                return None;
            },
        }
        i = i + 1;
    }
    assert(m.skip(i as int).len() == 0);
    assert(seqs_view(acc@) + Seq::<Seq<char>>::empty() =~= seqs_view(acc@));
    Some((acc, seen))
}

/// The first of `ds` that `s` begins with.
pub open spec fn first_prefix(ds: Seq<Seq<char>>, s: Seq<char>) -> Option<Seq<char>>
    decreases ds.len(),
{
    if ds.len() == 0 {
        None
    } else if occurs_at(s, 0, ds[0]) {
        Some(ds[0])
    } else {
        first_prefix(ds.drop_first(), s)
    }
}

/// What the delimiter parser for a capture followed by the tokens `ts` does on `s`: takes
/// the first of [`delimiters_after`] that `s` begins with, giving the rest of `s` and that
/// delimiter; where none begins `s` and an optional section comes first, takes all of `s`
/// (the rest is then empty). `None` where it fails.
pub open spec fn delimiter_parse(ts: Seq<MatcherTokenModel>, s: Seq<char>) -> Option<(Seq<char>, Seq<char>)> {
    match delimiters_after(ts) {
        Some((ds, to_end)) => match first_prefix(ds, s) {
            Some(d) => Some((s.skip(d.len() as int), d)),
            None => if to_end {
                Some((Seq::empty(), s))
            } else {
                None
            },
        },
        None => None,
    }
}

/// Runs the delimiter parser for a capture followed by `tokens` on `i`: yields the rest of
/// `i` and the delimiter it consumed, or `None` where `i` does not begin with a delimiter
/// (and no optional section allows taking all of `i`).
pub fn next_delimiters(tokens: &Vec<MatcherToken>, i: &str) -> (r: Option<(String, String)>)
    requires
        delimiters_after(matcher_tokens_view(tokens@)) is Some,
    ensures
        match r {
            Some((rest, d)) => delimiter_parse(matcher_tokens_view(tokens@), i@) == Some((rest@, d@)),
            None => delimiter_parse(matcher_tokens_view(tokens@), i@) is None,
        },
{
    let s = chars_of(i);
    let ghost m = matcher_tokens_view(tokens@);
    assert(m.skip(0) =~= m);
    let (ds, to_end) = match next_delimiters_exec(tokens, 0) {
        Some(x) => x,
        None => {
            return None;
        },
    };
    let ghost dv = seqs_view(ds@);
    let mut k: usize = 0;
    assert(dv.skip(0) =~= dv);
    while k < ds.len()
        invariant
            k <= ds@.len(),
            dv == seqs_view(ds@),
            dv.len() == ds@.len(),
            s@ == i@,
            m == matcher_tokens_view(tokens@),
            delimiters_after(m) == Some((dv, to_end)),
            first_prefix(dv, i@) == first_prefix(dv.skip(k as int), i@),
        decreases ds@.len() - k,
    {
        assert(dv.skip(k as int)[0] == ds@[k as int]@);
        assert(dv.skip(k as int).drop_first() =~= dv.skip(k + 1));
        if occurs_at_exec(&s, 0, &ds[k]) {
            let n = ds[k].len();
            let rest = string_of_range(&s, n, s.len());
            let d = string_of(ds[k].as_slice());
            assert(rest@ =~= i@.skip(n as int));
            assert(occurs_at(i@, 0, dv.skip(k as int)[0]));
            assert(first_prefix(dv, i@) == Some(dv[k as int]));
            assert(d@ == dv[k as int]);
            assert(n == dv[k as int].len());
            assert(delimiters_after(m) == Some((dv, to_end)));
            assert(delimiter_parse(m, i@) == Some((i@.skip(n as int), dv[k as int])));
            return Some((rest, d));
        }
        k = k + 1;
    }
    assert(dv.skip(k as int).len() == 0);
    if to_end {
        Some((String::new(), i.to_string()))
    } else {
        None
    }
}

/// Whether one of `ds` occurs at `q`, or `q` is the end and ending there is allowed.
fn stops_at_exec(s: &Vec<char>, q: usize, ds: &Vec<Vec<char>>, to_end: bool) -> (r: bool)
    ensures
        r == stops_at(s@, q as int, seqs_view(ds@), to_end),
{
    let mut k: usize = 0;
    while k < ds.len()
        invariant
            k <= ds@.len(),
            forall|j: int| 0 <= j < k ==> !occurs_at(s@, q as int, #[trigger] seqs_view(ds@)[j]),
        decreases ds@.len() - k,
    {
        if occurs_at_exec(s, q, &ds[k]) {
            assert(seqs_view(ds@)[k as int] == ds@[k as int]@);
            return true;
        }
        k = k + 1;
    }
    to_end && q == s.len()
}

/// The first position from `p` at which one of `ds` occurs (or the end, if allowed).
pub(crate) fn first_stop_exec(s: &Vec<char>, p: usize, ds: &Vec<Vec<char>>, to_end: bool) -> (r: Option<usize>)
    requires
        p <= s@.len(),
    ensures
        match r {
            Some(q) => first_stop(s@, p as int, seqs_view(ds@), to_end) == Some(q as int) && p <= q <= s@.len(),
            None => first_stop(s@, p as int, seqs_view(ds@), to_end) is None,
        },
{
    let mut q = p;
    loop
        invariant
            p <= q <= s@.len(),
            first_stop(s@, p as int, seqs_view(ds@), to_end) == first_stop(s@, q as int, seqs_view(ds@), to_end),
        decreases s@.len() - q,
    {
        if stops_at_exec(s, q, ds, to_end) {
            return Some(q);
        }
        if q < s.len() {
            q = q + 1;
        } else {
            return None;
        }
    }
}

/// One section's worth of capture characters (at least one) from `p`.
pub(crate) fn section_run_exec(s: &Vec<char>, p: usize) -> (r: Option<usize>)
    requires
        p <= s@.len(),
    ensures
        match r {
            Some(e) => section_run(s@, p as int) == Some(e as int) && p < e <= s@.len(),
            None => section_run(s@, p as int) is None,
        },
{
    proof { lemma_run_end(s@, p as int, capture_class()); }
    let mut i = p;
    while i < s.len() && is_capture_char_exec(s[i])
        invariant
            p <= i <= s@.len(),
            run_end(s@, i as int, capture_class()) == run_end(s@, p as int, capture_class()),
        decreases s@.len() - i,
    {
        i = i + 1;
    }
    if i > p {
        Some(i)
    } else {
        None
    }
}

/// The end of the run of characters a capture over several sections may consume.
fn many_run_exec(s: &Vec<char>, p: usize) -> (e: usize)
    requires
        p <= s@.len(),
    ensures
        e as int == run_end(s@, p as int, many_capture_class()),
        p <= e <= s@.len(),
{
    proof { lemma_run_end(s@, p as int, many_capture_class()); }
    let mut i = p;
    while i < s.len() && is_many_capture_char_exec(s[i])
        invariant
            p <= i <= s@.len(),
            run_end(s@, i as int, many_capture_class()) == run_end(s@, p as int, many_capture_class()),
        decreases s@.len() - i,
    {
        i = i + 1;
    }
    i
}

/// Where a capture that ends at the next delimiter stops, with `ts[from..]` following it.
fn until_delimiter_exec(s: &Vec<char>, p: usize, ts: &Vec<MatcherToken>, from: usize) -> (r: Option<usize>)
    requires
        p <= s@.len(),
        from <= ts@.len(),
        delimiters_after(matcher_tokens_view(ts@).skip(from as int)) is Some,
    ensures
        match r {
            Some(q) => until_delimiter(s@, p as int, matcher_tokens_view(ts@).skip(from as int)) == Some(q as int)
                && p <= q <= s@.len(),
            None => until_delimiter(s@, p as int, matcher_tokens_view(ts@).skip(from as int)) is None,
        },
{
    match next_delimiters_exec(ts, from) {
        Some((ds, to_end)) => first_stop_exec(s, p, &ds, to_end),
        None => None,
    }
}

/// Where a single-section capture starting at `p` stops, with `ts[from..]` following it.
fn section_until_exec(s: &Vec<char>, p: usize, ts: &Vec<MatcherToken>, from: usize) -> (r: Option<usize>)
    requires
        p <= s@.len(),
        from <= ts@.len(),
        delimiters_after(matcher_tokens_view(ts@).skip(from as int)) is Some,
    ensures
        match r {
            Some(q) => section_until(s@, p as int, matcher_tokens_view(ts@).skip(from as int)) == Some(q as int)
                && p <= q <= s@.len(),
            None => section_until(s@, p as int, matcher_tokens_view(ts@).skip(from as int)) is None,
        },
{
    match next_delimiters_exec(ts, from) {
        Some((ds, to_end)) => match section_run_exec(s, p) {
            Some(r) => match first_stop_exec(s, p + 1, &ds, to_end) {
                Some(e) => if e <= r {
                    Some(e)
                } else {
                    None
                },
                None => None,
            },
            None => None,
        },
        None => None,
    }
}

/// Where a capture of `k` sections stops, with `ts[from..]` following it.
fn numbered_end_exec(s: &Vec<char>, p: usize, k: usize, ts: &Vec<MatcherToken>, from: usize) -> (r: Option<usize>)
    requires
        p <= s@.len(),
        from <= ts@.len(),
        from < ts@.len() ==> delimiters_after(matcher_tokens_view(ts@).skip(from as int)) is Some,
    ensures
        match r {
            Some(q) => numbered_end(s@, p as int, k as nat, matcher_tokens_view(ts@).skip(from as int)) == Some(q as int)
                && p <= q <= s@.len(),
            None => numbered_end(s@, p as int, k as nat, matcher_tokens_view(ts@).skip(from as int)) is None,
        },
{
    let ghost rest = matcher_tokens_view(ts@).skip(from as int);
    proof { crate::optimizer::lemma_matcher_tokens_view_index(ts@); }
    let mut i = p;
    let mut left = k;
    while left > 1
        invariant
            p <= i <= s@.len(),
            1 <= left <= k || left == k,
            rest == matcher_tokens_view(ts@).skip(from as int),
            numbered_end(s@, p as int, k as nat, rest) == numbered_end(s@, i as int, left as nat, rest),
        decreases left,
    {
        match section_run_exec(s, i) {
            Some(e) => {
                if e < s.len() && s[e] == '/' {
                    i = e + 1;
                    left = left - 1;
                } else {
                    return None;
                }
            },
            None => {
                return None;
            },
        }
    }
    if left == 0 {
        return Some(i);
    }
    if from < ts.len() {
        until_delimiter_exec(s, i, ts, from)
    } else {
        section_run_exec(s, i)
    }
}

/// Where a capture of kind `v` starting at `p` stops, with `ts[from..]` following it.
fn capture_end_exec(v: &CaptureVariant, s: &Vec<char>, p: usize, ts: &Vec<MatcherToken>, from: usize) -> (r: Option<usize>)
    requires
        p <= s@.len(),
        from <= ts@.len(),
        from < ts@.len() ==> delimiters_after(matcher_tokens_view(ts@).skip(from as int)) is Some,
    ensures
        match r {
            Some(q) => capture_end(v@, s@, p as int, matcher_tokens_view(ts@).skip(from as int)) == Some(q as int)
                && p <= q <= s@.len(),
            None => capture_end(v@, s@, p as int, matcher_tokens_view(ts@).skip(from as int)) is None,
        },
{
    proof { crate::optimizer::lemma_matcher_tokens_view_index(ts@); }
    match v {
        CaptureVariant::Unnamed | CaptureVariant::Named(_) => {
            if from < ts.len() {
                section_until_exec(s, p, ts, from)
            } else {
                section_run_exec(s, p)
            }
        },
        CaptureVariant::ManyUnnamed | CaptureVariant::ManyNamed(_) => {
            if from < ts.len() {
                until_delimiter_exec(s, p, ts, from)
            } else if p == s.len() {
                Some(p)
            } else {
                let e = many_run_exec(s, p);
                if e > p {
                    Some(e)
                } else {
                    None
                }
            }
        },
        CaptureVariant::NumberedUnnamed { sections } => numbered_end_exec(s, p, *sections, ts, from),
        CaptureVariant::NumberedNamed { sections, name: _ } => numbered_end_exec(s, p, *sections, ts, from),
    }
}

/// Prepends the captures `acc` to a match result.
pub open spec fn after_captures(
    acc: Seq<(Seq<char>, Seq<char>)>,
    r: Option<(int, Seq<(Seq<char>, Seq<char>)>)>,
) -> Option<(int, Seq<(Seq<char>, Seq<char>)>)> {
    match r {
        Some((q, more)) => Some((q, acc + more)),
        None => None,
    }
}

/// Well-formed tokens stay well-formed after dropping a prefix.
proof fn lemma_well_formed_skip(m: Seq<MatcherTokenModel>, i: int)
    requires
        well_formed(m),
        0 <= i <= m.len(),
    ensures
        well_formed(m.skip(i)),
    decreases i,
{
    if i == 0 {
        assert(m.skip(0) =~= m);
    } else {
        lemma_well_formed_skip(m, i - 1);
        assert(m.skip(i - 1).drop_first() =~= m.skip(i));
    }
}

/// The key under which a capture of kind `v` is recorded, if any.
fn capture_name(v: &CaptureVariant) -> (r: Option<String>)
    ensures
        match r {
            Some(n) => capture_key(v@) == Some(n@),
            None => capture_key(v@) is None,
        },
{
    match v {
        CaptureVariant::Named(n) => Some(n.clone()),
        CaptureVariant::ManyNamed(n) => Some(n.clone()),
        CaptureVariant::NumberedNamed { sections: _, name } => Some(name.clone()),
        _ => None,
    }
}

/// Matches `ts` against `s` from `p`; see [`match_tokens`].
fn match_from(ts: &Vec<MatcherToken>, s: &Vec<char>, p: usize, no_case: bool) -> (r: Option<(usize, Vec<(String, String)>)>)
    requires
        p <= s@.len(),
        well_formed(matcher_tokens_view(ts@)),
    ensures
        match r {
            Some((q, caps)) => match_tokens(matcher_tokens_view(ts@), s@, p as int, no_case)
                == Some((q as int, pairs_view(caps@))) && p <= q <= s@.len(),
            None => match_tokens(matcher_tokens_view(ts@), s@, p as int, no_case) is None,
        },
    decreases ts,
{
    let ghost m = matcher_tokens_view(ts@);
    proof { crate::optimizer::lemma_matcher_tokens_view_index(ts@); }
    let mut caps: Vec<(String, String)> = Vec::new();
    let mut pos = p;
    let mut i: usize = 0;
    assert(m.skip(0) =~= m);
    assert(pairs_view(caps@) =~= Seq::<(Seq<char>, Seq<char>)>::empty());
    assert(after_captures(pairs_view(caps@), match_tokens(m, s@, p as int, no_case)) =~= match_tokens(m, s@, p as int, no_case)) by {
        match match_tokens(m, s@, p as int, no_case) {
            Some((q, more)) => { assert(Seq::<(Seq<char>, Seq<char>)>::empty() + more =~= more); },
            None => {},
        }
    }
    while i < ts.len()
        invariant
            m == matcher_tokens_view(ts@),
            m.len() == ts@.len(),
            well_formed(m),
            i <= ts@.len(),
            p <= pos <= s@.len(),
            match_tokens(m, s@, p as int, no_case)
                == after_captures(pairs_view(caps@), match_tokens(m.skip(i as int), s@, pos as int, no_case)),
        decreases ts@.len() - i,
    {
        proof {
            lemma_skip_view(ts@, i as int);
            lemma_well_formed_skip(m, i as int);
        }
        let ghost rest = m.skip(i as int);
        let ghost old_caps = pairs_view(caps@);
        match &ts[i] {
            MatcherToken::Match(lit) => {
                let l = chars_of(lit.as_str());
                if literal_at_exec(s, pos, &l, no_case) {
                    assert(pos + l@.len() <= s@.len() && s@.len() == s.len() && l@.len() == l.len());
                    pos = pos + l.len();
                } else {
                    return None;
                }
            },
            MatcherToken::Optional(inner) => {
                match match_from(inner, s, pos, no_case) {
                    Some((q, more)) => {
                        let ghost mv = pairs_view(more@);
                        let mut more = more;
                        caps.append(&mut more);
                        assert(pairs_view(caps@) =~= old_caps + mv);
                        proof {
                            match match_tokens(m.skip(i + 1), s@, q as int, no_case) {
                                Some((r, rest_caps)) => {
                                    assert(old_caps + (mv + rest_caps) =~= pairs_view(caps@) + rest_caps);
                                },
                                None => {},
                            }
                        }
                        pos = q;
                    },
                    None => {},
                }
            },
            MatcherToken::Capture(v) => {
                match capture_end_exec(v, s, pos, ts, i + 1) {
                    Some(e) => {
                        let ghost rec = recorded(v@, s@, pos as int, e as int);
                        match capture_name(v) {
                            Some(n) => {
                                let value = string_of_range(s, pos, e);
                                caps.push((n, value));
                                assert(pairs_view(caps@) =~= old_caps + rec);
                            },
                            None => {
                                assert(pairs_view(caps@) =~= old_caps + rec);
                            },
                        }
                        proof {
                            match match_tokens(m.skip(i + 1), s@, e as int, no_case) {
                                Some((r, rest_caps)) => {
                                    assert(old_caps + (rec + rest_caps) =~= pairs_view(caps@) + rest_caps);
                                },
                                None => {},
                            }
                        }
                        pos = e;
                    },
                    None => {
                        return None;
                    },
                }
            },
        }
        i = i + 1;
    }
    assert(m.skip(i as int).len() == 0);
    assert(pairs_view(caps@) + Seq::<(Seq<char>, Seq<char>)>::empty() =~= pairs_view(caps@));
    Some((pos, caps))
}

/// Whether the tokens are well formed; see [`well_formed`].
pub fn tokens_well_formed(ts: &Vec<MatcherToken>) -> (r: bool)
    ensures
        r == well_formed(matcher_tokens_view(ts@)),
    decreases ts,
{
    let ghost m = matcher_tokens_view(ts@);
    proof { crate::optimizer::lemma_matcher_tokens_view_index(ts@); }
    let mut i: usize = 0;
    assert(m.skip(0) =~= m);
    while i < ts.len()
        invariant
            m == matcher_tokens_view(ts@),
            m.len() == ts@.len(),
            i <= ts@.len(),
            well_formed(m) == well_formed(m.skip(i as int)),
        decreases ts@.len() - i,
    {
        proof { lemma_skip_view(ts@, i as int); }
        match &ts[i] {
            MatcherToken::Capture(_) => {
                if i + 1 < ts.len() {
                    if next_delimiters_exec(ts, i + 1).is_none() {
                        return false;
                    }
                }
            },
            MatcherToken::Optional(inner) => {
                if !tokens_well_formed(inner) {
                    return false;
                }
            },
            MatcherToken::Match(_) => {},
        }
        i = i + 1;
    }
    assert(m.skip(i as int).len() == 0);
    true
}

/// Settings that control how a route string is matched.
#[derive(Debug, Clone, Copy, PartialEq, Eq)]
pub struct MatcherSettings {
    /// No optional `/` is added after the path of the matcher string.
    pub strict: bool,
    /// A match must use the whole route string.
    pub complete: bool,
    /// Literals are compared ignoring case.
    pub case_insensitive: bool,
}

impl Default for MatcherSettings {
    /// Not strict, complete, and case sensitive.
    fn default() -> (r: Self)
        ensures
            r == (MatcherSettings { strict: false, complete: true, case_insensitive: false }),
    {
        MatcherSettings { strict: false, complete: true, case_insensitive: false }
    }
}

/// Captured sections, as (key, value) pairs in the order they were recorded.
#[derive(Debug, Clone, PartialEq, Eq)]
pub struct Captures {
    /// The recorded pairs.
    pub entries: Vec<(String, String)>,
}

impl View for Captures {
    type V = Seq<(Seq<char>, Seq<char>)>;

    open spec fn view(&self) -> Seq<(Seq<char>, Seq<char>)> {
        pairs_view(self.entries@)
    }
}

/// The value last recorded under `key`.
pub open spec fn lookup(pairs: Seq<(Seq<char>, Seq<char>)>, key: Seq<char>) -> Option<Seq<char>>
    decreases pairs.len(),
{
    if pairs.len() == 0 {
        None
    } else if pairs.last().0 == key {
        Some(pairs.last().1)
    } else {
        lookup(pairs.drop_last(), key)
    }
}

/// The keys of recorded pairs.
pub open spec fn keys_of(pairs: Seq<(Seq<char>, Seq<char>)>) -> Set<Seq<char>>
    decreases pairs.len(),
{
    if pairs.len() == 0 {
        Set::empty()
    } else {
        set![pairs[0].0] + keys_of(pairs.drop_first())
    }
}

/// The keys of two lists of pairs, one after the other, are the keys of each.
pub proof fn lemma_keys_of_add(a: Seq<(Seq<char>, Seq<char>)>, b: Seq<(Seq<char>, Seq<char>)>)
    ensures
        keys_of(a + b) == keys_of(a) + keys_of(b),
    decreases a.len(),
{
    if a.len() == 0 {
        assert(a + b =~= b);
        assert(keys_of(a) + keys_of(b) =~= keys_of(b));
    } else {
        lemma_keys_of_add(a.drop_first(), b);
        assert((a + b).drop_first() =~= a.drop_first() + b);
        assert((a + b)[0] == a[0]);
        assert(keys_of(a + b) =~= keys_of(a) + keys_of(b));
    }
}

/// The keys of a single pair.
pub proof fn lemma_keys_of_one(k: Seq<char>, v: Seq<char>)
    ensures
        keys_of(seq![(k, v)]) == set![k],
{
    let one = seq![(k, v)];
    assert(one.drop_first() =~= Seq::<(Seq<char>, Seq<char>)>::empty());
    assert(keys_of(one.drop_first()) == Set::<Seq<char>>::empty());
    assert(one[0].0 == k);
    assert(keys_of(one) == set![k] + Set::<Seq<char>>::empty());
    assert(keys_of(one) =~= set![k]);
}

impl Captures {
    /// No captures.
    pub fn new() -> (r: Self)
        ensures
            r@ == Seq::<(Seq<char>, Seq<char>)>::empty(),
    {
        let r = Captures { entries: Vec::new() };
        assert(r@ =~= Seq::<(Seq<char>, Seq<char>)>::empty());
        r
    }

    /// The value last recorded under `key`, as a map keeps the last insertion.
    pub fn get(&self, key: &str) -> (r: Option<String>)
        ensures
            match r {
                Some(v) => lookup(self@, key@) == Some(v@),
                None => lookup(self@, key@) is None,
            },
    {
        let k = key.to_owned();
        let mut i = self.entries.len();
        assert(self.entries@.take(i as int) =~= self.entries@);
        while i > 0
            invariant
                i <= self.entries@.len(),
                k@ == key@,
                lookup(self@, key@) == lookup(pairs_view(self.entries@.take(i as int)), key@),
            decreases i,
        {
            let ghost prefix = self.entries@.take(i as int);
            assert(pairs_view(prefix).drop_last() =~= pairs_view(self.entries@.take(i - 1)));
            let entry = &self.entries[i - 1];
            if entry.0 == k {
                return Some(entry.1.clone());
            }
            i = i - 1;
        }
        assert(pairs_view(self.entries@.take(0)) =~= Seq::<(Seq<char>, Seq<char>)>::empty());
        None
    }

    /// Whether nothing was recorded.
    pub fn is_empty(&self) -> (r: bool)
        ensures
            r == (self@.len() == 0),
    {
        self.entries.len() == 0
    }
}

/// Collections that matching records captures into: a map-like [`Captures`], or a plain
/// list of pairs.
pub trait CaptureCollection: Sized {
    /// The pairs recorded so far, in order.
    spec fn recorded(&self) -> Seq<(Seq<char>, Seq<char>)>;

    /// An empty collection.
    fn new2() -> (r: Self)
        ensures
            r.recorded() == Seq::<(Seq<char>, Seq<char>)>::empty(),
    ;

    /// Records `value` under `key`.
    fn insert2(&mut self, key: &str, value: String)
        ensures
            final(self).recorded() == old(self).recorded().push((key@, value@)),
    ;

    /// Records everything `other` recorded, after what is already there.
    fn extend2(&mut self, other: Self)
        ensures
            final(self).recorded() == old(self).recorded() + other.recorded(),
    ;
}

impl CaptureCollection for Captures {
    open spec fn recorded(&self) -> Seq<(Seq<char>, Seq<char>)> {
        self@
    }

    fn new2() -> (r: Self) {
        Captures::new()
    }

    fn insert2(&mut self, key: &str, value: String) {
        let ghost before = self@;
        self.entries.push((key.to_owned(), value));
        assert(self@ =~= before.push((key@, value@)));
    }

    fn extend2(&mut self, other: Self) {
        let ghost before = self@;
        let ghost added = other@;
        let mut more = other.entries;
        self.entries.append(&mut more);
        assert(self@ =~= before + added);
    }
}

impl CaptureCollection for Vec<(String, String)> {
    open spec fn recorded(&self) -> Seq<(Seq<char>, Seq<char>)> {
        pairs_view(self@)
    }

    fn new2() -> (r: Self) {
        let r: Vec<(String, String)> = Vec::new();
        assert(pairs_view(r@) =~= Seq::<(Seq<char>, Seq<char>)>::empty());
        r
    }

    fn insert2(&mut self, key: &str, value: String) {
        let ghost before = pairs_view(self@);
        self.push((key.to_owned(), value));
        assert(pairs_view(self@) =~= before.push((key@, value@)));
    }

    fn extend2(&mut self, other: Self) {
        let ghost before = pairs_view(self@);
        let ghost added = pairs_view(other@);
        let mut more = other;
        self.append(&mut more);
        assert(pairs_view(self@) =~= before + added);
    }
}

/// The result of matching a whole route string from its start: the position reached and
/// the captures, or `None`.
pub open spec fn match_route(tokens: Seq<MatcherTokenModel>, s: Seq<char>, settings: MatcherSettings) -> Option<(int, Seq<(Seq<char>, Seq<char>)>)> {
    match_tokens(tokens, s, 0, settings.case_insensitive)
}

/// Matches the route string `i` against the tokens from its start. Yields the unmatched
/// rest of `i` and the captures.
pub fn match_path_impl(tokens: &Vec<MatcherToken>, settings: MatcherSettings, i: &str) -> (r: Option<(String, Captures)>)
    requires
        well_formed(matcher_tokens_view(tokens@)),
    ensures
        match r {
            Some((rest, caps)) => match match_route(matcher_tokens_view(tokens@), i@, settings) {
                Some((q, pairs)) => 0 <= q <= i@.len() && rest@ == i@.skip(q) && caps@ == pairs,
                None => false,
            },
            None => match_route(matcher_tokens_view(tokens@), i@, settings) is None,
        },
{
    let s = chars_of(i);
    match match_from(tokens, &s, 0, settings.case_insensitive) {
        Some((q, pairs)) => {
            let rest = string_of_range(&s, q, s.len());
            assert(rest@ =~= i@.skip(q as int));
            Some((rest, Captures { entries: pairs }))
        },
        None => None,
    }
}

/// Matches the route string `i` against the tokens; the captures as a map.
pub fn match_path(tokens: &Vec<MatcherToken>, settings: &MatcherSettings, i: &str) -> (r: Option<(String, Captures)>)
    requires
        well_formed(matcher_tokens_view(tokens@)),
    ensures
        match r {
            Some((rest, caps)) => match match_route(matcher_tokens_view(tokens@), i@, *settings) {
                Some((q, pairs)) => 0 <= q <= i@.len() && rest@ == i@.skip(q) && caps@ == pairs,
                None => false,
            },
            None => match_route(matcher_tokens_view(tokens@), i@, *settings) is None,
        },
{
    match_path_impl(tokens, *settings, i)
}

/// Matches the route string `i` against the tokens; the captures as a list of pairs.
pub fn match_path_list(tokens: &Vec<MatcherToken>, settings: &MatcherSettings, i: &str) -> (r: Option<(String, Vec<(String, String)>)>)
    requires
        well_formed(matcher_tokens_view(tokens@)),
    ensures
        match r {
            Some((rest, caps)) => match match_route(matcher_tokens_view(tokens@), i@, *settings) {
                Some((q, pairs)) => rest@ == i@.skip(q) && pairs_view(caps@) == pairs,
                None => false,
            },
            None => match_route(matcher_tokens_view(tokens@), i@, *settings) is None,
        },
{
    match match_path_impl(tokens, *settings, i) {
        Some((rest, caps)) => Some((rest, caps.entries)),
        None => None,
    }
}

// ---------------------------------------------------------------------------------------
// What captures take
// ---------------------------------------------------------------------------------------

/// A single-section capture takes every character from `p` up to the first of
/// `` */#&?{}=`` (a space among them), or up to the end: in particular a capture at the
/// end of a matcher string takes a whole route section such as `john.doe`.
pub proof fn lemma_section_run_takes_section(s: Seq<char>, p: int, e: int)
    requires
        0 <= p < e <= s.len(),
        forall|k: int| p <= k < e ==> !(#[trigger] s[k] == ' ' || s[k] == '*' || s[k] == '/' || s[k] == '#' || s[k] == '&' || s[k] == '?' || s[k] == '{' || s[k] == '}' || s[k] == '='),
        e == s.len() || s[e] == ' ' || s[e] == '*' || s[e] == '/' || s[e] == '#' || s[e] == '&' || s[e] == '?' || s[e] == '{' || s[e] == '}' || s[e] == '=',
    ensures
        section_run(s, p) == Some(e),
{
    lemma_run_end_at(s, p, e, capture_class());
}

/// A named capture at the end of the tokens, after a literal, records everything that
/// follows the literal when that holds none of `` */#&?{}=``, and the match uses the
/// whole string.
pub proof fn lemma_trailing_named_capture(lit: Seq<char>, n: Seq<char>, w: Seq<char>, settings: MatcherSettings)
    requires
        w.len() > 0,
        forall|k: int| 0 <= k < w.len() ==> !(w[k] == ' ' || w[k] == '*' || w[k] == '/' || w[k] == '#' || w[k] == '&' || w[k] == '?' || w[k] == '{' || w[k] == '}' || w[k] == '='),
    ensures
        match_route(
            seq![MatcherTokenModel::Match(lit), MatcherTokenModel::Capture(CaptureModel::Named(n))],
            lit + w,
            settings,
        ) == Some(((lit + w).len() as int, seq![(n, w)])),
{
    let s = lit + w;
    let ts = seq![MatcherTokenModel::Match(lit), MatcherTokenModel::Capture(CaptureModel::Named(n))];
    let p = lit.len() as int;
    assert(s.subrange(0, p) =~= lit);
    assert forall|k: int| 0 <= k < lit.len() implies chars_eq_no_case(#[trigger] s[0 + k], lit[k]) by {
        assert(s[k] == lit[k]);
    }
    assert(literal_at(s, 0, lit, settings.case_insensitive));
    assert forall|k: int| p <= k < s.len() implies !(s[k] == ' ' || s[k] == '*' || s[k] == '/' || s[k] == '#' || s[k] == '&' || s[k] == '?' || s[k] == '{' || s[k] == '}' || s[k] == '=') by {
        assert(s[k] == w[k - p]);
    }
    lemma_section_run_takes_section(s, p, s.len() as int);
    let rest = ts.drop_first();
    assert(rest =~= seq![MatcherTokenModel::Capture(CaptureModel::Named(n))]);
    assert(rest.drop_first() =~= Seq::<MatcherTokenModel>::empty());
    assert(s.subrange(p, s.len() as int) =~= w);
    assert(seq![(n, w)] + Seq::<(Seq<char>, Seq<char>)>::empty() =~= seq![(n, w)]);
    let nc = settings.case_insensitive;
    assert(capture_end(CaptureModel::Named(n), s, p, rest.drop_first()) == Some(s.len() as int));
    assert(match_tokens(rest.drop_first(), s, s.len() as int, nc) == Some((s.len() as int, Seq::<(Seq<char>, Seq<char>)>::empty())));
    assert(recorded(CaptureModel::Named(n), s, p, s.len() as int) == seq![(n, w)]);
    assert(match_tokens(rest, s, p, nc) == Some((s.len() as int, seq![(n, w)])));
    assert(ts[0] == MatcherTokenModel::Match(lit));
    assert(match_tokens(ts, s, 0, nc) == match_tokens(rest, s, p, nc));
}

/// The number of `/` in `t`.
pub open spec fn slash_count(t: Seq<char>) -> nat
    decreases t.len(),
{
    if t.len() == 0 {
        0
    } else {
        (if t[0] == '/' {
            1nat
        } else {
            0nat
        }) + slash_count(t.drop_first())
    }
}

/// Counting `/` in two pieces one after the other adds up.
proof fn lemma_slash_count_add(a: Seq<char>, b: Seq<char>)
    ensures
        slash_count(a + b) == slash_count(a) + slash_count(b),
    decreases a.len(),
{
    if a.len() == 0 {
        assert(a + b =~= b);
    } else {
        lemma_slash_count_add(a.drop_first(), b);
        assert((a + b).drop_first() =~= a.drop_first() + b);
        assert((a + b)[0] == a[0]);
    }
}

/// Text without `/` has none to count.
proof fn lemma_slash_free(t: Seq<char>)
    requires
        forall|k: int| 0 <= k < t.len() ==> t[k] != '/',
    ensures
        slash_count(t) == 0,
    decreases t.len(),
{
    if t.len() > 0 {
        assert forall|k: int| 0 <= k < t.drop_first().len() implies t.drop_first()[k] != '/' by {
            assert(t.drop_first()[k] == t[k + 1]);
        }
        lemma_slash_free(t.drop_first());
    }
}

/// A capture of `k` sections with nothing after it takes exactly `k` sections: where the
/// text from `p` to `e` is `k` non-empty sections joined by single `/` (so it holds `k - 1`
/// of them), holds none of `` *#&?{}=`` otherwise, and ends at the end or before one of
/// `` */#&?{}=``, the capture ends at `e`.
pub proof fn lemma_numbered_takes_sections(s: Seq<char>, p: int, e: int, k: nat)
    requires
        k >= 1,
        0 <= p < e <= s.len(),
        slash_count(s.subrange(p, e)) == k - 1,
        forall|i: int| p <= i < e ==> !(#[trigger] s[i] == ' ' || s[i] == '*' || s[i] == '#' || s[i] == '&' || s[i] == '?' || s[i] == '{' || s[i] == '}' || s[i] == '='),
        forall|i: int| p <= i < e - 1 ==> !(#[trigger] s[i] == '/' && s[i + 1] == '/'),
        s[p] != '/',
        s[e - 1] != '/',
        e == s.len() || s[e] == ' ' || s[e] == '*' || s[e] == '/' || s[e] == '#' || s[e] == '&' || s[e] == '?' || s[e] == '{' || s[e] == '}' || s[e] == '=',
    ensures
        numbered_end(s, p, k, Seq::empty()) == Some(e),
    decreases k,
{
    let not_slash = |c: char| c != '/';
    lemma_run_end(s, p, not_slash);
    let f = run_end(s, p, not_slash);
    if f >= e {
        assert forall|i: int| 0 <= i < s.subrange(p, e).len() implies s.subrange(p, e)[i] != '/' by {
            assert(s.subrange(p, e)[i] == s[p + i]);
            assert(not_slash(s[p + i]));
        }
        lemma_slash_free(s.subrange(p, e));
        assert forall|i: int| p <= i < e implies !(s[i] == ' ' || s[i] == '*' || s[i] == '/' || s[i] == '#' || s[i] == '&' || s[i] == '?' || s[i] == '{' || s[i] == '}' || s[i] == '=') by {
            assert(not_slash(s[i]));
        }
        lemma_section_run_takes_section(s, p, e);
    } else {
        assert(s[f] == '/');
        assert(f > p);
        assert forall|i: int| p <= i < f implies !(s[i] == ' ' || s[i] == '*' || s[i] == '/' || s[i] == '#' || s[i] == '&' || s[i] == '?' || s[i] == '{' || s[i] == '}' || s[i] == '=') by {
            assert(not_slash(s[i]));
        }
        lemma_section_run_takes_section(s, p, f);
        assert forall|i: int| 0 <= i < s.subrange(p, f).len() implies s.subrange(p, f)[i] != '/' by {
            assert(s.subrange(p, f)[i] == s[p + i]);
            assert(not_slash(s[p + i]));
        }
        lemma_slash_free(s.subrange(p, f));
        let tail = s.subrange(f + 1, e);
        assert(s.subrange(p, e) =~= s.subrange(p, f) + (seq!['/'] + tail));
        lemma_slash_count_add(s.subrange(p, f), seq!['/'] + tail);
        lemma_slash_count_add(seq!['/'], tail);
        assert(seq!['/'].drop_first() =~= Seq::<char>::empty());
        assert(slash_count(Seq::<char>::empty()) == 0);
        assert(seq!['/'][0] == '/');
        assert(slash_count(seq!['/']) == 1);
        assert(f != e - 1);
        assert(k >= 2);
        assert(s[f + 1] != '/');
        lemma_numbered_takes_sections(s, f + 1, e, (k - 1) as nat);
    }
}

/// What a capture of `k` sections with nothing after it takes, wherever it succeeds: `k`
/// sections joined by `/` (so exactly `k - 1` of them), holding none of `` *#&?{}=``,
/// and ending at the end or before one of `` */#&?{}=``.
pub proof fn lemma_numbered_end_shape(s: Seq<char>, p: int, k: nat)
    requires
        k >= 1,
        numbered_end(s, p, k, Seq::empty()) is Some,
    ensures
        p < numbered_end(s, p, k, Seq::empty())->Some_0 <= s.len(),
        slash_count(s.subrange(p, numbered_end(s, p, k, Seq::empty())->Some_0)) == k - 1,
        forall|i: int|
            p <= i < numbered_end(s, p, k, Seq::empty())->Some_0 ==> !(#[trigger] s[i] == ' ' || s[i] == '*' || s[i] == '#' || s[i] == '&' || s[i] == '?' || s[i] == '{' || s[i] == '}' || s[i] == '='),
        ({
            let e = numbered_end(s, p, k, Seq::empty())->Some_0;
            e == s.len() || s[e] == ' ' || s[e] == '*' || s[e] == '/' || s[e] == '#' || s[e] == '&' || s[e] == '?' || s[e] == '{' || s[e] == '}' || s[e] == '='
        }),
    decreases k,
{
    let f = section_run(s, p)->Some_0;
    lemma_run_end(s, p, capture_class());
    assert forall|i: int| 0 <= i < s.subrange(p, f).len() implies s.subrange(p, f)[i] != '/' by {
        assert(s.subrange(p, f)[i] == s[p + i]);
        assert(is_capture_char(s[p + i]));
    }
    lemma_slash_free(s.subrange(p, f));
    if k > 1 {
        lemma_numbered_end_shape(s, f + 1, (k - 1) as nat);
        let e = numbered_end(s, p, k, Seq::empty())->Some_0;
        let tail = s.subrange(f + 1, e);
        assert(s.subrange(p, e) =~= s.subrange(p, f) + (seq!['/'] + tail));
        lemma_slash_count_add(s.subrange(p, f), seq!['/'] + tail);
        lemma_slash_count_add(seq!['/'], tail);
        assert(seq!['/'].drop_first() =~= Seq::<char>::empty());
        assert(slash_count(Seq::<char>::empty()) == 0);
        assert(seq!['/'][0] == '/');
        assert(slash_count(seq!['/']) == 1);
        assert forall|i: int| p <= i < e implies !(s[i] == ' ' || s[i] == '*' || s[i] == '#' || s[i] == '&' || s[i] == '?' || s[i] == '{' || s[i] == '}' || s[i] == '=') by {
            if i < f {
                assert(is_capture_char(s[i]));
            }
        }
    }
}

} // verus!
