//! A parsed matcher string, ready to match route strings.
use vstd::prelude::*;
use crate::grammar::{parse_spec, section_counts_fit};
use crate::flat_matcher::find_from;
use crate::matcher::{
    after_captures, capture_key, first_stop, keys_of, lemma_keys_of_add, lemma_keys_of_one, pairs_view, section_run,
    section_run_exec, well_formed, Captures,
};
use crate::optimizer::{
    lemma_matcher_tokens_view_index, matcher_token_view, matcher_tokens_view, optimized,
    parse_str_and_optimize_tokens, MatcherToken, MatcherTokenModel,
};
use crate::text::{
    append_str, chars_of, lemma_run_end, lemma_run_end_at, occurs_at, occurs_at_exec, run_end, string_of_range,
};
use crate::token::{CaptureModel, CaptureVariant};

verus! {

/// Matches route strings against the condensed tokens of a matcher string.
#[derive(Debug, PartialEq, Eq)]
pub struct PathMatcher {
    /// The condensed tokens.
    pub tokens: Vec<MatcherToken>,
}

/// The names under which tokens record captures, also inside optional sections.
pub open spec fn names_in(ts: Seq<MatcherTokenModel>) -> Set<Seq<char>>
    decreases ts,
{
    if ts.len() == 0 {
        Set::empty()
    } else {
        let here = match ts[0] {
            MatcherTokenModel::Capture(v) => match capture_key(v) {
                Some(n) => set![n],
                None => Set::empty(),
            },
            MatcherTokenModel::Optional(inner) => names_in(inner),
            MatcherTokenModel::Match(_) => Set::empty(),
        };
        here + names_in(ts.drop_first())
    }
}

/// The models of a list of strings.
pub open spec fn strings_view(v: Seq<String>) -> Seq<Seq<char>> {
    v.map_values(|s: String| s@)
}

/// Adds `name` to `acc` unless it is there already.
pub(crate) fn add_name(acc: &mut Vec<String>, name: &String)
    requires
        strings_view(old(acc)@).no_duplicates(),
    ensures
        strings_view(final(acc)@).no_duplicates(),
        strings_view(final(acc)@).to_set() == strings_view(old(acc)@).to_set().insert(name@),
{
    let ghost before = strings_view(acc@);
    let mut i: usize = 0;
    while i < acc.len()
        invariant
            i <= acc@.len(),
            strings_view(acc@) == before,
            before.no_duplicates(),
            forall|j: int| 0 <= j < i ==> before[j] != name@,
        decreases acc@.len() - i,
    {
        if acc[i] == *name {
            assert(before[i as int] == name@);
            assert(before.to_set() =~= before.to_set().insert(name@));
            return;
        }
        i = i + 1;
    }
    acc.push(name.clone());
    assert(strings_view(acc@) =~= before.push(name@));
    assert forall|x: Seq<char>| #[trigger] before.push(name@).contains(x) == (before.contains(x) || x == name@) by {
        let p = before.push(name@);
        if before.contains(x) {
            let j = choose|j: int| 0 <= j < before.len() && before[j] == x;
            assert(p[j] == x);
        }
        if x == name@ {
            assert(p[before.len() as int] == x);
        }
        if p.contains(x) {
            let j = choose|j: int| 0 <= j < p.len() && p[j] == x;
            if j < before.len() {
                assert(before[j] == x);
            }
        }
    }
    assert(before.push(name@).to_set() =~= before.to_set().insert(name@));
    assert forall|j: int, k: int| 0 <= j < k < strings_view(acc@).len() implies strings_view(acc@)[j]
        != strings_view(acc@)[k] by {
        if k == before.len() {
            assert(before[j] != name@);
        }
    }
}

/// Adds the capture names of `ts` to `acc`.
fn collect_names(ts: &Vec<MatcherToken>, acc: &mut Vec<String>)
    requires
        strings_view(old(acc)@).no_duplicates(),
    ensures
        strings_view(final(acc)@).no_duplicates(),
        strings_view(final(acc)@).to_set() == strings_view(old(acc)@).to_set() + names_in(matcher_tokens_view(ts@)),
    decreases ts,
{
    let ghost m = matcher_tokens_view(ts@);
    let ghost start = strings_view(acc@).to_set();
    proof { crate::optimizer::lemma_matcher_tokens_view_index(ts@); }
    let mut i: usize = 0;
    assert(m.skip(0) =~= m);
    assert(start + names_in(m) =~= start + names_in(m.skip(0)));
    while i < ts.len()
        invariant
            m == matcher_tokens_view(ts@),
            m.len() == ts@.len(),
            forall|k: int| 0 <= k < ts@.len() ==> #[trigger] m[k] == crate::optimizer::matcher_token_view(ts@[k]),
            i <= ts@.len(),
            strings_view(acc@).no_duplicates(),
            strings_view(acc@).to_set() + names_in(m.skip(i as int)) == start + names_in(m),
        decreases ts@.len() - i,
    {
        let ghost cur = strings_view(acc@).to_set();
        assert(m.skip(i as int).drop_first() =~= m.skip(i + 1));
        assert(m.skip(i as int)[0] == m[i as int]);
        match &ts[i] {
            MatcherToken::Capture(v) => {
                match v {
                    CaptureVariant::Named(n) => add_name(acc, n),
                    CaptureVariant::ManyNamed(n) => add_name(acc, n),
                    CaptureVariant::NumberedNamed { name, .. } => add_name(acc, name),
                    _ => {},
                }
            },
            MatcherToken::Optional(inner) => {
                collect_names(inner, acc);
            },
            MatcherToken::Match(_) => {},
        }
        assert(strings_view(acc@).to_set() + names_in(m.skip(i + 1)) =~= cur + names_in(m.skip(i as int)));
        i = i + 1;
    }
    assert(m.skip(i as int) =~= Seq::<MatcherTokenModel>::empty());
    assert(strings_view(acc@).to_set() + Set::<Seq<char>>::empty() =~= strings_view(acc@).to_set());
}

// ---------------------------------------------------------------------------------------
// Section matching
// ---------------------------------------------------------------------------------------

/// Characters that a capture over several sections may consume at the end: anything but
/// ` #&?{}=`.
pub open spec fn is_many_section_char(c: char) -> bool {
    !(c == ' ' || c == '#' || c == '&' || c == '?' || c == '{' || c == '}' || c == '=')
}

/// [`is_many_section_char`] as a predicate.
pub open spec fn many_section_class() -> spec_fn(char) -> bool {
    |c: char| is_many_section_char(c)
}

/// Tokens in which every capture that is followed by another token is followed by a
/// literal, also inside optional sections.
pub open spec fn in_sequence(ts: Seq<MatcherTokenModel>) -> bool
    decreases ts,
{
    if ts.len() == 0 {
        true
    } else {
        &&& (ts[0] is Capture && ts.len() > 1 ==> ts[1] is Match)
        &&& match ts[0] {
            MatcherTokenModel::Optional(inner) => in_sequence(inner),
            _ => true,
        }
        &&& in_sequence(ts.drop_first())
    }
}

/// The literal that comes next: the first of `rest`.
pub open spec fn next_lit(rest: Seq<MatcherTokenModel>) -> Seq<char> {
    rest[0]->Match_0
}

/// A section's worth of capture characters from `p`, directly followed by `d`.
pub open spec fn section_before(s: Seq<char>, p: int, d: Seq<char>) -> Option<int> {
    match section_run(s, p) {
        Some(e) => if occurs_at(s, e, d) {
            Some(e)
        } else {
            None
        },
        None => None,
    }
}

/// A non-empty run of characters that a capture over several sections may consume.
pub open spec fn many_run(s: Seq<char>, p: int) -> Option<int> {
    let e = run_end(s, p, many_section_class());
    if 0 <= p && e > p {
        Some(e)
    } else {
        None
    }
}

/// A capture of `k` sections from `p`: where it ends and the text it records. All but the
/// last section are followed by `/`, which is consumed (and kept in the text when a token
/// follows); the last ends before the next literal, or (when nothing follows) after one
/// section's worth of characters.
pub open spec fn numbered_sections(s: Seq<char>, p: int, k: nat, rest: Seq<MatcherTokenModel>) -> Option<(int, Seq<char>)>
    decreases k,
{
    if k == 0 {
        Some((p, Seq::empty()))
    } else if k > 1 {
        match section_run(s, p) {
            Some(e) => if e < s.len() && s[e] == '/' {
                match numbered_sections(s, e + 1, (k - 1) as nat, rest) {
                    Some((f, c)) => Some(
                        (f, s.subrange(p, e) + (if rest.len() > 0 { seq!['/'] } else { Seq::empty() }) + c),
                    ),
                    None => None,
                }
            } else {
                None
            },
            None => None,
        }
    } else if rest.len() > 0 {
        match section_before(s, p, next_lit(rest)) {
            Some(e) => Some((e, s.subrange(p, e))),
            None => None,
        }
    } else {
        match section_run(s, p) {
            Some(e) => Some((e, s.subrange(p, e))),
            None => None,
        }
    }
}

/// Where a single-section capture from `p` ends: before the next literal, or after a
/// section's worth of characters when nothing follows.
pub open spec fn single_end(s: Seq<char>, p: int, rest: Seq<MatcherTokenModel>) -> Option<int> {
    if rest.len() > 0 {
        section_before(s, p, next_lit(rest))
    } else {
        section_run(s, p)
    }
}

/// Where a capture over several sections from `p` ends: where the next literal first
/// occurs; when nothing follows, at the end if nothing is left, else after a run of
/// characters it may consume.
pub open spec fn many_end(s: Seq<char>, p: int, rest: Seq<MatcherTokenModel>) -> Option<int> {
    if rest.len() > 0 {
        first_stop(s, p, seq![next_lit(rest)], false)
    } else if p == s.len() {
        Some(p)
    } else {
        many_run(s, p)
    }
}

/// What a capture of kind `v` from `p` does, with `rest` after it: where it ends and the
/// pairs it records. An unnamed single-section capture with nothing after it also takes
/// nothing at the end, or a lone `/`.
pub open spec fn section_capture(v: CaptureModel, s: Seq<char>, p: int, rest: Seq<MatcherTokenModel>) -> Option<(int, Seq<(Seq<char>, Seq<char>)>)> {
    match v {
        CaptureModel::Unnamed => {
            let e = if rest.len() > 0 {
                section_before(s, p, next_lit(rest))
            } else if p == s.len() {
                Some(p)
            } else if p == s.len() - 1 && s[p] == '/' {
                Some(s.len() as int)
            } else {
                section_run(s, p)
            };
            match e {
                Some(e) => Some((e, Seq::empty())),
                None => None,
            }
        },
        CaptureModel::Named(n) => match single_end(s, p, rest) {
            Some(e) => Some((e, seq![(n, s.subrange(p, e))])),
            None => None,
        },
        CaptureModel::ManyUnnamed => match many_end(s, p, rest) {
            Some(e) => Some((e, Seq::empty())),
            None => None,
        },
        CaptureModel::ManyNamed(n) => match many_end(s, p, rest) {
            Some(e) => Some((e, seq![(n, s.subrange(p, e))])),
            None => None,
        },
        CaptureModel::NumberedUnnamed(k) => match numbered_sections(s, p, k, rest) {
            Some((e, _)) => Some((e, Seq::empty())),
            None => None,
        },
        CaptureModel::NumberedNamed(k, n) => match numbered_sections(s, p, k, rest) {
            Some((e, c)) => Some((e, seq![(n, c)])),
            None => None,
        },
    }
}

/// Matches tokens against `s` from `p`, in order: literals must appear exactly; an
/// optional section is matched where it can be and passed over otherwise; captures act as
/// [`section_capture`] says. Yields the position reached and the recorded pairs.
pub open spec fn section_match(ts: Seq<MatcherTokenModel>, s: Seq<char>, p: int) -> Option<(int, Seq<(Seq<char>, Seq<char>)>)>
    decreases ts,
{
    if ts.len() == 0 {
        Some((p, Seq::empty()))
    } else {
        let rest = ts.drop_first();
        match ts[0] {
            MatcherTokenModel::Match(lit) => if occurs_at(s, p, lit) {
                section_match(rest, s, p + lit.len())
            } else {
                None
            },
            MatcherTokenModel::Optional(inner) => match section_match(inner, s, p) {
                Some((q, caps)) => after_captures(caps, section_match(rest, s, q)),
                None => section_match(rest, s, p),
            },
            MatcherTokenModel::Capture(v) => match section_capture(v, s, p, rest) {
                Some((e, rec)) => after_captures(rec, section_match(rest, s, e)),
                None => None,
            },
        }
    }
}

/// The end of the run of characters a capture over several sections may consume.
fn many_run_end(s: &Vec<char>, p: usize) -> (e: usize)
    requires
        p <= s@.len(),
    ensures
        e as int == run_end(s@, p as int, many_section_class()),
        p <= e <= s@.len(),
{
    proof { lemma_run_end(s@, p as int, many_section_class()); }
    let mut i = p;
    while i < s.len() && !(s[i] == ' ' || s[i] == '#' || s[i] == '&' || s[i] == '?' || s[i] == '{'
        || s[i] == '}' || s[i] == '=')
        invariant
            p <= i <= s@.len(),
            run_end(s@, i as int, many_section_class()) == run_end(s@, p as int, many_section_class()),
        decreases s@.len() - i,
    {
        i = i + 1;
    }
    i
}

/// A section's worth of capture characters from `p`, followed by `d`.
fn section_before_exec(s: &Vec<char>, p: usize, d: &Vec<char>) -> (r: Option<usize>)
    requires
        p <= s@.len(),
    ensures
        match r {
            Some(e) => section_before(s@, p as int, d@) == Some(e as int) && p < e <= s@.len(),
            None => section_before(s@, p as int, d@) is None,
        },
{
    match section_run_exec(s, p) {
        Some(e) => if occurs_at_exec(s, e, d) {
            Some(e)
        } else {
            None
        },
        None => None,
    }
}

/// Where a capture of `k` sections ends and the text it records; see [`numbered_sections`].
fn numbered_sections_exec(
    s: &Vec<char>,
    p: usize,
    k: usize,
    lit: Option<&Vec<char>>,
    Ghost(rest): Ghost<Seq<MatcherTokenModel>>,
) -> (r: Option<(usize, String)>)
    requires
        p <= s@.len(),
        lit is Some <==> rest.len() > 0,
        lit matches Some(l) ==> l@ == next_lit(rest),
    ensures
        match r {
            Some((e, c)) => numbered_sections(s@, p as int, k as nat, rest) == Some((e as int, c@)) && p <= e
                <= s@.len(),
            None => numbered_sections(s@, p as int, k as nat, rest) is None,
        },
    decreases k,
{
    if k == 0 {
        return Some((p, String::new()));
    }
    if k > 1 {
        match section_run_exec(s, p) {
            Some(e) => {
                if e < s.len() && s[e] == '/' {
                    match numbered_sections_exec(s, e + 1, k - 1, lit, Ghost(rest)) {
                        Some((f, c)) => {
                            let mut t = string_of_range(s, p, e);
                            if lit.is_some() {
                                t.push('/');
                            }
                            append_str(&mut t, c.as_str());
                            assert(t@ =~= s@.subrange(p as int, e as int) + (if rest.len() > 0 {
                                seq!['/']
                            } else {
                                Seq::empty()
                            }) + c@);
                            Some((f, t))
                        },
                        None => None,
                    }
                } else {
                    None
                }
            },
            None => None,
        }
    } else {
        let end = match lit {
            Some(l) => section_before_exec(s, p, l),
            None => section_run_exec(s, p),
        };
        match end {
            Some(e) => Some((e, string_of_range(s, p, e))),
            None => None,
        }
    }
}

/// What a capture does at `p`; see [`section_capture`].
fn section_capture_exec(
    v: &CaptureVariant,
    s: &Vec<char>,
    p: usize,
    lit: Option<&Vec<char>>,
    Ghost(rest): Ghost<Seq<MatcherTokenModel>>,
) -> (r: Option<(usize, Vec<(String, String)>)>)
    requires
        p <= s@.len(),
        lit is Some <==> rest.len() > 0,
        lit matches Some(l) ==> l@ == next_lit(rest),
    ensures
        match r {
            Some((e, rec)) => section_capture(v@, s@, p as int, rest) == Some((e as int, pairs_view(rec@))) && p
                <= e <= s@.len(),
            None => section_capture(v@, s@, p as int, rest) is None,
        },
{
    let mut rec: Vec<(String, String)> = Vec::new();
    assert(pairs_view(rec@) =~= Seq::<(Seq<char>, Seq<char>)>::empty());
    match v {
        CaptureVariant::Unnamed => {
            let e = match lit {
                Some(l) => section_before_exec(s, p, l),
                None => if p == s.len() {
                    Some(p)
                } else if p == s.len() - 1 && s[p] == '/' {
                    Some(s.len())
                } else {
                    section_run_exec(s, p)
                },
            };
            match e {
                Some(e) => Some((e, rec)),
                None => None,
            }
        },
        CaptureVariant::Named(n) => {
            let e = match lit {
                Some(l) => section_before_exec(s, p, l),
                None => section_run_exec(s, p),
            };
            match e {
                Some(e) => {
                    rec.push((n.clone(), string_of_range(s, p, e)));
                    assert(pairs_view(rec@) =~= seq![(n@, s@.subrange(p as int, e as int))]);
                    Some((e, rec))
                },
                None => None,
            }
        },
        CaptureVariant::ManyUnnamed | CaptureVariant::ManyNamed(_) => {
            let e = match lit {
                Some(l) => {
                    let lc = l.clone();
                    assert(lc@ == l@);
                    find_from(s, p, lc)
                },
                None => if p == s.len() {
                    Some(p)
                } else {
                    let f = many_run_end(s, p);
                    if f > p {
                        Some(f)
                    } else {
                        None
                    }
                },
            };
            match e {
                Some(e) => {
                    if let CaptureVariant::ManyNamed(n) = v {
                        rec.push((n.clone(), string_of_range(s, p, e)));
                        assert(pairs_view(rec@) =~= seq![(n@, s@.subrange(p as int, e as int))]);
                    }
                    Some((e, rec))
                },
                None => None,
            }
        },
        CaptureVariant::NumberedUnnamed { sections } => {
            match numbered_sections_exec(s, p, *sections, lit, Ghost(rest)) {
                Some((e, _)) => Some((e, rec)),
                None => None,
            }
        },
        CaptureVariant::NumberedNamed { sections, name } => {
            match numbered_sections_exec(s, p, *sections, lit, Ghost(rest)) {
                Some((e, c)) => {
                    rec.push((name.clone(), c));
                    Some((e, rec))
                },
                None => None,
            }
        },
    }
}

/// Matches `ts` against `s` from `p`; see [`section_match`].
fn section_match_exec(ts: &Vec<MatcherToken>, s: &Vec<char>, p: usize) -> (r: Option<(usize, Vec<(String, String)>)>)
    requires
        p <= s@.len(),
        in_sequence(matcher_tokens_view(ts@)),
    ensures
        match r {
            Some((q, caps)) => section_match(matcher_tokens_view(ts@), s@, p as int) == Some(
                (q as int, pairs_view(caps@)),
            ) && p <= q <= s@.len(),
            None => section_match(matcher_tokens_view(ts@), s@, p as int) is None,
        },
    decreases ts,
{
    let ghost m = matcher_tokens_view(ts@);
    proof { lemma_matcher_tokens_view_index(ts@); }
    let mut caps: Vec<(String, String)> = Vec::new();
    let mut pos = p;
    let mut i: usize = 0;
    assert(m.skip(0) =~= m);
    assert(pairs_view(caps@) =~= Seq::<(Seq<char>, Seq<char>)>::empty());
    proof { lemma_after_captures_nothing(section_match(m, s@, p as int)); }
    while i < ts.len()
        invariant
            m == matcher_tokens_view(ts@),
            m.len() == ts@.len(),
            forall|k: int| 0 <= k < ts@.len() ==> #[trigger] m[k] == matcher_token_view(ts@[k]),
            i <= ts@.len(),
            p <= pos <= s@.len(),
            in_sequence(m.skip(i as int)),
            section_match(m, s@, p as int) == after_captures(pairs_view(caps@), section_match(m.skip(i as int), s@, pos as int)),
        decreases ts@.len() - i,
    {
        let ghost rest = m.skip(i as int);
        let ghost old_caps = pairs_view(caps@);
        assert(rest[0] == m[i as int]);
        assert(rest.drop_first() =~= m.skip(i + 1));
        let n = ts.len();
        match &ts[i] {
            MatcherToken::Match(lit) => {
                let l = chars_of(lit.as_str());
                if occurs_at_exec(s, pos, &l) {
                    assert(pos + l@.len() <= s@.len() && s@.len() == s.len() && l@.len() == l.len());
                    pos = pos + l.len();
                } else {
                    return None;
                }
            },
            MatcherToken::Optional(inner) => {
                match section_match_exec(inner, s, pos) {
                    Some((q, more)) => {
                        let ghost mv = pairs_view(more@);
                        let mut more = more;
                        caps.append(&mut more);
                        assert(pairs_view(caps@) =~= old_caps + mv);
                        proof { lemma_after_captures_merge(old_caps, mv, section_match(m.skip(i + 1), s@, q as int)); }
                        pos = q;
                    },
                    None => {},
                }
            },
            MatcherToken::Capture(v) => {
                let next: Option<Vec<char>> = if i + 1 < n {
                    assert(rest[1] == m[i + 1]);
                    match &ts[i + 1] {
                        MatcherToken::Match(d) => Some(chars_of(d.as_str())),
                        _ => {
                            assert(false);
                            None
                        },
                    }
                } else {
                    None
                };
                let lit = match &next {
                    Some(l) => Some(l),
                    None => None,
                };
                match section_capture_exec(v, s, pos, lit, Ghost(rest.drop_first())) {
                    Some((e, rec)) => {
                        let ghost rv = pairs_view(rec@);
                        let mut rec = rec;
                        caps.append(&mut rec);
                        assert(pairs_view(caps@) =~= old_caps + rv);
                        proof { lemma_after_captures_merge(old_caps, rv, section_match(m.skip(i + 1), s@, e as int)); }
                        pos = e;
                    },
                    None => {
                        return None;
                    },
                }
            },
        }
        i = i + 1;
    }
    assert(m.skip(i as int).len() == 0);
    assert(pairs_view(caps@) + Seq::<(Seq<char>, Seq<char>)>::empty() =~= pairs_view(caps@));
    Some((pos, caps))
}

/// Recording `a` and then `b` in front of a result records `a + b`.
proof fn lemma_after_captures_merge(
    a: Seq<(Seq<char>, Seq<char>)>,
    b: Seq<(Seq<char>, Seq<char>)>,
    r: Option<(int, Seq<(Seq<char>, Seq<char>)>)>,
)
    ensures
        after_captures(a, after_captures(b, r)) == after_captures(a + b, r),
{
    match r {
        Some((q, more)) => {
            assert(a + (b + more) =~= (a + b) + more);
        },
        None => {},
    }
}

/// Nothing recorded in front leaves a result as it is.
proof fn lemma_after_captures_nothing(r: Option<(int, Seq<(Seq<char>, Seq<char>)>)>)
    ensures
        after_captures(Seq::empty(), r) == r,
{
    match r {
        Some((q, more)) => {
            assert(Seq::<(Seq<char>, Seq<char>)>::empty() + more =~= more);
        },
        None => {},
    }
}

/// Whether tokens are in sequence; see [`in_sequence`].
fn tokens_in_sequence(ts: &Vec<MatcherToken>) -> (r: bool)
    ensures
        r == in_sequence(matcher_tokens_view(ts@)),
    decreases ts,
{
    let ghost m = matcher_tokens_view(ts@);
    proof { lemma_matcher_tokens_view_index(ts@); }
    let mut i: usize = 0;
    assert(m.skip(0) =~= m);
    while i < ts.len()
        invariant
            m == matcher_tokens_view(ts@),
            m.len() == ts@.len(),
            forall|k: int| 0 <= k < ts@.len() ==> #[trigger] m[k] == matcher_token_view(ts@[k]),
            i <= ts@.len(),
            in_sequence(m) == in_sequence(m.skip(i as int)),
        decreases ts@.len() - i,
    {
        let ghost rest = m.skip(i as int);
        assert(rest[0] == m[i as int]);
        assert(rest.drop_first() =~= m.skip(i + 1));
        let n = ts.len();
        match &ts[i] {
            MatcherToken::Capture(_) => {
                if i + 1 < n {
                    assert(rest[1] == m[i + 1]);
                    match &ts[i + 1] {
                        MatcherToken::Match(_) => {},
                        _ => {
                            return false;
                        },
                    }
                }
            },
            MatcherToken::Optional(inner) => {
                if !tokens_in_sequence(inner) {
                    return false;
                }
            },
            MatcherToken::Match(_) => {},
        }
        i = i + 1;
    }
    assert(m.skip(i as int).len() == 0);
    true
}

/// No optional sections among the tokens.
pub open spec fn no_optional(ts: Seq<MatcherTokenModel>) -> bool {
    forall|k: int| 0 <= k < ts.len() ==> !(#[trigger] ts[k] is Optional)
}

/// The keys that one capture records are its name, where it has one.
proof fn lemma_capture_keys(v: CaptureModel, s: Seq<char>, p: int, rest: Seq<MatcherTokenModel>)
    requires
        section_capture(v, s, p, rest) is Some,
    ensures
        keys_of(section_capture(v, s, p, rest)->Some_0.1) == match capture_key(v) {
            Some(n) => set![n],
            None => Set::<Seq<char>>::empty(),
        },
{
    let rec = section_capture(v, s, p, rest)->Some_0.1;
    match capture_key(v) {
        Some(n) => {
            assert(rec =~= seq![(n, rec[0].1)]);
            lemma_keys_of_one(n, rec[0].1);
        },
        None => {
            assert(keys_of(rec) =~= Set::<Seq<char>>::empty());
        },
    }
}

/// A successful match records only names of the tokens, and, without optional sections,
/// every one of them.
proof fn lemma_section_keys(ts: Seq<MatcherTokenModel>, s: Seq<char>, p: int)
    requires
        section_match(ts, s, p) is Some,
    ensures
        keys_of(section_match(ts, s, p)->Some_0.1).subset_of(names_in(ts)),
        no_optional(ts) ==> keys_of(section_match(ts, s, p)->Some_0.1) == names_in(ts),
    decreases ts,
{
    if ts.len() == 0 {
        assert(keys_of(Seq::<(Seq<char>, Seq<char>)>::empty()) =~= Set::<Seq<char>>::empty());
        assert(names_in(ts) =~= Set::<Seq<char>>::empty());
    } else {
        let rest = ts.drop_first();
        assert(no_optional(ts) ==> no_optional(rest)) by {
            if no_optional(ts) {
                assert forall|k: int| 0 <= k < rest.len() implies !(#[trigger] rest[k] is Optional) by {
                    assert(rest[k] == ts[k + 1]);
                }
            }
        }
        match ts[0] {
            MatcherTokenModel::Match(lit) => {
                lemma_section_keys(rest, s, p + lit.len());
                assert(names_in(ts) =~= names_in(rest));
            },
            MatcherTokenModel::Optional(inner) => {
                assert(!no_optional(ts));
                match section_match(inner, s, p) {
                    Some((q, caps)) => {
                        lemma_section_keys(inner, s, p);
                        lemma_section_keys(rest, s, q);
                        let more = section_match(rest, s, q)->Some_0.1;
                        lemma_keys_of_add(caps, more);
                    },
                    None => {
                        lemma_section_keys(rest, s, p);
                    },
                }
            },
            MatcherTokenModel::Capture(v) => {
                let (e, rec) = section_capture(v, s, p, rest)->Some_0;
                lemma_capture_keys(v, s, p, rest);
                lemma_section_keys(rest, s, e);
                let more = section_match(rest, s, e)->Some_0.1;
                lemma_keys_of_add(rec, more);
            },
        }
    }
}

/// Every successful [`PathMatcher::match_path`] records values only under names that
/// [`PathMatcher::capture_names`] gives; where the tokens hold no optional section, under
/// every one of them.
pub proof fn lemma_capture_names_are_match_keys(m: PathMatcher, i: Seq<char>)
    requires
        section_match(matcher_tokens_view(m.tokens@), i, 0) is Some,
    ensures
        keys_of(section_match(matcher_tokens_view(m.tokens@), i, 0)->Some_0.1).subset_of(
            names_in(matcher_tokens_view(m.tokens@)),
        ),
        no_optional(matcher_tokens_view(m.tokens@)) ==> keys_of(
            section_match(matcher_tokens_view(m.tokens@), i, 0)->Some_0.1,
        ) == names_in(matcher_tokens_view(m.tokens@)),
{
    lemma_section_keys(matcher_tokens_view(m.tokens@), i, 0);
}

impl PathMatcher {
    /// Parses a matcher string into a path matcher; `Err` where it does not parse.
    pub fn try_from(i: &str) -> (r: Result<PathMatcher, ()>)
        requires
            section_counts_fit(i@),
        ensures
            match r {
                Ok(pm) => parse_spec(i@) is Ok && matcher_tokens_view(pm.tokens@) == optimized(
                    parse_spec(i@)->Ok_0,
                ) && well_formed(matcher_tokens_view(pm.tokens@)),
                Err(_) => parse_spec(i@) is Err,
            },
    {
        match parse_str_and_optimize_tokens(i) {
            Ok(tokens) => Ok(PathMatcher { tokens }),
            Err(_) => Err(()),
        }
    }

    /// Whether every capture followed by another token is followed by a literal, as
    /// [`PathMatcher::match_path`] needs.
    pub fn in_sequence(&self) -> (r: bool)
        ensures
            r == in_sequence(matcher_tokens_view(self.tokens@)),
    {
        tokens_in_sequence(&self.tokens)
    }

    /// Matches the route string `i` from its start; see [`section_match`]. Yields the
    /// unmatched rest of `i` and the captures.
    pub fn match_path(&self, i: &str) -> (r: Option<(String, Captures)>)
        requires
            in_sequence(matcher_tokens_view(self.tokens@)),
        ensures
            match r {
                Some((rest, caps)) => match section_match(matcher_tokens_view(self.tokens@), i@, 0) {
                    Some((q, pairs)) => rest@ == i@.skip(q) && caps@ == pairs,
                    None => false,
                },
                None => section_match(matcher_tokens_view(self.tokens@), i@, 0) is None,
            },
    {
        let s = chars_of(i);
        match section_match_exec(&self.tokens, &s, 0) {
            Some((q, pairs)) => {
                let rest = string_of_range(&s, q, s.len());
                assert(rest@ =~= i@.skip(q as int));
                Some((rest, Captures { entries: pairs }))
            },
            None => None,
        }
    }

    /// The names of all captures that matching can record, each once.
    pub fn capture_names(&self) -> (r: Vec<String>)
        ensures
            strings_view(r@).no_duplicates(),
            strings_view(r@).to_set() == names_in(matcher_tokens_view(self.tokens@)),
    {
        let mut acc: Vec<String> = Vec::new();
        assert(strings_view(acc@) =~= Seq::<Seq<char>>::empty());
        collect_names(&self.tokens, &mut acc);
        assert(strings_view(Seq::<String>::empty()).to_set() + names_in(matcher_tokens_view(self.tokens@))
            =~= names_in(matcher_tokens_view(self.tokens@)));
        acc
    }
}

/// A capture over several sections takes every character from `p` up to the first of
/// `` #&?{}=`` (a space among them), or up to the end; `/` does not stop it.
pub proof fn lemma_many_run_takes_sections(s: Seq<char>, p: int, e: int)
    requires
        0 <= p < e <= s.len(),
        forall|k: int| p <= k < e ==> !(#[trigger] s[k] == ' ' || s[k] == '#' || s[k] == '&' || s[k] == '?' || s[k] == '{' || s[k] == '}' || s[k] == '='),
        e == s.len() || s[e] == ' ' || s[e] == '#' || s[e] == '&' || s[e] == '?' || s[e] == '{' || s[e] == '}' || s[e] == '=',
    ensures
        many_run(s, p) == Some(e),
{
    lemma_run_end_at(s, p, e, many_section_class());
}

/// A named capture over several sections at the end of the tokens, after a literal,
/// records everything that follows the literal when that holds none of `` #&?{}=``, and
/// the match uses the whole string.
pub proof fn lemma_trailing_many_capture(lit: Seq<char>, n: Seq<char>, w: Seq<char>)
    requires
        w.len() > 0,
        forall|k: int| 0 <= k < w.len() ==> !(w[k] == ' ' || w[k] == '#' || w[k] == '&' || w[k] == '?' || w[k] == '{' || w[k] == '}' || w[k] == '='),
    ensures
        section_match(
            seq![MatcherTokenModel::Match(lit), MatcherTokenModel::Capture(CaptureModel::ManyNamed(n))],
            lit + w,
            0,
        ) == Some(((lit + w).len() as int, seq![(n, w)])),
{
    let s = lit + w;
    let ts = seq![MatcherTokenModel::Match(lit), MatcherTokenModel::Capture(CaptureModel::ManyNamed(n))];
    let p = lit.len() as int;
    assert(s.subrange(0, p) =~= lit);
    assert forall|k: int| p <= k < s.len() implies !(s[k] == ' ' || s[k] == '#' || s[k] == '&' || s[k] == '?' || s[k] == '{' || s[k] == '}' || s[k] == '=') by {
        assert(s[k] == w[k - p]);
    }
    lemma_many_run_takes_sections(s, p, s.len() as int);
    let rest = ts.drop_first();
    assert(rest =~= seq![MatcherTokenModel::Capture(CaptureModel::ManyNamed(n))]);
    assert(rest.drop_first() =~= Seq::<MatcherTokenModel>::empty());
    assert(s.subrange(p, s.len() as int) =~= w);
    assert(section_capture(CaptureModel::ManyNamed(n), s, p, rest.drop_first()) == Some((s.len() as int, seq![(n, w)])));
    assert(section_match(rest.drop_first(), s, s.len() as int) == Some((s.len() as int, Seq::<(Seq<char>, Seq<char>)>::empty())));
    assert(seq![(n, w)] + Seq::<(Seq<char>, Seq<char>)>::empty() =~= seq![(n, w)]);
    assert(section_match(rest, s, p) == Some((s.len() as int, seq![(n, w)])));
    assert(ts[0] == MatcherTokenModel::Match(lit));
}

} // verus!
