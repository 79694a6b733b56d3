//! Conversions between `str`/`String` and sequences of characters.
use vstd::prelude::*;
use vstd::std_specs::iter::IteratorSpec;

verus! {

/// `String::push` appends one character.
pub assume_specification[ String::push ](s: &mut String, ch: char)
    ensures
        final(s)@ == old(s)@.push(ch),
;

/// The characters of a string slice, in order.
pub fn chars_of(s: &str) -> (r: Vec<char>)
    ensures
        r@ == s@,
{
    broadcast use vstd::string::group_string_axioms;
    let mut r: Vec<char> = Vec::new();
    let mut it = s.chars();
    let ghost all = s@;
    assert(all.skip(0) =~= all);
    loop
        invariant
            it.remaining() == all.skip(r@.len() as int),
            r@ == all.take(r@.len() as int),
            r@.len() <= all.len(),
            it.obeys_prophetic_iter_laws(),
        ensures
            r@ == all,
        decreases all.len() - r@.len(),
    {
        match it.next() {
            Some(c) => {
                proof {
                    assert(all.skip(r@.len() as int).drop_first() =~= all.skip(r@.len() + 1int));
                }
                r.push(c);
                assert(r@ =~= all.take(r@.len() as int));
            },
            None => {
                assert(r@ =~= all);
                break;
            },
        }
    }
    r
}

/// A `String` holding exactly the given characters.
pub fn string_of(v: &[char]) -> (r: String)
    ensures
        r@ == v@,
{
    let mut r = String::new();
    let mut i: usize = 0;
    while i < v.len()
        invariant
            i <= v@.len(),
            r@ == v@.take(i as int),
        decreases v@.len() - i,
    {
        r.push(v[i]);
        i = i + 1;
    }
    r
}

/// A `String` holding the characters of `v` from `start` (inclusive) to `end` (exclusive).
pub fn string_of_range(v: &Vec<char>, start: usize, end: usize) -> (r: String)
    requires
        start <= end <= v@.len(),
    ensures
        r@ == v@.subrange(start as int, end as int),
{
    let mut r = String::new();
    let mut i: usize = start;
    while i < end
        invariant
            start <= i <= end <= v@.len(),
            r@ == v@.subrange(start as int, i as int),
        decreases end - i,
    {
        r.push(v[i]);
        i = i + 1;
        assert(r@ =~= v@.subrange(start as int, i as int));
    }
    r
}

/// The end of the longest run of characters satisfying `ok` that begins at `p`.
pub open spec fn run_end(s: Seq<char>, p: int, ok: spec_fn(char) -> bool) -> int
    decreases s.len() - p,
{
    if 0 <= p < s.len() && ok(s[p]) {
        run_end(s, p + 1, ok)
    } else {
        p
    }
}

/// Facts about [`run_end`]: it lies between `p` and the end, every character before it
/// satisfies `ok`, and the character at it (if any) does not.
pub proof fn lemma_run_end(s: Seq<char>, p: int, ok: spec_fn(char) -> bool)
    requires
        0 <= p <= s.len(),
    ensures
        p <= run_end(s, p, ok) <= s.len(),
        forall|k: int| p <= k < run_end(s, p, ok) ==> ok(#[trigger] s[k]),
        run_end(s, p, ok) < s.len() ==> !ok(s[run_end(s, p, ok)]),
    decreases s.len() - p,
{
    if p < s.len() && ok(s[p]) {
        lemma_run_end(s, p + 1, ok);
    }
}

/// A run that holds only characters satisfying `ok` and stops at the end or at a character
/// that does not is the longest such run.
pub proof fn lemma_run_end_at(s: Seq<char>, p: int, e: int, ok: spec_fn(char) -> bool)
    requires
        0 <= p <= e <= s.len(),
        forall|k: int| p <= k < e ==> ok(#[trigger] s[k]),
        e == s.len() || !ok(s[e]),
    ensures
        run_end(s, p, ok) == e,
    decreases e - p,
{
    if p < e {
        lemma_run_end_at(s, p + 1, e, ok);
    }
}

/// Whether `pat` occurs in `s` starting at position `p`.
pub open spec fn occurs_at(s: Seq<char>, p: int, pat: Seq<char>) -> bool {
    0 <= p && p + pat.len() <= s.len() && s.subrange(p, p + pat.len()) == pat
}

/// Whether `pat` occurs in `s` at position `p` (executable).
pub fn occurs_at_exec(s: &Vec<char>, p: usize, pat: &Vec<char>) -> (r: bool)
    ensures
        r == occurs_at(s@, p as int, pat@),
{
    if p > s.len() || pat.len() > s.len() - p {
        return false;
    }
    let mut k: usize = 0;
    while k < pat.len()
        invariant
            p + pat@.len() <= s@.len(),
            s@.len() == s.len(),
            pat@.len() == pat.len(),
            k <= pat@.len(),
            forall|j: int| 0 <= j < k ==> s@[p + j] == pat@[j],
        decreases pat@.len() - k,
    {
        if s[p + k] != pat[k] {
            assert(s@.subrange(p as int, p + pat@.len())[k as int] != pat@[k as int]);
            return false;
        }
        k = k + 1;
    }
    assert(s@.subrange(p as int, p + pat@.len()) =~= pat@);
    true
}

/// Whether two character vectors hold the same characters.
pub fn same_chars(a: &Vec<char>, b: &Vec<char>) -> (r: bool)
    ensures
        r == (a@ == b@),
{
    if a.len() != b.len() {
        return false;
    }
    let r = occurs_at_exec(a, 0, b);
    proof {
        assert(a@.subrange(0, b@.len() as int) =~= a@);
    }
    r
}

/// Appends the characters of `s` to `r`.
pub fn append_str(r: &mut String, s: &str)
    ensures
        final(r)@ == old(r)@ + s@,
{
    let v = chars_of(s);
    let mut i: usize = 0;
    while i < v.len()
        invariant
            i <= v@.len(),
            v@ == s@,
            r@ == old(r)@ + v@.take(i as int),
        decreases v@.len() - i,
    {
        r.push(v[i]);
        i = i + 1;
        assert(r@ =~= old(r)@ + v@.take(i as int));
    }
    assert(v@.take(i as int) =~= v@);
}

/// The characters of `v` from position `start` on.
pub fn chars_from(v: &Vec<char>, start: usize) -> (r: Vec<char>)
    requires
        start <= v@.len(),
    ensures
        r@ == v@.skip(start as int),
{
    let mut r: Vec<char> = Vec::new();
    let mut i = start;
    while i < v.len()
        invariant
            start <= i <= v@.len(),
            r@ == v@.subrange(start as int, i as int),
        decreases v@.len() - i,
    {
        r.push(v[i]);
        i = i + 1;
        assert(r@ =~= v@.subrange(start as int, i as int));
    }
    assert(r@ =~= v@.skip(start as int));
    r
}

/// Appends the characters of `v` to `r`.
pub fn append_chars(r: &mut String, v: &Vec<char>)
    ensures
        final(r)@ == old(r)@ + v@,
{
    let mut i: usize = 0;
    while i < v.len()
        invariant
            i <= v@.len(),
            r@ == old(r)@ + v@.take(i as int),
        decreases v@.len() - i,
    {
        r.push(v[i]);
        i = i + 1;
        assert(r@ =~= old(r)@ + v@.take(i as int));
    }
    assert(v@.take(i as int) =~= v@);
}

/// The number of bytes that UTF-8 uses for `c`.
pub open spec fn utf8_width(c: char) -> nat {
    if (c as u32) < 0x80 {
        1
    } else if (c as u32) < 0x800 {
        2
    } else if (c as u32) < 0x10000 {
        3
    } else {
        4
    }
}

/// The number of bytes of the UTF-8 encoding of `s`.
pub open spec fn utf8_len(s: Seq<char>) -> nat
    decreases s.len(),
{
    if s.len() == 0 {
        0
    } else {
        utf8_len(s.drop_last()) + utf8_width(s.last())
    }
}

/// The encoded length of a concatenation is the sum of the encoded lengths.
pub proof fn lemma_utf8_len_add(a: Seq<char>, b: Seq<char>)
    ensures
        utf8_len(a + b) == utf8_len(a) + utf8_len(b),
    decreases b.len(),
{
    if b.len() == 0 {
        assert(a + b =~= a);
    } else {
        lemma_utf8_len_add(a, b.drop_last());
        assert((a + b).drop_last() =~= a + b.drop_last());
        assert((a + b).last() == b.last());
    }
}

/// A prefix and the rest together make up the whole encoded length.
pub proof fn lemma_utf8_len_split(s: Seq<char>, k: int)
    requires
        0 <= k <= s.len(),
    ensures
        utf8_len(s.take(k)) + utf8_len(s.skip(k)) == utf8_len(s),
{
    lemma_utf8_len_add(s.take(k), s.skip(k));
    assert(s.take(k) + s.skip(k) =~= s);
}

/// The number of bytes that UTF-8 uses for `c` (executable).
pub fn utf8_width_exec(c: char) -> (r: usize)
    ensures
        r == utf8_width(c),
{
    let u = c as u32;
    if u < 0x80 {
        1
    } else if u < 0x800 {
        2
    } else if u < 0x10000 {
        3
    } else {
        4
    }
}

/// The number of bytes of the UTF-8 encoding of `v[..end]`.
pub fn utf8_len_exec(v: &Vec<char>, end: usize) -> (r: usize)
    requires
        end <= v@.len(),
        utf8_len(v@) <= usize::MAX,
    ensures
        r == utf8_len(v@.take(end as int)),
{
    let mut n: usize = 0;
    let mut i: usize = 0;
    proof { lemma_utf8_len_split(v@, end as int); }
    assert(v@.take(0) =~= Seq::<char>::empty());
    while i < end
        invariant
            i <= end <= v@.len(),
            utf8_len(v@) <= usize::MAX,
            utf8_len(v@.take(end as int)) <= utf8_len(v@),
            n == utf8_len(v@.take(i as int)),
        decreases end - i,
    {
        assert(v@.take(i + 1).drop_last() =~= v@.take(i as int));
        proof {
            lemma_utf8_len_split(v@.take(end as int), i + 1);
            assert(v@.take(end as int).take(i + 1) =~= v@.take(i + 1));
        }
        n = n + utf8_width_exec(v[i]);
        i = i + 1;
    }
    n
}

} // verus!
