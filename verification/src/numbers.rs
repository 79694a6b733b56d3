//! Decimal text of integers: formatting, and reading back as `str::parse` does.
use vstd::prelude::*;
use crate::grammar::{digits_value, is_digit_char, lemma_digits_value_prefix};

verus! {

/// The digit character for `d` (expected below 10).
pub open spec fn digit_char(d: int) -> char {
    (d + 48) as char
}

/// The decimal digits of a natural number, without leading zeros.
pub open spec fn nat_text(n: nat) -> Seq<char>
    decreases n,
{
    if n < 10 {
        seq![digit_char(n as int)]
    } else {
        nat_text(n / 10).push(digit_char(n as int % 10))
    }
}

/// The decimal text of an integer, with `-` before a negative one.
pub open spec fn int_text(n: int) -> Seq<char> {
    if n < 0 {
        seq!['-'] + nat_text((-n) as nat)
    } else {
        nat_text(n as nat)
    }
}

/// Whether every character of `d` is an ASCII digit.
pub open spec fn all_digits(d: Seq<char>) -> bool {
    forall|k: int| 0 <= k < d.len() ==> is_digit_char(#[trigger] d[k])
}

/// Whether text for the range starting at `min` begins with a minus sign that is read.
pub open spec fn minus_read(s: Seq<char>, min: int) -> bool {
    s.len() > 0 && s[0] == '-' && min < 0
}

/// The digits of integer text: what follows a leading sign that is read.
pub open spec fn digits_part(s: Seq<char>, min: int) -> Seq<char> {
    if s.len() > 0 && (s[0] == '+' || minus_read(s, min)) {
        s.skip(1)
    } else {
        s
    }
}

/// Reading an integer of the range `min..=max` from text: an optional `+` (or `-`, where
/// the range has negative numbers), then one or more ASCII digits. `None` for anything
/// else, or for a number out of range.
pub open spec fn int_of_text(s: Seq<char>, min: int, max: int) -> Option<int> {
    let d = digits_part(s, min);
    if s.len() > 0 && d.len() > 0 && all_digits(d) {
        let v = if minus_read(s, min) {
            -(digits_value(d) as int)
        } else {
            digits_value(d) as int
        };
        if min <= v && v <= max {
            Some(v)
        } else {
            None
        }
    } else {
        None
    }
}

/// The decimal digits of a natural number are digits, and denote that number.
pub proof fn lemma_nat_text(n: nat)
    ensures
        nat_text(n).len() > 0,
        forall|k: int| 0 <= k < nat_text(n).len() ==> is_digit_char(#[trigger] nat_text(n)[k]),
        digits_value(nat_text(n)) == n,
    decreases n,
{
    if n < 10 {
        assert(nat_text(n).drop_last() =~= Seq::<char>::empty());
        assert(digit_char(n as int) as int == n as int + 48);
        assert(digits_value(Seq::<char>::empty()) == 0);
        assert(digits_value(nat_text(n)) == digits_value(nat_text(n).drop_last()) * 10 + ((nat_text(n).last() as int - '0' as int) as nat));
    } else {
        lemma_nat_text(n / 10);
        assert(nat_text(n).drop_last() =~= nat_text(n / 10));
        assert(nat_text(n).last() == digit_char(n as int % 10));
        assert(digit_char(n as int % 10) as int == n as int % 10 + 48);
        assert((n / 10) * 10 + n % 10 == n);
    }
}

/// Reading back the text of an integer in range gives that integer.
pub proof fn lemma_int_text_roundtrip(n: int, min: int, max: int)
    requires
        min <= n <= max,
    ensures
        int_of_text(int_text(n), min, max) == Some(n),
{
    if n < 0 {
        lemma_nat_text((-n) as nat);
        assert(int_text(n).skip(1) =~= nat_text((-n) as nat));
        assert(digits_part(int_text(n), min) =~= nat_text((-n) as nat));
    } else {
        lemma_nat_text(n as nat);
        assert(is_digit_char(nat_text(n as nat)[0]));
        assert(digits_part(int_text(n), min) =~= nat_text(n as nat));
    }
}

/// The decimal digits of `n`.
pub fn format_nat(n: u128) -> (r: Vec<char>)
    ensures
        r@ == nat_text(n as nat),
    decreases n,
{
    let d = (n % 10) as u8;
    let c = (48u8 + d) as char;
    if n < 10 {
        let mut v: Vec<char> = Vec::new();
        v.push(c);
        assert(v@ =~= nat_text(n as nat));
        v
    } else {
        let mut v = format_nat(n / 10);
        v.push(c);
        v
    }
}

/// The decimal text of `n`, with `-` before a negative number.
pub fn format_int(n: i128) -> (r: Vec<char>)
    requires
        n > i128::MIN,
    ensures
        r@ == int_text(n as int),
{
    if n < 0 {
        let mut v: Vec<char> = Vec::new();
        v.push('-');
        let mut digits = format_nat((-n) as u128);
        v.append(&mut digits);
        assert(v@ =~= int_text(n as int));
        v
    } else {
        format_nat(n as u128)
    }
}

/// Reads an integer of the range `min..=max` from `s`; see [`int_of_text`].
pub fn parse_int(s: &Vec<char>, min: i128, max: i128) -> (r: Option<i128>)
    requires
        -0x1_0000_0000_0000_0000 <= min <= 0 <= max <= 0x1_0000_0000_0000_0000,
    ensures
        match r {
            Some(v) => int_of_text(s@, min as int, max as int) == Some(v as int),
            None => int_of_text(s@, min as int, max as int) is None,
        },
{
    if s.len() == 0 {
        return None;
    }
    let neg = s[0] == '-' && min < 0;
    let start: usize = if s[0] == '+' || neg { 1 } else { 0 };
    let ghost d = digits_part(s@, min as int);
    assert(d =~= s@.skip(start as int));
    if start >= s.len() {
        return None;
    }
    let limit: u128 = if neg { (-min) as u128 } else { max as u128 };
    let mut mag: u128 = 0;
    let mut i = start;
    assert(d.take(0) =~= Seq::<char>::empty());
    while i < s.len()
        invariant
            s@.len() > 0,
            neg == (s@[0] == '-' && min < 0),
            start == (if s@[0] == '+' || neg { 1int } else { 0int }),
            -0x1_0000_0000_0000_0000 <= min <= 0 <= max <= 0x1_0000_0000_0000_0000,
            limit == (if neg { -min } else { max as int }),
            start <= i <= s@.len(),
            d == s@.skip(start as int),
            d == digits_part(s@, min as int),
            neg == minus_read(s@, min as int),
            limit <= 0x1_0000_0000_0000_0000,
            mag <= limit,
            mag == digits_value(d.take(i - start)),
            forall|k: int| start <= k < i ==> is_digit_char(#[trigger] s@[k]),
        decreases s@.len() - i,
    {
        let c = s[i];
        if !('0' <= c && c <= '9') {
            assert(0 <= i - start < d.len());
            assert(!is_digit_char(d[i - start]));
            assert(!all_digits(d));
            assert(int_of_text(s@, min as int, max as int) is None);
            return None;
        }
        proof {
            assert(d.take(i - start + 1).drop_last() =~= d.take(i - start));
            assert(d.take(i - start + 1).last() == s@[i as int]);
        }
        let digit = (c as u32 - 48) as u128;
        mag = mag * 10 + digit;
        i = i + 1;
        if mag > limit {
            proof {
                lemma_digits_value_prefix(d, i - start);
                if all_digits(d) {
                    assert(digits_value(d) > limit);
                }
            }
            return None;
        }
    }
    assert(d.take(i - start) =~= d);
    assert forall|k: int| 0 <= k < d.len() implies is_digit_char(#[trigger] d[k]) by {
        assert(d[k] == s@[k + start]);
    }
    assert(all_digits(d));
    if neg {
        Some(-(mag as i128))
    } else {
        Some(mag as i128)
    }
}

/// Reads the digits of `s` from `start` to the end as a number of at most `limit`:
/// `None` unless they are one or more ASCII digits denoting such a number.
fn read_digits(s: &Vec<char>, start: usize, limit: u128) -> (r: Option<u128>)
    requires
        start <= s@.len(),
    ensures
        match r {
            Some(m) => start < s@.len() && all_digits(s@.skip(start as int)) && digits_value(s@.skip(start as int))
                == m && m <= limit,
            None => !(start < s@.len() && all_digits(s@.skip(start as int)) && digits_value(s@.skip(start as int))
                <= limit),
        },
{
    let ghost d = s@.skip(start as int);
    if start >= s.len() {
        return None;
    }
    let mut mag: u128 = 0;
    let mut i = start;
    assert(d.take(0) =~= Seq::<char>::empty());
    while i < s.len()
        invariant
            start <= i <= s@.len(),
            start < s@.len(),
            d == s@.skip(start as int),
            mag <= limit,
            mag == digits_value(d.take(i - start)),
            forall|k: int| start <= k < i ==> is_digit_char(#[trigger] s@[k]),
        decreases s@.len() - i,
    {
        let c = s[i];
        if !('0' <= c && c <= '9') {
            assert(!is_digit_char(d[i - start]));
            return None;
        }
        proof {
            assert(d.take(i - start + 1).drop_last() =~= d.take(i - start));
            assert(d.take(i - start + 1).last() == s@[i as int]);
        }
        let digit = (c as u32 - 48) as u128;
        if digit > limit || mag > (limit - digit) / 10 {
            proof {
                assert(mag * 10 + digit > limit) by (nonlinear_arith)
                    requires
                        digit > limit || mag > (limit - digit) / 10,
                        digit <= limit ==> (limit - digit) / 10 * 10 <= limit - digit < (limit - digit) / 10 * 10 + 10,
                {
                }
                lemma_digits_value_prefix(d, i - start + 1);
            }
            return None;
        }
        assert(mag * 10 + digit <= limit) by (nonlinear_arith)
            requires
                mag <= (limit - digit) / 10,
                digit <= limit,
        {
        }
        mag = mag * 10 + digit;
        i = i + 1;
    }
    assert(d.take(i - start) =~= d);
    assert forall|k: int| 0 <= k < d.len() implies is_digit_char(#[trigger] d[k]) by {
        assert(d[k] == s@[k + start]);
    }
    Some(mag)
}

/// Reads an unsigned 128-bit integer from `s`; see [`int_of_text`].
pub fn parse_u128(s: &Vec<char>) -> (r: Option<u128>)
    ensures
        match r {
            Some(v) => int_of_text(s@, 0, u128::MAX as int) == Some(v as int),
            None => int_of_text(s@, 0, u128::MAX as int) is None,
        },
{
    if s.len() == 0 {
        return None;
    }
    let start: usize = if s[0] == '+' { 1 } else { 0 };
    assert(digits_part(s@, 0) =~= s@.skip(start as int));
    read_digits(s, start, u128::MAX)
}

/// Reads a signed 128-bit integer from `s`; see [`int_of_text`].
pub fn parse_i128(s: &Vec<char>) -> (r: Option<i128>)
    ensures
        match r {
            Some(v) => int_of_text(s@, i128::MIN as int, i128::MAX as int) == Some(v as int),
            None => int_of_text(s@, i128::MIN as int, i128::MAX as int) is None,
        },
{
    if s.len() == 0 {
        return None;
    }
    let neg = s[0] == '-';
    let start: usize = if s[0] == '+' || neg { 1 } else { 0 };
    assert(digits_part(s@, i128::MIN as int) =~= s@.skip(start as int));
    let limit: u128 = if neg { 0x8000_0000_0000_0000_0000_0000_0000_0000 } else { 0x7fff_ffff_ffff_ffff_ffff_ffff_ffff_ffff };
    match read_digits(s, start, limit) {
        Some(m) => {
            if neg {
                if m == 0x8000_0000_0000_0000_0000_0000_0000_0000 {
                    Some(i128::MIN)
                } else {
                    Some(-(m as i128))
                }
            } else {
                Some(m as i128)
            }
        },
        None => None,
    }
}

/// The decimal text of any signed 128-bit integer.
pub fn format_i128(n: i128) -> (r: Vec<char>)
    ensures
        r@ == int_text(n as int),
{
    if n == i128::MIN {
        let mut v: Vec<char> = Vec::new();
        v.push('-');
        let mut digits = format_nat(0x8000_0000_0000_0000_0000_0000_0000_0000);
        v.append(&mut digits);
        assert(v@ =~= int_text(n as int));
        v
    } else {
        format_int(n)
    }
}

} // verus!
