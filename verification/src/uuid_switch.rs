//! Universally unique identifiers as route parts, read and written by the `uuid` crate.
use vstd::prelude::*;
use crate::route::Route;
use crate::switch::Switch;
use crate::text::append_str;

verus! {

/// Whether `c` is a hexadecimal digit, in either case.
pub open spec fn is_hex_digit(c: char) -> bool {
    let u = c as u32;
    (48 <= u <= 57) || (97 <= u <= 102) || (65 <= u <= 70)
}

/// The value of a hexadecimal digit.
pub open spec fn hex_digit_value(c: char) -> nat {
    let u = c as u32;
    if 48 <= u <= 57 {
        (u - 48) as nat
    } else if 97 <= u <= 102 {
        (u - 87) as nat
    } else {
        (u - 55) as nat
    }
}

/// Whether every character of `s` is a hexadecimal digit.
pub open spec fn all_hex(s: Seq<char>) -> bool {
    forall|i: int| 0 <= i < s.len() ==> is_hex_digit(#[trigger] s[i])
}

/// The value of hexadecimal digits, the most significant first.
pub open spec fn hex_value(s: Seq<char>) -> nat
    decreases s.len(),
{
    if s.len() == 0 {
        0
    } else {
        hex_value(s.drop_last()) * 16 + hex_digit_value(s.last())
    }
}

/// The 32 digits of an identifier's text: the text itself where it has 32 characters,
/// or, where it has 36 with `-` at positions 8, 13, 18 and 23, the text without them.
pub open spec fn uuid_digits(t: Seq<char>) -> Option<Seq<char>> {
    if t.len() == 32 {
        Some(t)
    } else if t.len() == 36 && t[8] == '-' && t[13] == '-' && t[18] == '-' && t[23] == '-' {
        Some(t.subrange(0, 8) + t.subrange(9, 13) + t.subrange(14, 18) + t.subrange(19, 23) + t.subrange(24, 36))
    } else {
        None
    }
}

/// The prefix `urn:uuid:`.
pub open spec fn urn_prefix() -> Seq<char> {
    seq!['u', 'r', 'n', ':', 'u', 'u', 'i', 'd', ':']
}

/// The 128-bit value of the identifier that `uuid::Uuid::from_str` reads from `s`, if it
/// accepts `s`: 32 hexadecimal digits (either case), optionally as 8-4-4-4-12 groups
/// joined by `-`, optionally after `urn:uuid:` (then in groups); the first digit is the
/// most significant.
pub open spec fn uuid_parse(s: Seq<char>) -> Option<u128> {
    let urn = s.len() == 45 && s.take(9) == urn_prefix();
    let t = if urn {
        s.skip(9)
    } else {
        s
    };
    if urn || s.len() == 36 || s.len() == 32 {
        match uuid_digits(t) {
            Some(d) => if all_hex(d) {
                Some(hex_value(d) as u128)
            } else {
                None
            },
            None => None,
        }
    } else {
        None
    }
}

/// The lowercase hexadecimal digit for `d`.
pub open spec fn hex_char(d: nat) -> char {
    if d < 10 {
        (d + 48) as char
    } else {
        (d + 87) as char
    }
}

/// The `n` lowest hexadecimal digits of `v`, the most significant first.
pub open spec fn hex_digits(v: nat, n: nat) -> Seq<char>
    decreases n,
{
    if n == 0 {
        Seq::empty()
    } else {
        hex_digits(v / 16, (n - 1) as nat).push(hex_char(v % 16))
    }
}

/// 32 digits in 8-4-4-4-12 groups joined by `-`.
pub open spec fn hyphenated(d: Seq<char>) -> Seq<char> {
    d.subrange(0, 8) + seq!['-'] + d.subrange(8, 12) + seq!['-'] + d.subrange(12, 16) + seq!['-'] + d.subrange(16, 20)
        + seq!['-'] + d.subrange(20, 32)
}

/// The text that `uuid::Uuid`'s `Display` writes for the identifier with the 128-bit
/// value `v`: its 32 lowercase hexadecimal digits in 8-4-4-4-12 groups joined by `-`.
pub open spec fn uuid_text(v: u128) -> Seq<char> {
    hyphenated(hex_digits(v as nat, 32))
}

/// `16` to the power `n`.
pub open spec fn pow16(n: nat) -> nat
    decreases n,
{
    if n == 0 {
        1
    } else {
        16 * pow16((n - 1) as nat)
    }
}

/// A lowercase digit reads back as its value.
proof fn lemma_hex_char(d: nat)
    requires
        d < 16,
    ensures
        is_hex_digit(hex_char(d)),
        hex_digit_value(hex_char(d)) == d,
{
}

/// The digits of `v` are hexadecimal digits whose value is `v` modulo `16^n`.
proof fn lemma_hex_digits(v: nat, n: nat)
    ensures
        hex_digits(v, n).len() == n,
        all_hex(hex_digits(v, n)),
        hex_value(hex_digits(v, n)) == v % pow16(n),
    decreases n,
{
    if n > 0 {
        let m = (n - 1) as nat;
        lemma_hex_digits(v / 16, m);
        lemma_hex_char(v % 16);
        let d = hex_digits(v, n);
        assert(d.drop_last() =~= hex_digits(v / 16, m));
        assert(pow16(m) > 0) by {
            lemma_pow16_positive(m);
        }
        vstd::arithmetic::div_mod::lemma_breakdown(v as int, 16, pow16(m) as int);
        assert forall|i: int| 0 <= i < d.len() implies is_hex_digit(#[trigger] d[i]) by {
            if i < m {
                assert(d[i] == hex_digits(v / 16, m)[i]);
            }
        }
    } else {
        assert(v % 1 == 0);
    }
}

/// Powers of sixteen are positive.
proof fn lemma_pow16_positive(n: nat)
    ensures
        pow16(n) > 0,
    decreases n,
{
    if n > 0 {
        lemma_pow16_positive((n - 1) as nat);
    }
}

/// `uuid::Uuid::from_str` reads back the value from the text that `Display` writes.
pub proof fn lemma_uuid_text_parses(v: u128)
    ensures
        uuid_parse(uuid_text(v)) == Some(v),
{
    let d = hex_digits(v as nat, 32);
    lemma_hex_digits(v as nat, 32);
    assert(pow16(32) == 0x1_0000_0000_0000_0000_0000_0000_0000_0000) by {
        reveal_with_fuel(pow16, 33);
    }
    let t = uuid_text(v);
    assert(t.len() == 36);
    assert(t[8] == '-' && t[13] == '-' && t[18] == '-' && t[23] == '-');
    assert(t.subrange(0, 8) + t.subrange(9, 13) + t.subrange(14, 18) + t.subrange(19, 23) + t.subrange(24, 36) =~= d);
}

/// Reads an identifier with `uuid::Uuid::from_str`, giving its value (`Uuid::as_u128`).
#[verifier::external_body]
fn parse_uuid(text: &str) -> (r: Option<u128>)
    ensures
        r == uuid_parse(text@),
{
    text.parse::<uuid::Uuid>().ok().map(|u| u.as_u128())
}

/// Writes the identifier with value `v` (`uuid::Uuid::from_u128`) with its `Display`
/// impl: the hyphenated lowercase form.
#[verifier::external_body]
fn format_uuid(v: u128) -> (r: String)
    ensures
        r@ == uuid_text(v),
{
    uuid::Uuid::from_u128(v).to_string()
}

/// A universally unique identifier, held as its 128-bit value.
#[derive(Debug, Clone, Copy, PartialEq, Eq, Hash)]
pub struct UuidValue(pub u128);

impl Switch for UuidValue {
    open spec fn parses(route: Seq<char>) -> bool {
        uuid_parse(route) is Some
    }

    open spec fn parses_to(route: Seq<char>, v: Self) -> bool {
        uuid_parse(route) == Some(v.0)
    }

    open spec fn keeps_state(route: Seq<char>) -> bool {
        true
    }

    open spec fn route_text(&self) -> Seq<char> {
        uuid_text(self.0)
    }

    open spec fn missing_value() -> Option<Self> {
        None
    }

    open spec fn round_trips(v: Self) -> bool {
        true
    }

    open spec fn yields_state(&self) -> bool {
        false
    }

    proof fn lemma_read_back(v: Self) {
        lemma_uuid_text_parses(v.0);
    }

    fn from_route_part<T>(part: Route<T>) -> (r: (Option<Self>, Option<T>)) {
        let v = match parse_uuid(part.route.as_str()) {
            Some(n) => Some(UuidValue(n)),
            None => None,
        };
        let ghost g = part;
        assert(Self::keeps_state(g.route@));
        let r = (v, part.state);
        assert(r.1 == g.state);
        r
    }

    fn build_route_section<T>(self, route: &mut String) -> (r: Option<T>)
        ensures
            r is None,
    {
        let text = format_uuid(self.0);
        append_str(route, text.as_str());
        None
    }

    fn key_not_available() -> (r: Option<Self>) {
        None
    }
}

} // verus!
