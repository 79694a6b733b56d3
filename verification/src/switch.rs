//! Reading values from parts of a route, and writing values back as route text.
use vstd::prelude::*;
use crate::numbers::{
    format_i128, format_int, format_nat, int_of_text, int_text, lemma_int_text_roundtrip, parse_i128, parse_int,
    parse_u128,
};
use crate::route::Route;
use crate::text::{append_chars, chars_of, string_of_range};

verus! {

/// Types whose values can be read from a part of a route, and written back as route text.
///
/// Reading (`from_route_part`) yields the value, if the route part denotes one, and the
/// state of the route, where the type passes it on. Writing (`build_route_section`)
/// appends the value's text to a route being built.
pub trait Switch: Sized {
    /// Whether the route part denotes a value of this type.
    spec fn parses(route: Seq<char>) -> bool;

    /// Whether `v` is the value that the route part denotes.
    spec fn parses_to(route: Seq<char>, v: Self) -> bool;

    /// Whether reading this route part passes the route's state on.
    spec fn keeps_state(route: Seq<char>) -> bool;

    /// The text that writing the value appends.
    spec fn route_text(&self) -> Seq<char>;

    /// The value to use when a named capture is missing.
    spec fn missing_value() -> Option<Self>;

    /// Whether reading back the text that writing `v` appends yields `v`.
    spec fn round_trips(v: Self) -> bool;

    /// Whether writing the value may yield a state; where it does not, writing yields
    /// `None`.
    spec fn yields_state(&self) -> bool;

    /// Reading back the text that writing a value appends yields that value, for every
    /// value of which [`Switch::round_trips`] holds.
    proof fn lemma_read_back(v: Self)
        requires
            Self::round_trips(v),
        ensures
            Self::parses(v.route_text()),
            Self::parses_to(v.route_text(), v),
    ;

    /// Reads a value (and passes the state on, where the type does) from a route part.
    fn from_route_part<T>(part: Route<T>) -> (r: (Option<Self>, Option<T>))
        ensures
            r.0 is Some <==> Self::parses(part.route@),
            r.0 matches Some(v) ==> Self::parses_to(part.route@, v),
            r.1 == (if Self::keeps_state(part.route@) { part.state } else { None }),
    ;

    /// Appends the value's text to `route`.
    fn build_route_section<T>(self, route: &mut String) -> (r: Option<T>)
        ensures
            final(route)@ == old(route)@ + self.route_text(),
            !self.yields_state() ==> r is None,
    ;

    /// The value to use when a named capture is missing.
    fn key_not_available() -> (r: Option<Self>)
        ensures
            r == Self::missing_value(),
    ;

    /// Reads a value from a whole route.
    fn switch<T>(route: Route<T>) -> (r: Option<Self>)
        ensures
            r is Some <==> Self::parses(route.route@),
            r matches Some(v) ==> Self::parses_to(route.route@, v),
    {
        Self::from_route_part(route).0
    }
}

impl Switch for String {
    open spec fn parses(route: Seq<char>) -> bool {
        true
    }

    open spec fn parses_to(route: Seq<char>, v: Self) -> bool {
        v@ == route
    }

    open spec fn keeps_state(route: Seq<char>) -> bool {
        true
    }

    open spec fn route_text(&self) -> Seq<char> {
        self@
    }

    open spec fn missing_value() -> Option<Self> {
        None
    }

    open spec fn round_trips(v: Self) -> bool {
        true
    }

    open spec fn yields_state(&self) -> bool {
        false
    }

    proof fn lemma_read_back(v: Self) {
    }

    fn from_route_part<T>(part: Route<T>) -> (r: (Option<Self>, Option<T>)) {
        let ghost g = part;
        assert(Self::keeps_state(g.route@));
        let r = (Some(part.route), part.state);
        assert(r.1 == g.state);
        r
    }

    fn build_route_section<T>(self, route: &mut String) -> (r: Option<T>)
        ensures
            r is None,
    {
        crate::text::append_str(route, self.as_str());
        None
    }

    fn key_not_available() -> (r: Option<Self>) {
        None
    }
}

impl Switch for bool {
    open spec fn parses(route: Seq<char>) -> bool {
        route == "true"@ || route == "false"@
    }

    open spec fn parses_to(route: Seq<char>, v: Self) -> bool {
        (v && route == "true"@) || (!v && route == "false"@)
    }

    open spec fn keeps_state(route: Seq<char>) -> bool {
        true
    }

    open spec fn route_text(&self) -> Seq<char> {
        if *self {
            "true"@
        } else {
            "false"@
        }
    }

    open spec fn missing_value() -> Option<Self> {
        None
    }

    open spec fn round_trips(v: Self) -> bool {
        true
    }

    open spec fn yields_state(&self) -> bool {
        false
    }

    proof fn lemma_read_back(v: Self) {
    }

    fn from_route_part<T>(part: Route<T>) -> (r: (Option<Self>, Option<T>)) {
        let t = chars_of("true");
        let f = chars_of("false");
        let c = chars_of(part.route.as_str());
        let v = if crate::text::same_chars(&c, &t) {
            Some(true)
        } else if crate::text::same_chars(&c, &f) {
            Some(false)
        } else {
            None
        };
        let ghost g = part;
        assert(Self::keeps_state(g.route@));
        let r = (v, part.state);
        assert(r.1 == g.state);
        r
    }

    fn build_route_section<T>(self, route: &mut String) -> (r: Option<T>)
        ensures
            r is None,
    {
        if self {
            crate::text::append_str(route, "true");
        } else {
            crate::text::append_str(route, "false");
        }
        None
    }

    fn key_not_available() -> (r: Option<Self>) {
        None
    }
}

impl Switch for isize {
    open spec fn parses(route: Seq<char>) -> bool {
        int_of_text(route, isize::MIN as int, isize::MAX as int) is Some
    }

    open spec fn parses_to(route: Seq<char>, v: Self) -> bool {
        int_of_text(route, isize::MIN as int, isize::MAX as int) == Some(v as int)
    }

    open spec fn keeps_state(route: Seq<char>) -> bool {
        true
    }

    open spec fn route_text(&self) -> Seq<char> {
        int_text(*self as int)
    }

    open spec fn missing_value() -> Option<Self> {
        None
    }

    open spec fn round_trips(v: Self) -> bool {
        true
    }

    open spec fn yields_state(&self) -> bool {
        false
    }

    proof fn lemma_read_back(v: Self) {
        lemma_int_text_roundtrip(v as int, isize::MIN as int, isize::MAX as int);
    }

    fn from_route_part<T>(part: Route<T>) -> (r: (Option<Self>, Option<T>)) {
        let c = chars_of(part.route.as_str());
        let v = match parse_int(&c, isize::MIN as i128, isize::MAX as i128) {
            Some(n) => Some(n as isize),
            None => None,
        };
        let ghost g = part;
        assert(Self::keeps_state(g.route@));
        let r = (v, part.state);
        assert(r.1 == g.state);
        r
    }

    fn build_route_section<T>(self, route: &mut String) -> (r: Option<T>)
        ensures
            r is None,
    {
        let text = format_int(self as i128);
        append_chars(route, &text);
        None
    }

    fn key_not_available() -> (r: Option<Self>) {
        None
    }
}

impl Switch for usize {
    open spec fn parses(route: Seq<char>) -> bool {
        int_of_text(route, usize::MIN as int, usize::MAX as int) is Some
    }

    open spec fn parses_to(route: Seq<char>, v: Self) -> bool {
        int_of_text(route, usize::MIN as int, usize::MAX as int) == Some(v as int)
    }

    open spec fn keeps_state(route: Seq<char>) -> bool {
        true
    }

    open spec fn route_text(&self) -> Seq<char> {
        int_text(*self as int)
    }

    open spec fn missing_value() -> Option<Self> {
        None
    }

    open spec fn round_trips(v: Self) -> bool {
        true
    }

    open spec fn yields_state(&self) -> bool {
        false
    }

    proof fn lemma_read_back(v: Self) {
        lemma_int_text_roundtrip(v as int, usize::MIN as int, usize::MAX as int);
    }

    fn from_route_part<T>(part: Route<T>) -> (r: (Option<Self>, Option<T>)) {
        let c = chars_of(part.route.as_str());
        let v = match parse_int(&c, usize::MIN as i128, usize::MAX as i128) {
            Some(n) => Some(n as usize),
            None => None,
        };
        let ghost g = part;
        assert(Self::keeps_state(g.route@));
        let r = (v, part.state);
        assert(r.1 == g.state);
        r
    }

    fn build_route_section<T>(self, route: &mut String) -> (r: Option<T>)
        ensures
            r is None,
    {
        let text = format_int(self as i128);
        append_chars(route, &text);
        None
    }

    fn key_not_available() -> (r: Option<Self>) {
        None
    }
}

impl Switch for i64 {
    open spec fn parses(route: Seq<char>) -> bool {
        int_of_text(route, i64::MIN as int, i64::MAX as int) is Some
    }

    open spec fn parses_to(route: Seq<char>, v: Self) -> bool {
        int_of_text(route, i64::MIN as int, i64::MAX as int) == Some(v as int)
    }

    open spec fn keeps_state(route: Seq<char>) -> bool {
        true
    }

    open spec fn route_text(&self) -> Seq<char> {
        int_text(*self as int)
    }

    open spec fn missing_value() -> Option<Self> {
        None
    }

    open spec fn round_trips(v: Self) -> bool {
        true
    }

    open spec fn yields_state(&self) -> bool {
        false
    }

    proof fn lemma_read_back(v: Self) {
        lemma_int_text_roundtrip(v as int, i64::MIN as int, i64::MAX as int);
    }

    fn from_route_part<T>(part: Route<T>) -> (r: (Option<Self>, Option<T>)) {
        let c = chars_of(part.route.as_str());
        let v = match parse_int(&c, i64::MIN as i128, i64::MAX as i128) {
            Some(n) => Some(n as i64),
            None => None,
        };
        let ghost g = part;
        assert(Self::keeps_state(g.route@));
        let r = (v, part.state);
        assert(r.1 == g.state);
        r
    }

    fn build_route_section<T>(self, route: &mut String) -> (r: Option<T>)
        ensures
            r is None,
    {
        let text = format_int(self as i128);
        append_chars(route, &text);
        None
    }

    fn key_not_available() -> (r: Option<Self>) {
        None
    }
}

impl Switch for u64 {
    open spec fn parses(route: Seq<char>) -> bool {
        int_of_text(route, u64::MIN as int, u64::MAX as int) is Some
    }

    open spec fn parses_to(route: Seq<char>, v: Self) -> bool {
        int_of_text(route, u64::MIN as int, u64::MAX as int) == Some(v as int)
    }

    open spec fn keeps_state(route: Seq<char>) -> bool {
        true
    }

    open spec fn route_text(&self) -> Seq<char> {
        int_text(*self as int)
    }

    open spec fn missing_value() -> Option<Self> {
        None
    }

    open spec fn round_trips(v: Self) -> bool {
        true
    }

    open spec fn yields_state(&self) -> bool {
        false
    }

    proof fn lemma_read_back(v: Self) {
        lemma_int_text_roundtrip(v as int, u64::MIN as int, u64::MAX as int);
    }

    fn from_route_part<T>(part: Route<T>) -> (r: (Option<Self>, Option<T>)) {
        let c = chars_of(part.route.as_str());
        let v = match parse_int(&c, u64::MIN as i128, u64::MAX as i128) {
            Some(n) => Some(n as u64),
            None => None,
        };
        let ghost g = part;
        assert(Self::keeps_state(g.route@));
        let r = (v, part.state);
        assert(r.1 == g.state);
        r
    }

    fn build_route_section<T>(self, route: &mut String) -> (r: Option<T>)
        ensures
            r is None,
    {
        let text = format_int(self as i128);
        append_chars(route, &text);
        None
    }

    fn key_not_available() -> (r: Option<Self>) {
        None
    }
}

impl Switch for i32 {
    open spec fn parses(route: Seq<char>) -> bool {
        int_of_text(route, i32::MIN as int, i32::MAX as int) is Some
    }

    open spec fn parses_to(route: Seq<char>, v: Self) -> bool {
        int_of_text(route, i32::MIN as int, i32::MAX as int) == Some(v as int)
    }

    open spec fn keeps_state(route: Seq<char>) -> bool {
        true
    }

    open spec fn route_text(&self) -> Seq<char> {
        int_text(*self as int)
    }

    open spec fn missing_value() -> Option<Self> {
        None
    }

    open spec fn round_trips(v: Self) -> bool {
        true
    }

    open spec fn yields_state(&self) -> bool {
        false
    }

    proof fn lemma_read_back(v: Self) {
        lemma_int_text_roundtrip(v as int, i32::MIN as int, i32::MAX as int);
    }

    fn from_route_part<T>(part: Route<T>) -> (r: (Option<Self>, Option<T>)) {
        let c = chars_of(part.route.as_str());
        let v = match parse_int(&c, i32::MIN as i128, i32::MAX as i128) {
            Some(n) => Some(n as i32),
            None => None,
        };
        let ghost g = part;
        assert(Self::keeps_state(g.route@));
        let r = (v, part.state);
        assert(r.1 == g.state);
        r
    }

    fn build_route_section<T>(self, route: &mut String) -> (r: Option<T>)
        ensures
            r is None,
    {
        let text = format_int(self as i128);
        append_chars(route, &text);
        None
    }

    fn key_not_available() -> (r: Option<Self>) {
        None
    }
}

impl Switch for u32 {
    open spec fn parses(route: Seq<char>) -> bool {
        int_of_text(route, u32::MIN as int, u32::MAX as int) is Some
    }

    open spec fn parses_to(route: Seq<char>, v: Self) -> bool {
        int_of_text(route, u32::MIN as int, u32::MAX as int) == Some(v as int)
    }

    open spec fn keeps_state(route: Seq<char>) -> bool {
        true
    }

    open spec fn route_text(&self) -> Seq<char> {
        int_text(*self as int)
    }

    open spec fn missing_value() -> Option<Self> {
        None
    }

    open spec fn round_trips(v: Self) -> bool {
        true
    }

    open spec fn yields_state(&self) -> bool {
        false
    }

    proof fn lemma_read_back(v: Self) {
        lemma_int_text_roundtrip(v as int, u32::MIN as int, u32::MAX as int);
    }

    fn from_route_part<T>(part: Route<T>) -> (r: (Option<Self>, Option<T>)) {
        let c = chars_of(part.route.as_str());
        let v = match parse_int(&c, u32::MIN as i128, u32::MAX as i128) {
            Some(n) => Some(n as u32),
            None => None,
        };
        let ghost g = part;
        assert(Self::keeps_state(g.route@));
        let r = (v, part.state);
        assert(r.1 == g.state);
        r
    }

    fn build_route_section<T>(self, route: &mut String) -> (r: Option<T>)
        ensures
            r is None,
    {
        let text = format_int(self as i128);
        append_chars(route, &text);
        None
    }

    fn key_not_available() -> (r: Option<Self>) {
        None
    }
}

impl Switch for i16 {
    open spec fn parses(route: Seq<char>) -> bool {
        int_of_text(route, i16::MIN as int, i16::MAX as int) is Some
    }

    open spec fn parses_to(route: Seq<char>, v: Self) -> bool {
        int_of_text(route, i16::MIN as int, i16::MAX as int) == Some(v as int)
    }

    open spec fn keeps_state(route: Seq<char>) -> bool {
        true
    }

    open spec fn route_text(&self) -> Seq<char> {
        int_text(*self as int)
    }

    open spec fn missing_value() -> Option<Self> {
        None
    }

    open spec fn round_trips(v: Self) -> bool {
        true
    }

    open spec fn yields_state(&self) -> bool {
        false
    }

    proof fn lemma_read_back(v: Self) {
        lemma_int_text_roundtrip(v as int, i16::MIN as int, i16::MAX as int);
    }

    fn from_route_part<T>(part: Route<T>) -> (r: (Option<Self>, Option<T>)) {
        let c = chars_of(part.route.as_str());
        let v = match parse_int(&c, i16::MIN as i128, i16::MAX as i128) {
            Some(n) => Some(n as i16),
            None => None,
        };
        let ghost g = part;
        assert(Self::keeps_state(g.route@));
        let r = (v, part.state);
        assert(r.1 == g.state);
        r
    }

    fn build_route_section<T>(self, route: &mut String) -> (r: Option<T>)
        ensures
            r is None,
    {
        let text = format_int(self as i128);
        append_chars(route, &text);
        None
    }

    fn key_not_available() -> (r: Option<Self>) {
        None
    }
}

impl Switch for u16 {
    open spec fn parses(route: Seq<char>) -> bool {
        int_of_text(route, u16::MIN as int, u16::MAX as int) is Some
    }

    open spec fn parses_to(route: Seq<char>, v: Self) -> bool {
        int_of_text(route, u16::MIN as int, u16::MAX as int) == Some(v as int)
    }

    open spec fn keeps_state(route: Seq<char>) -> bool {
        true
    }

    open spec fn route_text(&self) -> Seq<char> {
        int_text(*self as int)
    }

    open spec fn missing_value() -> Option<Self> {
        None
    }

    open spec fn round_trips(v: Self) -> bool {
        true
    }

    open spec fn yields_state(&self) -> bool {
        false
    }

    proof fn lemma_read_back(v: Self) {
        lemma_int_text_roundtrip(v as int, u16::MIN as int, u16::MAX as int);
    }

    fn from_route_part<T>(part: Route<T>) -> (r: (Option<Self>, Option<T>)) {
        let c = chars_of(part.route.as_str());
        let v = match parse_int(&c, u16::MIN as i128, u16::MAX as i128) {
            Some(n) => Some(n as u16),
            None => None,
        };
        let ghost g = part;
        assert(Self::keeps_state(g.route@));
        let r = (v, part.state);
        assert(r.1 == g.state);
        r
    }

    fn build_route_section<T>(self, route: &mut String) -> (r: Option<T>)
        ensures
            r is None,
    {
        let text = format_int(self as i128);
        append_chars(route, &text);
        None
    }

    fn key_not_available() -> (r: Option<Self>) {
        None
    }
}

impl Switch for i8 {
    open spec fn parses(route: Seq<char>) -> bool {
        int_of_text(route, i8::MIN as int, i8::MAX as int) is Some
    }

    open spec fn parses_to(route: Seq<char>, v: Self) -> bool {
        int_of_text(route, i8::MIN as int, i8::MAX as int) == Some(v as int)
    }

    open spec fn keeps_state(route: Seq<char>) -> bool {
        true
    }

    open spec fn route_text(&self) -> Seq<char> {
        int_text(*self as int)
    }

    open spec fn missing_value() -> Option<Self> {
        None
    }

    open spec fn round_trips(v: Self) -> bool {
        true
    }

    open spec fn yields_state(&self) -> bool {
        false
    }

    proof fn lemma_read_back(v: Self) {
        lemma_int_text_roundtrip(v as int, i8::MIN as int, i8::MAX as int);
    }

    fn from_route_part<T>(part: Route<T>) -> (r: (Option<Self>, Option<T>)) {
        let c = chars_of(part.route.as_str());
        let v = match parse_int(&c, i8::MIN as i128, i8::MAX as i128) {
            Some(n) => Some(n as i8),
            None => None,
        };
        let ghost g = part;
        assert(Self::keeps_state(g.route@));
        let r = (v, part.state);
        assert(r.1 == g.state);
        r
    }

    fn build_route_section<T>(self, route: &mut String) -> (r: Option<T>)
        ensures
            r is None,
    {
        let text = format_int(self as i128);
        append_chars(route, &text);
        None
    }

    fn key_not_available() -> (r: Option<Self>) {
        None
    }
}

impl Switch for u8 {
    open spec fn parses(route: Seq<char>) -> bool {
        int_of_text(route, u8::MIN as int, u8::MAX as int) is Some
    }

    open spec fn parses_to(route: Seq<char>, v: Self) -> bool {
        int_of_text(route, u8::MIN as int, u8::MAX as int) == Some(v as int)
    }

    open spec fn keeps_state(route: Seq<char>) -> bool {
        true
    }

    open spec fn route_text(&self) -> Seq<char> {
        int_text(*self as int)
    }

    open spec fn missing_value() -> Option<Self> {
        None
    }

    open spec fn round_trips(v: Self) -> bool {
        true
    }

    open spec fn yields_state(&self) -> bool {
        false
    }

    proof fn lemma_read_back(v: Self) {
        lemma_int_text_roundtrip(v as int, u8::MIN as int, u8::MAX as int);
    }

    fn from_route_part<T>(part: Route<T>) -> (r: (Option<Self>, Option<T>)) {
        let c = chars_of(part.route.as_str());
        let v = match parse_int(&c, u8::MIN as i128, u8::MAX as i128) {
            Some(n) => Some(n as u8),
            None => None,
        };
        let ghost g = part;
        assert(Self::keeps_state(g.route@));
        let r = (v, part.state);
        assert(r.1 == g.state);
        r
    }

    fn build_route_section<T>(self, route: &mut String) -> (r: Option<T>)
        ensures
            r is None,
    {
        let text = format_int(self as i128);
        append_chars(route, &text);
        None
    }

    fn key_not_available() -> (r: Option<Self>) {
        None
    }
}

impl Switch for i128 {
    open spec fn parses(route: Seq<char>) -> bool {
        int_of_text(route, i128::MIN as int, i128::MAX as int) is Some
    }

    open spec fn parses_to(route: Seq<char>, v: Self) -> bool {
        int_of_text(route, i128::MIN as int, i128::MAX as int) == Some(v as int)
    }

    open spec fn keeps_state(route: Seq<char>) -> bool {
        true
    }

    open spec fn route_text(&self) -> Seq<char> {
        int_text(*self as int)
    }

    open spec fn missing_value() -> Option<Self> {
        None
    }

    open spec fn round_trips(v: Self) -> bool {
        true
    }

    open spec fn yields_state(&self) -> bool {
        false
    }

    proof fn lemma_read_back(v: Self) {
        lemma_int_text_roundtrip(v as int, i128::MIN as int, i128::MAX as int);
    }

    fn from_route_part<T>(part: Route<T>) -> (r: (Option<Self>, Option<T>)) {
        let c = chars_of(part.route.as_str());
        let v = parse_i128(&c);
        let ghost g = part;
        assert(Self::keeps_state(g.route@));
        let r = (v, part.state);
        assert(r.1 == g.state);
        r
    }

    fn build_route_section<T>(self, route: &mut String) -> (r: Option<T>)
        ensures
            r is None,
    {
        let text = format_i128(self);
        append_chars(route, &text);
        None
    }

    fn key_not_available() -> (r: Option<Self>) {
        None
    }
}

impl Switch for u128 {
    open spec fn parses(route: Seq<char>) -> bool {
        int_of_text(route, u128::MIN as int, u128::MAX as int) is Some
    }

    open spec fn parses_to(route: Seq<char>, v: Self) -> bool {
        int_of_text(route, u128::MIN as int, u128::MAX as int) == Some(v as int)
    }

    open spec fn keeps_state(route: Seq<char>) -> bool {
        true
    }

    open spec fn route_text(&self) -> Seq<char> {
        int_text(*self as int)
    }

    open spec fn missing_value() -> Option<Self> {
        None
    }

    open spec fn round_trips(v: Self) -> bool {
        true
    }

    open spec fn yields_state(&self) -> bool {
        false
    }

    proof fn lemma_read_back(v: Self) {
        lemma_int_text_roundtrip(v as int, u128::MIN as int, u128::MAX as int);
    }

    fn from_route_part<T>(part: Route<T>) -> (r: (Option<Self>, Option<T>)) {
        let c = chars_of(part.route.as_str());
        let v = parse_u128(&c);
        let ghost g = part;
        assert(Self::keeps_state(g.route@));
        let r = (v, part.state);
        assert(r.1 == g.state);
        r
    }

    fn build_route_section<T>(self, route: &mut String) -> (r: Option<T>)
        ensures
            r is None,
    {
        let text = format_nat(self);
        append_chars(route, &text);
        None
    }

    fn key_not_available() -> (r: Option<Self>) {
        None
    }
}

/// A value whose route text must begin with `/`, which is not part of the value's own text.
#[derive(Debug, Clone, Copy, PartialEq, Eq, Hash)]
pub struct LeadingSlash<T>(pub T);

/// Whether a route part begins with `/`.
pub open spec fn begins_with_slash(r: Seq<char>) -> bool {
    r.len() > 0 && r[0] == '/'
}

impl<U: Switch> Switch for LeadingSlash<U> {
    open spec fn parses(route: Seq<char>) -> bool {
        begins_with_slash(route) && U::parses(route.skip(1))
    }

    open spec fn parses_to(route: Seq<char>, v: Self) -> bool {
        begins_with_slash(route) && U::parses_to(route.skip(1), v.0)
    }

    open spec fn keeps_state(route: Seq<char>) -> bool {
        begins_with_slash(route) && U::keeps_state(route.skip(1))
    }

    open spec fn route_text(&self) -> Seq<char> {
        seq!['/'] + self.0.route_text()
    }

    open spec fn missing_value() -> Option<Self> {
        None
    }

    open spec fn round_trips(v: Self) -> bool {
        U::round_trips(v.0)
    }

    open spec fn yields_state(&self) -> bool {
        self.0.yields_state()
    }

    proof fn lemma_read_back(v: Self) {
        U::lemma_read_back(v.0);
        assert((seq!['/'] + v.0.route_text()).skip(1) =~= v.0.route_text());
    }

    fn from_route_part<T>(part: Route<T>) -> (r: (Option<Self>, Option<T>)) {
        let ghost g = part;
        assert(Self::keeps_state(g.route@) == (begins_with_slash(g.route@) && U::keeps_state(g.route@.skip(1))));
        let c = chars_of(part.route.as_str());
        if c.len() > 0 && c[0] == '/' {
            let rest = string_of_range(&c, 1, c.len());
            assert(rest@ =~= g.route@.skip(1));
            let route = Route { route: rest, state: part.state };
            let (inner, state) = U::from_route_part(route);
            let v = match inner {
                Some(x) => Some(LeadingSlash(x)),
                None => None,
            };
            (v, state)
        } else {
            (None, None)
        }
    }

    fn build_route_section<T>(self, route: &mut String) -> (r: Option<T>) {
        route.push('/');
        let r = self.0.build_route_section(route);
        assert(route@ =~= old(route)@ + self.route_text());
        r
    }

    fn key_not_available() -> (r: Option<Self>) {
        None
    }
}

impl<U: Switch> Switch for Option<U> {
    open spec fn parses(route: Seq<char>) -> bool {
        true
    }

    open spec fn parses_to(route: Seq<char>, v: Self) -> bool {
        match v {
            Some(x) => U::parses(route) && U::parses_to(route, x),
            None => !U::parses(route),
        }
    }

    open spec fn keeps_state(route: Seq<char>) -> bool {
        U::parses(route) && U::keeps_state(route)
    }

    open spec fn route_text(&self) -> Seq<char> {
        match self {
            Some(x) => x.route_text(),
            None => Seq::empty(),
        }
    }

    open spec fn missing_value() -> Option<Self> {
        Some(None)
    }

    open spec fn round_trips(v: Self) -> bool {
        match v {
            Some(x) => U::round_trips(x),
            None => !U::parses(Seq::empty()),
        }
    }

    open spec fn yields_state(&self) -> bool {
        match self {
            Some(x) => x.yields_state(),
            None => false,
        }
    }

    proof fn lemma_read_back(v: Self) {
        if let Some(x) = v {
            U::lemma_read_back(x);
        }
    }

    /// Reading always yields a value: the inner value where the part denotes one, and
    /// `None` otherwise.
    fn from_route_part<T>(part: Route<T>) -> (r: (Option<Self>, Option<T>)) {
        let ghost g = part;
        assert(Self::keeps_state(g.route@) == (U::parses(g.route@) && U::keeps_state(g.route@)));
        let (inner, inner_state) = U::from_route_part(part);
        match inner {
            Some(x) => (Some(Some(x)), inner_state),
            None => (Some(None), None),
        }
    }

    fn build_route_section<T>(self, route: &mut String) -> (r: Option<T>) {
        match self {
            Some(inner) => inner.build_route_section(route),
            None => {
                assert(route@ =~= old(route)@ + Seq::<char>::empty());
                None
            },
        }
    }

    fn key_not_available() -> (r: Option<Self>) {
        Some(None)
    }
}

/// A value that may be absent, where its route part is empty or begins with `/`.
#[derive(Debug, Clone, Copy, PartialEq, Eq)]
pub struct AllowMissing<T>(pub Option<T>);

/// Whether a route part is empty or begins with `/`.
pub open spec fn empty_or_slash(r: Seq<char>) -> bool {
    r.len() == 0 || r[0] == '/'
}

impl<U: Switch> Switch for AllowMissing<U> {
    open spec fn parses(route: Seq<char>) -> bool {
        U::parses(route) || empty_or_slash(route)
    }

    open spec fn parses_to(route: Seq<char>, v: Self) -> bool {
        if U::parses(route) {
            v.0 matches Some(x) && U::parses_to(route, x)
        } else {
            v.0 is None && empty_or_slash(route)
        }
    }

    open spec fn keeps_state(route: Seq<char>) -> bool {
        (U::parses(route) || empty_or_slash(route)) && U::keeps_state(route)
    }

    open spec fn route_text(&self) -> Seq<char> {
        match self.0 {
            Some(x) => x.route_text(),
            None => Seq::empty(),
        }
    }

    open spec fn missing_value() -> Option<Self> {
        None
    }

    open spec fn round_trips(v: Self) -> bool {
        match v.0 {
            Some(x) => U::round_trips(x),
            None => !U::parses(Seq::empty()),
        }
    }

    open spec fn yields_state(&self) -> bool {
        match self.0 {
            Some(x) => x.yields_state(),
            None => false,
        }
    }

    proof fn lemma_read_back(v: Self) {
        if let Some(x) = v.0 {
            U::lemma_read_back(x);
        }
    }

    fn from_route_part<T>(part: Route<T>) -> (r: (Option<Self>, Option<T>)) {
        let ghost g = part;
        assert(Self::keeps_state(g.route@) == ((U::parses(g.route@) || empty_or_slash(g.route@))
            && U::keeps_state(g.route@)));
        let c = chars_of(part.route.as_str());
        let (inner, inner_state) = U::from_route_part(part);
        match inner {
            Some(x) => (Some(AllowMissing(Some(x))), inner_state),
            None => {
                if c.len() == 0 || c[0] == '/' {
                    (Some(AllowMissing(None)), inner_state)
                } else {
                    (None, None)
                }
            },
        }
    }

    fn build_route_section<T>(self, route: &mut String) -> (r: Option<T>) {
        match self.0 {
            Some(inner) => inner.build_route_section(route),
            None => {
                assert(route@ =~= old(route)@ + Seq::<char>::empty());
                None
            },
        }
    }

    fn key_not_available() -> (r: Option<Self>) {
        None
    }
}

/// Builds a route from a value: its text, and the state that writing it yields.
pub fn build_route_from_switch<SW: Switch, T>(switch: SW) -> (r: Route<T>)
    ensures
        r.route@ == switch.route_text(),
        !switch.yields_state() ==> r.state is None,
{
    let mut buf = String::new();
    let ghost text = switch.route_text();
    let state = switch.build_route_section(&mut buf);
    assert(buf@ =~= text);
    Route { route: buf, state }
}

/// A route built from a value by [`build_route_from_switch`] is read back by
/// [`Switch::switch`] as that value, for every value of which [`Switch::round_trips`] holds
/// (every value of the library's types, except a `None` of `Option` or `AllowMissing`
/// whose inner type also reads the empty text).
pub proof fn lemma_build_then_switch<SW: Switch, T>(x: SW, r: Route<T>)
    requires
        SW::round_trips(x),
        r.route@ == x.route_text(),
    ensures
        SW::parses(r.route@),
        SW::parses_to(r.route@, x),
{
    SW::lemma_read_back(x);
}

} // verus!
