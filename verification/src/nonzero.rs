//! Integers that are not zero, read from and written to route parts as the integers are.
use vstd::prelude::*;
use crate::route::Route;
use crate::switch::Switch;

verus! {

/// A `u8` that is not zero.
#[derive(Debug, Clone, Copy, PartialEq, Eq)]
pub struct NonZeroU8(u8);

impl View for NonZeroU8 {
    type V = u8;

    closed spec fn view(&self) -> u8 {
        self.0
    }
}

impl NonZeroU8 {
    /// The value is not zero.
    #[verifier::type_invariant]
    spec fn not_zero(&self) -> bool {
        self.0 != 0
    }

    /// `n`, where it is not zero.
    pub fn new(n: u8) -> (r: Option<Self>)
        ensures
            r is Some <==> n != 0,
            r matches Some(v) ==> v@ == n,
    {
        if n != 0 {
            Some(NonZeroU8(n))
        } else {
            None
        }
    }

    /// The value.
    pub fn get(self) -> (r: u8)
        ensures
            r == self@,
            r != 0,
    {
        proof { use_type_invariant(&self); }
        self.0
    }
}

impl Switch for NonZeroU8 {
    open spec fn parses(route: Seq<char>) -> bool {
        u8::parses(route) && !u8::parses_to(route, 0u8)
    }

    open spec fn parses_to(route: Seq<char>, v: Self) -> bool {
        u8::parses_to(route, v@)
    }

    open spec fn keeps_state(route: Seq<char>) -> bool {
        true
    }

    open spec fn route_text(&self) -> Seq<char> {
        self@.route_text()
    }

    open spec fn missing_value() -> Option<Self> {
        None
    }

    open spec fn round_trips(v: Self) -> bool {
        v@ != 0
    }

    open spec fn yields_state(&self) -> bool {
        false
    }

    proof fn lemma_read_back(v: Self) {
        u8::lemma_read_back(v@);
    }

    fn from_route_part<T>(part: Route<T>) -> (r: (Option<Self>, Option<T>)) {
        let ghost g = part;
        let (v, state) = u8::from_route_part(part);
        assert(u8::keeps_state(g.route@) && Self::keeps_state(g.route@));
        assert(state == g.state);
        match v {
            Some(n) => if n != 0 {
                (Some(NonZeroU8(n)), state)
            } else {
                (None, state)
            },
            None => (None, state),
        }
    }

    fn build_route_section<T>(self, route: &mut String) -> (r: Option<T>)
        ensures
            r is None,
    {
        self.0.build_route_section(route)
    }

    fn key_not_available() -> (r: Option<Self>) {
        None
    }
}

/// A `u16` that is not zero.
#[derive(Debug, Clone, Copy, PartialEq, Eq)]
pub struct NonZeroU16(u16);

impl View for NonZeroU16 {
    type V = u16;

    closed spec fn view(&self) -> u16 {
        self.0
    }
}

impl NonZeroU16 {
    /// The value is not zero.
    #[verifier::type_invariant]
    spec fn not_zero(&self) -> bool {
        self.0 != 0
    }

    /// `n`, where it is not zero.
    pub fn new(n: u16) -> (r: Option<Self>)
        ensures
            r is Some <==> n != 0,
            r matches Some(v) ==> v@ == n,
    {
        if n != 0 {
            Some(NonZeroU16(n))
        } else {
            None
        }
    }

    /// The value.
    pub fn get(self) -> (r: u16)
        ensures
            r == self@,
            r != 0,
    {
        proof { use_type_invariant(&self); }
        self.0
    }
}

impl Switch for NonZeroU16 {
    open spec fn parses(route: Seq<char>) -> bool {
        u16::parses(route) && !u16::parses_to(route, 0u16)
    }

    open spec fn parses_to(route: Seq<char>, v: Self) -> bool {
        u16::parses_to(route, v@)
    }

    open spec fn keeps_state(route: Seq<char>) -> bool {
        true
    }

    open spec fn route_text(&self) -> Seq<char> {
        self@.route_text()
    }

    open spec fn missing_value() -> Option<Self> {
        None
    }

    open spec fn round_trips(v: Self) -> bool {
        v@ != 0
    }

    open spec fn yields_state(&self) -> bool {
        false
    }

    proof fn lemma_read_back(v: Self) {
        u16::lemma_read_back(v@);
    }

    fn from_route_part<T>(part: Route<T>) -> (r: (Option<Self>, Option<T>)) {
        let ghost g = part;
        let (v, state) = u16::from_route_part(part);
        assert(u16::keeps_state(g.route@) && Self::keeps_state(g.route@));
        assert(state == g.state);
        match v {
            Some(n) => if n != 0 {
                (Some(NonZeroU16(n)), state)
            } else {
                (None, state)
            },
            None => (None, state),
        }
    }

    fn build_route_section<T>(self, route: &mut String) -> (r: Option<T>)
        ensures
            r is None,
    {
        self.0.build_route_section(route)
    }

    fn key_not_available() -> (r: Option<Self>) {
        None
    }
}

/// A `u32` that is not zero.
#[derive(Debug, Clone, Copy, PartialEq, Eq)]
pub struct NonZeroU32(u32);

impl View for NonZeroU32 {
    type V = u32;

    closed spec fn view(&self) -> u32 {
        self.0
    }
}

impl NonZeroU32 {
    /// The value is not zero.
    #[verifier::type_invariant]
    spec fn not_zero(&self) -> bool {
        self.0 != 0
    }

    /// `n`, where it is not zero.
    pub fn new(n: u32) -> (r: Option<Self>)
        ensures
            r is Some <==> n != 0,
            r matches Some(v) ==> v@ == n,
    {
        if n != 0 {
            Some(NonZeroU32(n))
        } else {
            None
        }
    }

    /// The value.
    pub fn get(self) -> (r: u32)
        ensures
            r == self@,
            r != 0,
    {
        proof { use_type_invariant(&self); }
        self.0
    }
}

impl Switch for NonZeroU32 {
    open spec fn parses(route: Seq<char>) -> bool {
        u32::parses(route) && !u32::parses_to(route, 0u32)
    }

    open spec fn parses_to(route: Seq<char>, v: Self) -> bool {
        u32::parses_to(route, v@)
    }

    open spec fn keeps_state(route: Seq<char>) -> bool {
        true
    }

    open spec fn route_text(&self) -> Seq<char> {
        self@.route_text()
    }

    open spec fn missing_value() -> Option<Self> {
        None
    }

    open spec fn round_trips(v: Self) -> bool {
        v@ != 0
    }

    open spec fn yields_state(&self) -> bool {
        false
    }

    proof fn lemma_read_back(v: Self) {
        u32::lemma_read_back(v@);
    }

    fn from_route_part<T>(part: Route<T>) -> (r: (Option<Self>, Option<T>)) {
        let ghost g = part;
        let (v, state) = u32::from_route_part(part);
        assert(u32::keeps_state(g.route@) && Self::keeps_state(g.route@));
        assert(state == g.state);
        match v {
            Some(n) => if n != 0 {
                (Some(NonZeroU32(n)), state)
            } else {
                (None, state)
            },
            None => (None, state),
        }
    }

    fn build_route_section<T>(self, route: &mut String) -> (r: Option<T>)
        ensures
            r is None,
    {
        self.0.build_route_section(route)
    }

    fn key_not_available() -> (r: Option<Self>) {
        None
    }
}

/// A `u64` that is not zero.
#[derive(Debug, Clone, Copy, PartialEq, Eq)]
pub struct NonZeroU64(u64);

impl View for NonZeroU64 {
    type V = u64;

    closed spec fn view(&self) -> u64 {
        self.0
    }
}

impl NonZeroU64 {
    /// The value is not zero.
    #[verifier::type_invariant]
    spec fn not_zero(&self) -> bool {
        self.0 != 0
    }

    /// `n`, where it is not zero.
    pub fn new(n: u64) -> (r: Option<Self>)
        ensures
            r is Some <==> n != 0,
            r matches Some(v) ==> v@ == n,
    {
        if n != 0 {
            Some(NonZeroU64(n))
        } else {
            None
        }
    }

    /// The value.
    pub fn get(self) -> (r: u64)
        ensures
            r == self@,
            r != 0,
    {
        proof { use_type_invariant(&self); }
        self.0
    }
}

impl Switch for NonZeroU64 {
    open spec fn parses(route: Seq<char>) -> bool {
        u64::parses(route) && !u64::parses_to(route, 0u64)
    }

    open spec fn parses_to(route: Seq<char>, v: Self) -> bool {
        u64::parses_to(route, v@)
    }

    open spec fn keeps_state(route: Seq<char>) -> bool {
        true
    }

    open spec fn route_text(&self) -> Seq<char> {
        self@.route_text()
    }

    open spec fn missing_value() -> Option<Self> {
        None
    }

    open spec fn round_trips(v: Self) -> bool {
        v@ != 0
    }

    open spec fn yields_state(&self) -> bool {
        false
    }

    proof fn lemma_read_back(v: Self) {
        u64::lemma_read_back(v@);
    }

    fn from_route_part<T>(part: Route<T>) -> (r: (Option<Self>, Option<T>)) {
        let ghost g = part;
        let (v, state) = u64::from_route_part(part);
        assert(u64::keeps_state(g.route@) && Self::keeps_state(g.route@));
        assert(state == g.state);
        match v {
            Some(n) => if n != 0 {
                (Some(NonZeroU64(n)), state)
            } else {
                (None, state)
            },
            None => (None, state),
        }
    }

    fn build_route_section<T>(self, route: &mut String) -> (r: Option<T>)
        ensures
            r is None,
    {
        self.0.build_route_section(route)
    }

    fn key_not_available() -> (r: Option<Self>) {
        None
    }
}

/// A `u128` that is not zero.
#[derive(Debug, Clone, Copy, PartialEq, Eq)]
pub struct NonZeroU128(u128);

impl View for NonZeroU128 {
    type V = u128;

    closed spec fn view(&self) -> u128 {
        self.0
    }
}

impl NonZeroU128 {
    /// The value is not zero.
    #[verifier::type_invariant]
    spec fn not_zero(&self) -> bool {
        self.0 != 0
    }

    /// `n`, where it is not zero.
    pub fn new(n: u128) -> (r: Option<Self>)
        ensures
            r is Some <==> n != 0,
            r matches Some(v) ==> v@ == n,
    {
        if n != 0 {
            Some(NonZeroU128(n))
        } else {
            None
        }
    }

    /// The value.
    pub fn get(self) -> (r: u128)
        ensures
            r == self@,
            r != 0,
    {
        proof { use_type_invariant(&self); }
        self.0
    }
}

impl Switch for NonZeroU128 {
    open spec fn parses(route: Seq<char>) -> bool {
        u128::parses(route) && !u128::parses_to(route, 0u128)
    }

    open spec fn parses_to(route: Seq<char>, v: Self) -> bool {
        u128::parses_to(route, v@)
    }

    open spec fn keeps_state(route: Seq<char>) -> bool {
        true
    }

    open spec fn route_text(&self) -> Seq<char> {
        self@.route_text()
    }

    open spec fn missing_value() -> Option<Self> {
        None
    }

    open spec fn round_trips(v: Self) -> bool {
        v@ != 0
    }

    open spec fn yields_state(&self) -> bool {
        false
    }

    proof fn lemma_read_back(v: Self) {
        u128::lemma_read_back(v@);
    }

    fn from_route_part<T>(part: Route<T>) -> (r: (Option<Self>, Option<T>)) {
        let ghost g = part;
        let (v, state) = u128::from_route_part(part);
        assert(u128::keeps_state(g.route@) && Self::keeps_state(g.route@));
        assert(state == g.state);
        match v {
            Some(n) => if n != 0 {
                (Some(NonZeroU128(n)), state)
            } else {
                (None, state)
            },
            None => (None, state),
        }
    }

    fn build_route_section<T>(self, route: &mut String) -> (r: Option<T>)
        ensures
            r is None,
    {
        self.0.build_route_section(route)
    }

    fn key_not_available() -> (r: Option<Self>) {
        None
    }
}

/// A `i8` that is not zero.
#[derive(Debug, Clone, Copy, PartialEq, Eq)]
pub struct NonZeroI8(i8);

impl View for NonZeroI8 {
    type V = i8;

    closed spec fn view(&self) -> i8 {
        self.0
    }
}

impl NonZeroI8 {
    /// The value is not zero.
    #[verifier::type_invariant]
    spec fn not_zero(&self) -> bool {
        self.0 != 0
    }

    /// `n`, where it is not zero.
    pub fn new(n: i8) -> (r: Option<Self>)
        ensures
            r is Some <==> n != 0,
            r matches Some(v) ==> v@ == n,
    {
        if n != 0 {
            Some(NonZeroI8(n))
        } else {
            None
        }
    }

    /// The value.
    pub fn get(self) -> (r: i8)
        ensures
            r == self@,
            r != 0,
    {
        proof { use_type_invariant(&self); }
        self.0
    }
}

impl Switch for NonZeroI8 {
    open spec fn parses(route: Seq<char>) -> bool {
        i8::parses(route) && !i8::parses_to(route, 0i8)
    }

    open spec fn parses_to(route: Seq<char>, v: Self) -> bool {
        i8::parses_to(route, v@)
    }

    open spec fn keeps_state(route: Seq<char>) -> bool {
        true
    }

    open spec fn route_text(&self) -> Seq<char> {
        self@.route_text()
    }

    open spec fn missing_value() -> Option<Self> {
        None
    }

    open spec fn round_trips(v: Self) -> bool {
        v@ != 0
    }

    open spec fn yields_state(&self) -> bool {
        false
    }

    proof fn lemma_read_back(v: Self) {
        i8::lemma_read_back(v@);
    }

    fn from_route_part<T>(part: Route<T>) -> (r: (Option<Self>, Option<T>)) {
        let ghost g = part;
        let (v, state) = i8::from_route_part(part);
        assert(i8::keeps_state(g.route@) && Self::keeps_state(g.route@));
        assert(state == g.state);
        match v {
            Some(n) => if n != 0 {
                (Some(NonZeroI8(n)), state)
            } else {
                (None, state)
            },
            None => (None, state),
        }
    }

    fn build_route_section<T>(self, route: &mut String) -> (r: Option<T>)
        ensures
            r is None,
    {
        self.0.build_route_section(route)
    }

    fn key_not_available() -> (r: Option<Self>) {
        None
    }
}

/// A `i16` that is not zero.
#[derive(Debug, Clone, Copy, PartialEq, Eq)]
pub struct NonZeroI16(i16);

impl View for NonZeroI16 {
    type V = i16;

    closed spec fn view(&self) -> i16 {
        self.0
    }
}

impl NonZeroI16 {
    /// The value is not zero.
    #[verifier::type_invariant]
    spec fn not_zero(&self) -> bool {
        self.0 != 0
    }

    /// `n`, where it is not zero.
    pub fn new(n: i16) -> (r: Option<Self>)
        ensures
            r is Some <==> n != 0,
            r matches Some(v) ==> v@ == n,
    {
        if n != 0 {
            Some(NonZeroI16(n))
        } else {
            None
        }
    }

    /// The value.
    pub fn get(self) -> (r: i16)
        ensures
            r == self@,
            r != 0,
    {
        proof { use_type_invariant(&self); }
        self.0
    }
}

impl Switch for NonZeroI16 {
    open spec fn parses(route: Seq<char>) -> bool {
        i16::parses(route) && !i16::parses_to(route, 0i16)
    }

    open spec fn parses_to(route: Seq<char>, v: Self) -> bool {
        i16::parses_to(route, v@)
    }

    open spec fn keeps_state(route: Seq<char>) -> bool {
        true
    }

    open spec fn route_text(&self) -> Seq<char> {
        self@.route_text()
    }

    open spec fn missing_value() -> Option<Self> {
        None
    }

    open spec fn round_trips(v: Self) -> bool {
        v@ != 0
    }

    open spec fn yields_state(&self) -> bool {
        false
    }

    proof fn lemma_read_back(v: Self) {
        i16::lemma_read_back(v@);
    }

    fn from_route_part<T>(part: Route<T>) -> (r: (Option<Self>, Option<T>)) {
        let ghost g = part;
        let (v, state) = i16::from_route_part(part);
        assert(i16::keeps_state(g.route@) && Self::keeps_state(g.route@));
        assert(state == g.state);
        match v {
            Some(n) => if n != 0 {
                (Some(NonZeroI16(n)), state)
            } else {
                (None, state)
            },
            None => (None, state),
        }
    }

    fn build_route_section<T>(self, route: &mut String) -> (r: Option<T>)
        ensures
            r is None,
    {
        self.0.build_route_section(route)
    }

    fn key_not_available() -> (r: Option<Self>) {
        None
    }
}

/// A `i32` that is not zero.
#[derive(Debug, Clone, Copy, PartialEq, Eq)]
pub struct NonZeroI32(i32);

impl View for NonZeroI32 {
    type V = i32;

    closed spec fn view(&self) -> i32 {
        self.0
    }
}

impl NonZeroI32 {
    /// The value is not zero.
    #[verifier::type_invariant]
    spec fn not_zero(&self) -> bool {
        self.0 != 0
    }

    /// `n`, where it is not zero.
    pub fn new(n: i32) -> (r: Option<Self>)
        ensures
            r is Some <==> n != 0,
            r matches Some(v) ==> v@ == n,
    {
        if n != 0 {
            Some(NonZeroI32(n))
        } else {
            None
        }
    }

    /// The value.
    pub fn get(self) -> (r: i32)
        ensures
            r == self@,
            r != 0,
    {
        proof { use_type_invariant(&self); }
        self.0
    }
}

impl Switch for NonZeroI32 {
    open spec fn parses(route: Seq<char>) -> bool {
        i32::parses(route) && !i32::parses_to(route, 0i32)
    }

    open spec fn parses_to(route: Seq<char>, v: Self) -> bool {
        i32::parses_to(route, v@)
    }

    open spec fn keeps_state(route: Seq<char>) -> bool {
        true
    }

    open spec fn route_text(&self) -> Seq<char> {
        self@.route_text()
    }

    open spec fn missing_value() -> Option<Self> {
        None
    }

    open spec fn round_trips(v: Self) -> bool {
        v@ != 0
    }

    open spec fn yields_state(&self) -> bool {
        false
    }

    proof fn lemma_read_back(v: Self) {
        i32::lemma_read_back(v@);
    }

    fn from_route_part<T>(part: Route<T>) -> (r: (Option<Self>, Option<T>)) {
        let ghost g = part;
        let (v, state) = i32::from_route_part(part);
        assert(i32::keeps_state(g.route@) && Self::keeps_state(g.route@));
        assert(state == g.state);
        match v {
            Some(n) => if n != 0 {
                (Some(NonZeroI32(n)), state)
            } else {
                (None, state)
            },
            None => (None, state),
        }
    }

    fn build_route_section<T>(self, route: &mut String) -> (r: Option<T>)
        ensures
            r is None,
    {
        self.0.build_route_section(route)
    }

    fn key_not_available() -> (r: Option<Self>) {
        None
    }
}

/// A `i64` that is not zero.
#[derive(Debug, Clone, Copy, PartialEq, Eq)]
pub struct NonZeroI64(i64);

impl View for NonZeroI64 {
    type V = i64;

    closed spec fn view(&self) -> i64 {
        self.0
    }
}

impl NonZeroI64 {
    /// The value is not zero.
    #[verifier::type_invariant]
    spec fn not_zero(&self) -> bool {
        self.0 != 0
    }

    /// `n`, where it is not zero.
    pub fn new(n: i64) -> (r: Option<Self>)
        ensures
            r is Some <==> n != 0,
            r matches Some(v) ==> v@ == n,
    {
        if n != 0 {
            Some(NonZeroI64(n))
        } else {
            None
        }
    }

    /// The value.
    pub fn get(self) -> (r: i64)
        ensures
            r == self@,
            r != 0,
    {
        proof { use_type_invariant(&self); }
        self.0
    }
}

impl Switch for NonZeroI64 {
    open spec fn parses(route: Seq<char>) -> bool {
        i64::parses(route) && !i64::parses_to(route, 0i64)
    }

    open spec fn parses_to(route: Seq<char>, v: Self) -> bool {
        i64::parses_to(route, v@)
    }

    open spec fn keeps_state(route: Seq<char>) -> bool {
        true
    }

    open spec fn route_text(&self) -> Seq<char> {
        self@.route_text()
    }

    open spec fn missing_value() -> Option<Self> {
        None
    }

    open spec fn round_trips(v: Self) -> bool {
        v@ != 0
    }

    open spec fn yields_state(&self) -> bool {
        false
    }

    proof fn lemma_read_back(v: Self) {
        i64::lemma_read_back(v@);
    }

    fn from_route_part<T>(part: Route<T>) -> (r: (Option<Self>, Option<T>)) {
        let ghost g = part;
        let (v, state) = i64::from_route_part(part);
        assert(i64::keeps_state(g.route@) && Self::keeps_state(g.route@));
        assert(state == g.state);
        match v {
            Some(n) => if n != 0 {
                (Some(NonZeroI64(n)), state)
            } else {
                (None, state)
            },
            None => (None, state),
        }
    }

    fn build_route_section<T>(self, route: &mut String) -> (r: Option<T>)
        ensures
            r is None,
    {
        self.0.build_route_section(route)
    }

    fn key_not_available() -> (r: Option<Self>) {
        None
    }
}

/// A `i128` that is not zero.
#[derive(Debug, Clone, Copy, PartialEq, Eq)]
pub struct NonZeroI128(i128);

impl View for NonZeroI128 {
    type V = i128;

    closed spec fn view(&self) -> i128 {
        self.0
    }
}

impl NonZeroI128 {
    /// The value is not zero.
    #[verifier::type_invariant]
    spec fn not_zero(&self) -> bool {
        self.0 != 0
    }

    /// `n`, where it is not zero.
    pub fn new(n: i128) -> (r: Option<Self>)
        ensures
            r is Some <==> n != 0,
            r matches Some(v) ==> v@ == n,
    {
        if n != 0 {
            Some(NonZeroI128(n))
        } else {
            None
        }
    }

    /// The value.
    pub fn get(self) -> (r: i128)
        ensures
            r == self@,
            r != 0,
    {
        proof { use_type_invariant(&self); }
        self.0
    }
}

impl Switch for NonZeroI128 {
    open spec fn parses(route: Seq<char>) -> bool {
        i128::parses(route) && !i128::parses_to(route, 0i128)
    }

    open spec fn parses_to(route: Seq<char>, v: Self) -> bool {
        i128::parses_to(route, v@)
    }

    open spec fn keeps_state(route: Seq<char>) -> bool {
        true
    }

    open spec fn route_text(&self) -> Seq<char> {
        self@.route_text()
    }

    open spec fn missing_value() -> Option<Self> {
        None
    }

    open spec fn round_trips(v: Self) -> bool {
        v@ != 0
    }

    open spec fn yields_state(&self) -> bool {
        false
    }

    proof fn lemma_read_back(v: Self) {
        i128::lemma_read_back(v@);
    }

    fn from_route_part<T>(part: Route<T>) -> (r: (Option<Self>, Option<T>)) {
        let ghost g = part;
        let (v, state) = i128::from_route_part(part);
        assert(i128::keeps_state(g.route@) && Self::keeps_state(g.route@));
        assert(state == g.state);
        match v {
            Some(n) => if n != 0 {
                (Some(NonZeroI128(n)), state)
            } else {
                (None, state)
            },
            None => (None, state),
        }
    }

    fn build_route_section<T>(self, route: &mut String) -> (r: Option<T>)
        ensures
            r is None,
    {
        self.0.build_route_section(route)
    }

    fn key_not_available() -> (r: Option<Self>) {
        None
    }
}

} // verus!
