//! Reporting why a matcher string could not be parsed.
use vstd::prelude::*;
use crate::parser::ParseFailure;
use crate::text::{append_str, chars_of, lemma_utf8_len_split, same_chars, utf8_len, utf8_len_exec};

verus! {

/// Message for a `//` in a matcher string.
pub const DOUBLE_SLASHES_NOT_ALLOWED: &'static str = "Double slashes ('//') are not allowed.";

/// Message for a matcher string that cannot be read from its first character.
pub const EMPTY_MATCH_NOT_ALLOWED: &'static str = "Empty match strings are not allowed. You are allowed to match anything by specifying '{}'.";

/// Message for a capture block with a bad character after its first one.
pub const CAPTURE_BLOCK_LONG: &'static str = "A capture block can be made up of: '{}', '{<ident>}', '{*}', '{*:<ident>}', '{<number>}', or '{<number>:<ident>}'. The indicated character does not fit into one of these patterns.";

/// Message for a capture block with a bad first character.
pub const CAPTURE_BLOCK_SHORT: &'static str = "A capture block can be made up of: '{}', '{<ident>}', '{*}', '{*:<ident>}', '{<number>}', or '{<number>:<ident>}'.";

/// A construct that could have appeared where parsing stopped.
#[derive(Debug, Clone, Copy, PartialEq, Eq)]
pub enum ExpectedConstruct {
    /// `/`
    Slash,
    /// `?`
    Question,
    /// `&`
    And,
    /// `=`
    Equals,
    /// `#`
    Hash,
    /// `{`
    OpenBrace,
    /// `}`
    CloseBrace,
    /// `(`
    OpenParen,
    /// `)`
    CloseParen,
    /// `*:` followed by an identifier.
    StarColonIdent,
    /// `*`
    Star,
    /// A number, `:` and an identifier.
    NumberColonIdent,
    /// A number.
    Number,
    /// An identifier.
    ValidIdent,
    /// Literal text.
    ExactText,
    /// Anything else.
    UnhandledError,
}

impl ExpectedConstruct {
    /// How the construct is shown to a user.
    pub fn text(&self) -> (r: &'static str)
        ensures
            r@ == expected_text(*self),
    {
        match self {
            ExpectedConstruct::Slash => "'/'",
            ExpectedConstruct::Question => "'?'",
            ExpectedConstruct::And => "'&'",
            ExpectedConstruct::Equals => "'='",
            ExpectedConstruct::Hash => "'#'",
            ExpectedConstruct::OpenBrace => "'{'",
            ExpectedConstruct::CloseBrace => "'}'",
            ExpectedConstruct::OpenParen => "'('",
            ExpectedConstruct::CloseParen => "')'",
            ExpectedConstruct::ValidIdent => "<Identifier>",
            ExpectedConstruct::ExactText => "<Exact Text>",
            ExpectedConstruct::UnhandledError => "Unhandled Error",
            ExpectedConstruct::StarColonIdent => "*:<Identifier>",
            ExpectedConstruct::Star => "*",
            ExpectedConstruct::NumberColonIdent => "<number>:<Identifier>",
            ExpectedConstruct::Number => "<number>",
        }
    }
}

/// How each construct is shown to a user.
pub open spec fn expected_text(e: ExpectedConstruct) -> Seq<char> {
    match e {
        ExpectedConstruct::Slash => "'/'"@,
        ExpectedConstruct::Question => "'?'"@,
        ExpectedConstruct::And => "'&'"@,
        ExpectedConstruct::Equals => "'='"@,
        ExpectedConstruct::Hash => "'#'"@,
        ExpectedConstruct::OpenBrace => "'{'"@,
        ExpectedConstruct::CloseBrace => "'}'"@,
        ExpectedConstruct::OpenParen => "'('"@,
        ExpectedConstruct::CloseParen => "')'"@,
        ExpectedConstruct::ValidIdent => "<Identifier>"@,
        ExpectedConstruct::ExactText => "<Exact Text>"@,
        ExpectedConstruct::UnhandledError => "Unhandled Error"@,
        ExpectedConstruct::StarColonIdent => "*:<Identifier>"@,
        ExpectedConstruct::Star => "*"@,
        ExpectedConstruct::NumberColonIdent => "<number>:<Identifier>"@,
        ExpectedConstruct::Number => "<number>"@,
    }
}

/// The offset of `substring` within `input`, where `substring` is a suffix of `input`,
/// counted in bytes of UTF-8.
pub fn offset(input: &str, substring: &str) -> (r: usize)
    requires
        utf8_len(substring@) <= utf8_len(input@) <= usize::MAX,
    ensures
        r == utf8_len(input@) - utf8_len(substring@),
{
    let a = chars_of(input);
    let b = chars_of(substring);
    assert(a@.take(a@.len() as int) =~= a@);
    assert(b@.take(b@.len() as int) =~= b@);
    utf8_len_exec(&a, a.len()) - utf8_len_exec(&b, b.len())
}

/// Characters that may not stand inside a capture block.
pub open spec fn is_forbidden_capture_char(c: char) -> bool {
    c == '!' || c == '@' || c == '#' || c == '$' || c == '%' || c == '^' || c == '&' || c == '*'
        || c == '(' || c == ')' || c == '[' || c == ']' || c == '<' || c == '>' || c == '{'
        || c == '/' || c == '\\' || c == '\n' || c == '\t' || c == ' '
}

/// Whether `c` may not stand inside a capture block.
pub fn contains_forbidden_capture_character(c: char) -> (r: bool)
    ensures
        r == is_forbidden_capture_char(c),
{
    c == '!' || c == '@' || c == '#' || c == '$' || c == '%' || c == '^' || c == '&' || c == '*'
        || c == '(' || c == ')' || c == '[' || c == ']' || c == '<' || c == '>' || c == '{'
        || c == '/' || c == '\\' || c == '\n' || c == '\t' || c == ' '
}

/// Parsing stopped at a second `/` of a `//`: the rest begins with `/` right after a `/`.
pub open spec fn is_double_slash(input: Seq<char>, substring: Seq<char>, offset: int) -> bool {
    input != substring && offset > 0 && offset - 1 < input.len() && input[offset - 1] == '/'
        && substring.len() > 0 && substring[0] == '/'
}

/// Whether parsing stopped at the second `/` of a `//`.
pub fn double_slash(input: &str, substring: &str, offset: usize) -> (r: bool)
    ensures
        r == is_double_slash(input@, substring@, offset as int),
{
    let a = chars_of(input);
    let b = chars_of(substring);
    double_slash_chars(&a, &b, offset)
}

/// [`double_slash`] on characters.
fn double_slash_chars(a: &Vec<char>, b: &Vec<char>, offset: usize) -> (r: bool)
    ensures
        r == is_double_slash(a@, b@, offset as int),
{
    let same = same_chars(a, b);
    !same && offset > 0 && offset - 1 < a.len() && a[offset - 1] == '/' && b.len() > 0 && b[0] == '/'
}

/// Parsing stopped at a capture block `{` with a forbidden character after its first one.
pub open spec fn is_bad_capture(input: Seq<char>, substring: Seq<char>, offset: int) -> bool {
    input != substring && 0 <= offset < input.len() && input[offset] == '{' && exists|k: int|
        1 <= k < substring.len() && is_forbidden_capture_char(#[trigger] substring[k])
}

/// The first position after the first at which `substring` holds a forbidden character.
pub open spec fn first_forbidden(substring: Seq<char>) -> int
    recommends
        exists|k: int| 1 <= k < substring.len() && is_forbidden_capture_char(#[trigger] substring[k]),
{
    choose|k: int|
        1 <= k < substring.len() && is_forbidden_capture_char(substring[k]) && forall|j: int|
            1 <= j < k ==> !is_forbidden_capture_char(#[trigger] substring[j])
}

/// Whether parsing stopped inside a malformed capture block.
pub fn bad_capture(input: &str, substring: &str, offset: usize) -> (r: bool)
    ensures
        r == is_bad_capture(input@, substring@, offset as int),
{
    let a = chars_of(input);
    let b = chars_of(substring);
    bad_capture_chars(&a, &b, offset)
}

/// [`bad_capture`] on characters.
fn bad_capture_chars(a: &Vec<char>, b: &Vec<char>, offset: usize) -> (r: bool)
    ensures
        r == is_bad_capture(a@, b@, offset as int),
{
    let same = same_chars(a, b);
    if same || offset >= a.len() || a[offset] != '{' {
        return false;
    }
    let mut k: usize = 1;
    while k < b.len()
        invariant
            1 <= k,
            a@ != b@,
            0 <= offset < a@.len(),
            a@[offset as int] == '{',
            forall|j: int| 1 <= j < k && j < b@.len() ==> !is_forbidden_capture_char(#[trigger] b@[j]),
        decreases b@.len() - k,
    {
        if contains_forbidden_capture_character(b[k]) {
            assert(is_forbidden_capture_char(b@[k as int]));
            return true;
        }
        k = k + 1;
    }
    false
}

/// The offset of the bad character of a malformed capture block: `offset` plus the byte
/// position in `substring`, after its first character, of the first forbidden character.
pub fn find_bad_capture_character_offset(offset: usize, substring: &str) -> (r: usize)
    requires
        exists|k: int| 1 <= k < substring@.len() && is_forbidden_capture_char(#[trigger] substring@[k]),
        offset + utf8_len(substring@) <= usize::MAX,
    ensures
        r == offset + utf8_len(substring@.take(first_forbidden(substring@))),
{
    let b = chars_of(substring);
    let k = find_bad_chars(&b);
    proof { lemma_utf8_len_split(b@, k as int); }
    offset + utf8_len_exec(&b, k)
}

/// The position in `b`, after its first character, of the first forbidden character.
fn find_bad_chars(b: &Vec<char>) -> (r: usize)
    requires
        exists|k: int| 1 <= k < b@.len() && is_forbidden_capture_char(#[trigger] b@[k]),
    ensures
        r == first_forbidden(b@),
        1 <= r < b@.len(),
{
    let mut k: usize = 1;
    while k < b.len()
        invariant
            1 <= k,
            exists|m: int| 1 <= m < b@.len() && is_forbidden_capture_char(#[trigger] b@[m]),
            forall|j: int| 1 <= j < k && j < b@.len() ==> !is_forbidden_capture_char(#[trigger] b@[j]),
        decreases b@.len() - k,
    {
        if contains_forbidden_capture_character(b[k]) {
            proof {
                let w = k as int;
                assert(1 <= w < b@.len() && is_forbidden_capture_char(b@[w]) && forall|j: int|
                    1 <= j < w ==> !is_forbidden_capture_char(#[trigger] b@[j]));
                let c = first_forbidden(b@);
                if c < w {
                    assert(!is_forbidden_capture_char(b@[c]));
                } else if c > w {
                    assert(!is_forbidden_capture_char(b@[w]));
                }
            }
            return k;
        }
        k = k + 1;
    }
    proof {
        let m = choose|m: int| 1 <= m < b@.len() && is_forbidden_capture_char(#[trigger] b@[m]);
        assert(!is_forbidden_capture_char(b@[m]));
    }
    1
}

/// The report for parsing that stopped at character `e`: the offset (in bytes of UTF-8)
/// to point at, the constructs that could have appeared there, and a message. The checks
/// for `//` and for a capture block look at the characters whose positions are that byte
/// offset.
pub open spec fn report(input: Seq<char>, e: int) -> (int, Seq<ExpectedConstruct>, Option<Seq<char>>) {
    let sub = input.skip(e);
    let b = utf8_len(input.take(e)) as int;
    if b == 0 {
        (
            0,
            seq![ExpectedConstruct::Slash, ExpectedConstruct::Question, ExpectedConstruct::Hash, ExpectedConstruct::OpenBrace],
            Some(EMPTY_MATCH_NOT_ALLOWED@),
        )
    } else if is_double_slash(input, sub, b) {
        (
            b,
            seq![
                ExpectedConstruct::ExactText,
                ExpectedConstruct::OpenBrace,
                ExpectedConstruct::OpenParen,
                ExpectedConstruct::Question,
                ExpectedConstruct::Hash,
            ],
            Some(DOUBLE_SLASHES_NOT_ALLOWED@),
        )
    } else if is_bad_capture(input, sub, b) {
        let n = b + utf8_len(sub.take(first_forbidden(sub)));
        if n > b + 1 {
            (n, seq![ExpectedConstruct::CloseBrace], Some(CAPTURE_BLOCK_LONG@))
        } else {
            (
                n,
                seq![
                    ExpectedConstruct::ValidIdent,
                    ExpectedConstruct::CloseBrace,
                    ExpectedConstruct::Number,
                    ExpectedConstruct::NumberColonIdent,
                    ExpectedConstruct::Star,
                    ExpectedConstruct::StarColonIdent,
                ],
                Some(CAPTURE_BLOCK_SHORT@),
            )
        }
    } else {
        (b, seq![ExpectedConstruct::UnhandledError], None)
    }
}

/// `n` dashes.
pub open spec fn dashes(n: nat) -> Seq<char> {
    Seq::new(n, |i: int| '-')
}

/// The texts of the constructs, separated by `, `.
pub open spec fn join_expected(list: Seq<ExpectedConstruct>) -> Seq<char>
    decreases list.len(),
{
    if list.len() == 0 {
        Seq::empty()
    } else if list.len() == 1 {
        expected_text(list[0])
    } else {
        join_expected(list.drop_last()) + ", "@ + expected_text(list.last())
    }
}

/// How a parse error is shown: the input, a line pointing at the offset, the expected
/// constructs, and the message if there is one.
pub open spec fn error_text(
    input: Seq<char>,
    offset: nat,
    expected: Seq<ExpectedConstruct>,
    reason: Option<Seq<char>>,
) -> Seq<char> {
    seq!['\n'] + input + seq!['\n'] + dashes(offset) + seq!['^', '\n'] + "Expected one of: "@
        + join_expected(expected) + seq!['.'] + match reason {
        Some(m) => seq!['\n'] + "Message:         '"@ + m + seq!['\''],
        None => Seq::empty(),
    }
}

/// Information for showing a user why their matcher string could not be parsed.
#[derive(Debug, PartialEq)]
pub struct YewRouterParseError<'a> {
    /// The matcher string.
    pub input: &'a str,
    /// The position (in bytes of UTF-8) to point at.
    pub offset: usize,
    /// Constructs that could have appeared there.
    pub expected: Vec<ExpectedConstruct>,
    /// An explanation, where one is known.
    pub reason: Option<String>,
}

/// The model of an optional message.
pub open spec fn reason_view(r: Option<String>) -> Option<Seq<char>> {
    match r {
        Some(s) => Some(s@),
        None => None,
    }
}

impl<'a> YewRouterParseError<'a> {
    /// Builds the report for parsing `input` that stopped where `err` says.
    pub fn from_verbose_error(input: &'a str, err: ParseFailure) -> (r: Self)
        requires
            err.offset <= input@.len(),
            utf8_len(input@) <= usize::MAX,
        ensures
            r.input == input,
            (r.offset as int, r.expected@, reason_view(r.reason)) == report(input@, err.offset as int),
    {
        let a = chars_of(input);
        let e = err.offset;
        let b = crate::text::chars_from(&a, e);
        let ghost sub = input@.skip(e as int);
        assert(b@ == sub);
        proof { lemma_utf8_len_split(input@, e as int); }
        let bo = utf8_len_exec(&a, e);
        let mut expected: Vec<ExpectedConstruct> = Vec::new();
        let mut off = bo;
        let reason: Option<String>;
        if bo == 0 {
            expected.push(ExpectedConstruct::Slash);
            expected.push(ExpectedConstruct::Question);
            expected.push(ExpectedConstruct::Hash);
            expected.push(ExpectedConstruct::OpenBrace);
            reason = Some(EMPTY_MATCH_NOT_ALLOWED.to_owned());
        } else if double_slash_chars(&a, &b, bo) {
            expected.push(ExpectedConstruct::ExactText);
            expected.push(ExpectedConstruct::OpenBrace);
            expected.push(ExpectedConstruct::OpenParen);
            expected.push(ExpectedConstruct::Question);
            expected.push(ExpectedConstruct::Hash);
            reason = Some(DOUBLE_SLASHES_NOT_ALLOWED.to_owned());
        } else if bad_capture_chars(&a, &b, bo) {
            let k = find_bad_chars(&b);
            proof { lemma_utf8_len_split(b@, k as int); }
            let n = bo + utf8_len_exec(&b, k);
            if n > bo + 1 {
                off = n;
                expected.push(ExpectedConstruct::CloseBrace);
                reason = Some(CAPTURE_BLOCK_LONG.to_owned());
            } else {
                off = n;
                expected.push(ExpectedConstruct::ValidIdent);
                expected.push(ExpectedConstruct::CloseBrace);
                expected.push(ExpectedConstruct::Number);
                expected.push(ExpectedConstruct::NumberColonIdent);
                expected.push(ExpectedConstruct::Star);
                expected.push(ExpectedConstruct::StarColonIdent);
                reason = Some(CAPTURE_BLOCK_SHORT.to_owned());
            }
        } else {
            expected.push(ExpectedConstruct::UnhandledError);
            reason = None;
        }
        let r = YewRouterParseError { input, offset: off, expected, reason };
        assert(r.expected@ =~= report(input@, e as int).1);
        r
    }

    /// The report as shown to a user.
    pub fn to_string(&self) -> (r: String)
        ensures
            r@ == error_text(self.input@, self.offset as nat, self.expected@, reason_view(self.reason)),
    {
        let mut r = String::new();
        r.push('\n');
        append_str(&mut r, self.input);
        r.push('\n');
        let mut i: usize = 0;
        let ghost head = r@;
        while i < self.offset
            invariant
                i <= self.offset,
                r@ == head + dashes(i as nat),
            decreases self.offset - i,
        {
            r.push('-');
            i = i + 1;
            assert(r@ =~= head + dashes(i as nat));
        }
        r.push('^');
        r.push('\n');
        append_str(&mut r, "Expected one of: ");
        let ghost head2 = r@;
        let mut k: usize = 0;
        assert(self.expected@.take(0) =~= Seq::<ExpectedConstruct>::empty());
        assert(r@ =~= head2 + join_expected(self.expected@.take(0)));
        while k < self.expected.len()
            invariant
                k <= self.expected@.len(),
                r@ == head2 + join_expected(self.expected@.take(k as int)),
            decreases self.expected@.len() - k,
        {
            assert(self.expected@.take(k + 1).drop_last() =~= self.expected@.take(k as int));
            if k > 0 {
                append_str(&mut r, ", ");
            }
            append_str(&mut r, self.expected[k].text());
            k = k + 1;
            proof {
                if k == 1 {
                    assert(self.expected@.take(1)[0] == self.expected@[0]);
                }
            }
            assert(r@ =~= head2 + join_expected(self.expected@.take(k as int)));
        }
        assert(self.expected@.take(k as int) =~= self.expected@);
        r.push('.');
        match &self.reason {
            Some(m) => {
                r.push('\n');
                append_str(&mut r, "Message:         '");
                append_str(&mut r, m.as_str());
                r.push('\'');
            },
            None => {},
        }
        assert(r@ =~= error_text(self.input@, self.offset as nat, self.expected@, reason_view(self.reason)));
        r
    }

    /// Builds the report for a failed parse of `input`; every failure has one.
    pub fn from_err(input: &'a str, err: ParseFailure) -> (r: Option<Self>)
        requires
            err.offset <= input@.len(),
            utf8_len(input@) <= usize::MAX,
        ensures
            match r {
                Some(p) => p.input == input && (p.offset as int, p.expected@, reason_view(p.reason))
                    == report(input@, err.offset as int),
                None => false,
            },
    {
        Some(YewRouterParseError::from_verbose_error(input, err))
    }
}

} // verus!
