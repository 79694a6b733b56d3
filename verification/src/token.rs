//! Tokens of a parsed matcher string and their mathematical models.
use vstd::prelude::*;

verus! {

/// The kinds of capture sections, written between `{` and `}`.
#[derive(Debug, Clone, PartialEq, Eq)]
pub enum CaptureVariant {
    /// `{}`: matches anything within a section.
    Unnamed,
    /// `{*}`: matches over several sections.
    ManyUnnamed,
    /// `{4}`: matches the given number of sections.
    NumberedUnnamed {
        /// Number of sections to match.
        sections: usize,
    },
    /// `{name}`: captures a section under a name.
    Named(String),
    /// `{*:name}`: captures over several sections under a name.
    ManyNamed(String),
    /// `{2:name}`: captures a fixed number of sections under a name.
    NumberedNamed {
        /// Number of sections to match.
        sections: usize,
        /// The key under which the captured text is stored.
        name: String,
    },
}

/// Mathematical model of a [`CaptureVariant`].
pub enum CaptureModel {
    Unnamed,
    ManyUnnamed,
    NumberedUnnamed(nat),
    Named(Seq<char>),
    ManyNamed(Seq<char>),
    NumberedNamed(nat, Seq<char>),
}

impl View for CaptureVariant {
    type V = CaptureModel;

    open spec fn view(&self) -> CaptureModel {
        match self {
            CaptureVariant::Unnamed => CaptureModel::Unnamed,
            CaptureVariant::ManyUnnamed => CaptureModel::ManyUnnamed,
            CaptureVariant::NumberedUnnamed { sections } => CaptureModel::NumberedUnnamed(*sections as nat),
            CaptureVariant::Named(n) => CaptureModel::Named(n@),
            CaptureVariant::ManyNamed(n) => CaptureModel::ManyNamed(n@),
            CaptureVariant::NumberedNamed { sections, name } => CaptureModel::NumberedNamed(*sections as nat, name@),
        }
    }
}

/// Either a capture or a literal.
#[derive(Debug, Clone, PartialEq, Eq)]
pub enum CaptureOrMatch {
    /// Match a specific string.
    Match(String),
    /// Match a capture.
    Capture(CaptureVariant),
}

/// Mathematical model of a [`CaptureOrMatch`].
pub enum CaptureOrMatchModel {
    Match(Seq<char>),
    Capture(CaptureModel),
}

impl View for CaptureOrMatch {
    type V = CaptureOrMatchModel;

    open spec fn view(&self) -> CaptureOrMatchModel {
        match self {
            CaptureOrMatch::Match(m) => CaptureOrMatchModel::Match(m@),
            CaptureOrMatch::Capture(c) => CaptureOrMatchModel::Capture(c@),
        }
    }
}

/// Tokens produced by parsing a matcher string.
#[derive(Debug, PartialEq, Eq)]
pub enum RouteParserToken {
    /// `/`
    Separator,
    /// A literal run of identifier characters.
    Match(String),
    /// A capture section `{..}`.
    Capture(CaptureVariant),
    /// `?`
    QueryBegin,
    /// `&`
    QuerySeparator,
    /// `ident=value` inside a query.
    QueryCapture {
        /// The query key.
        ident: String,
        /// The query value.
        capture_or_match: CaptureOrMatch,
    },
    /// `#`
    FragmentBegin,
    /// A section in parentheses that may be absent.
    Optional(Vec<RouteParserToken>),
}

/// Mathematical model of a [`RouteParserToken`].
pub enum TokenModel {
    Separator,
    Match(Seq<char>),
    Capture(CaptureModel),
    QueryBegin,
    QuerySeparator,
    QueryCapture(Seq<char>, CaptureOrMatchModel),
    FragmentBegin,
    Optional(Seq<TokenModel>),
}

/// The model of one token.
pub open spec fn token_view(t: RouteParserToken) -> TokenModel
    decreases t, 1int,
{
    match t {
        RouteParserToken::Separator => TokenModel::Separator,
        RouteParserToken::Match(m) => TokenModel::Match(m@),
        RouteParserToken::Capture(c) => TokenModel::Capture(c@),
        RouteParserToken::QueryBegin => TokenModel::QueryBegin,
        RouteParserToken::QuerySeparator => TokenModel::QuerySeparator,
        RouteParserToken::QueryCapture { ident, capture_or_match } => TokenModel::QueryCapture(ident@, capture_or_match@),
        RouteParserToken::FragmentBegin => TokenModel::FragmentBegin,
        RouteParserToken::Optional(v) => TokenModel::Optional(tokens_view(v@)),
    }
}

/// The model of a sequence of tokens, element by element.
pub open spec fn tokens_view(s: Seq<RouteParserToken>) -> Seq<TokenModel>
    decreases s, 0int,
{
    if s.len() == 0 {
        Seq::empty()
    } else {
        tokens_view(s.drop_last()).push(token_view(s.last()))
    }
}

/// Pushing a token pushes its model.
pub proof fn lemma_tokens_view_push(s: Seq<RouteParserToken>, t: RouteParserToken)
    ensures
        tokens_view(s.push(t)) == tokens_view(s).push(token_view(t)),
{
    assert(s.push(t).drop_last() =~= s);
}

/// The model of a sequence has the same length, and each element is the model of the
/// corresponding token.
pub proof fn lemma_tokens_view_index(s: Seq<RouteParserToken>)
    ensures
        tokens_view(s).len() == s.len(),
        forall|i: int| 0 <= i < s.len() ==> #[trigger] tokens_view(s)[i] == token_view(s[i]),
    decreases s.len(),
{
    if s.len() > 0 {
        lemma_tokens_view_index(s.drop_last());
    }
}

/// The model of a concatenation is the concatenation of the models.
pub proof fn lemma_tokens_view_add(a: Seq<RouteParserToken>, b: Seq<RouteParserToken>)
    ensures
        tokens_view(a + b) == tokens_view(a) + tokens_view(b),
{
    lemma_tokens_view_index(a + b);
    lemma_tokens_view_index(a);
    lemma_tokens_view_index(b);
    assert(tokens_view(a + b) =~= tokens_view(a) + tokens_view(b));
}

} // verus!
