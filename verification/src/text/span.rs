//! Styled text: a flat sequence of styled spans, the engine's
//! transport-neutral representation of all player-facing output.

use vstd::prelude::*;
use vstd::string::StringExecFns;
use super::style::{RoleName, SpanStyle, SpanStyleModel, Style};

verus! {

/// A run of text sharing one [`SpanStyle`].
#[derive(Debug, Clone, PartialEq, Eq)]
pub struct Span {
    text: String,
    style: SpanStyle,
}

/// A span over plain values.
pub struct SpanModel {
    pub text: Seq<char>,
    pub style: SpanStyleModel,
}

impl View for Span {
    type V = SpanModel;

    closed spec fn view(&self) -> SpanModel {
        SpanModel { text: self.text@, style: self.style@ }
    }
}

impl Span {
    /// An unstyled span.
    pub fn plain(text: &str) -> (r: Self)
        ensures
            r@ == (SpanModel { text: text@, style: SpanStyleModel::Plain }),
    {
        Span { text: text.to_owned(), style: SpanStyle::Plain }
    }

    /// A span carrying an already-resolved [`Style`].
    pub fn styled(text: &str, style: Style) -> (r: Self)
        ensures
            r@ == (SpanModel { text: text@, style: SpanStyleModel::Direct(style) }),
    {
        Span { text: text.to_owned(), style: SpanStyle::Direct(style) }
    }

    /// A span carrying a semantic role, resolved at render time.
    pub fn role(text: &str, role: RoleName) -> (r: Self)
        ensures
            r@ == (SpanModel { text: text@, style: SpanStyleModel::Role(role@) }),
    {
        Span { text: text.to_owned(), style: SpanStyle::Role(role) }
    }

    /// The span's text.
    pub fn text(&self) -> (r: &str)
        ensures
            r@ == self@.text,
    {
        self.text.as_str()
    }

    /// How the span is styled.
    pub fn style(&self) -> (r: &SpanStyle)
        ensures
            r@ == self@.style,
    {
        &self.style
    }
}

/// The plain-value forms of a list of spans.
pub open spec fn spans_view(v: Seq<Span>) -> Seq<SpanModel> {
    v.map_values(|s: Span| s@)
}

/// The concatenated text of `spans`.
pub open spec fn plain_text(spans: Seq<SpanModel>) -> Seq<char>
    decreases spans.len(),
{
    if spans.len() == 0 {
        Seq::empty()
    } else {
        plain_text(spans.drop_last()) + spans.last().text
    }
}

/// A flat sequence of [`Span`]s.
#[derive(Debug, Clone, PartialEq, Eq)]
pub struct StyledText {
    spans: Vec<Span>,
}

impl View for StyledText {
    type V = Seq<SpanModel>;

    closed spec fn view(&self) -> Seq<SpanModel> {
        spans_view(self.spans@)
    }
}

impl Default for StyledText {
    /// Empty styled text.
    fn default() -> (r: Self)
        ensures
            r@ == Seq::<SpanModel>::empty(),
    {
        StyledText::new()
    }
}

impl StyledText {
    /// Empty styled text.
    pub fn new() -> (r: Self)
        ensures
            r@ == Seq::<SpanModel>::empty(),
    {
        let r = StyledText { spans: Vec::new() };
        assert(r@ =~= Seq::<SpanModel>::empty());
        r
    }

    /// Styled text of one unstyled span.
    pub fn from(text: &str) -> (r: Self)
        ensures
            r@ == seq![SpanModel { text: text@, style: SpanStyleModel::Plain }],
    {
        StyledText::new().plain(text)
    }

    /// The spans in order.
    pub fn spans(&self) -> (r: &[Span])
        ensures
            spans_view(r@) == self@,
    {
        self.spans.as_slice()
    }

    /// Appends `span`, returning `&mut self` for chaining.
    pub fn push(&mut self, span: Span) -> (r: &mut Self)
        ensures
            (*r)@ == old(self)@.push(span@),
            *final(self) == *final(r),
    {
        self.spans.push(span);
        assert(self@ =~= old(self)@.push(span@));
        self
    }

    /// Appends `span`.
    pub fn append(&mut self, span: Span)
        ensures
            final(self)@ == old(self)@.push(span@),
    {
        self.spans.push(span);
        assert(self@ =~= old(self)@.push(span@));
    }

    /// Appends an unstyled span.
    pub fn plain(self, text: &str) -> (r: Self)
        ensures
            r@ == self@.push(SpanModel { text: text@, style: SpanStyleModel::Plain }),
    {
        let mut t = self;
        t.append(Span::plain(text));
        t
    }

    /// Appends a directly-styled span.
    pub fn styled(self, text: &str, style: Style) -> (r: Self)
        ensures
            r@ == self@.push(SpanModel { text: text@, style: SpanStyleModel::Direct(style) }),
    {
        let mut t = self;
        t.append(Span::styled(text, style));
        t
    }

    /// Appends a role-styled span.
    pub fn role(self, text: &str, role: RoleName) -> (r: Self)
        ensures
            r@ == self@.push(SpanModel { text: text@, style: SpanStyleModel::Role(role@) }),
    {
        let mut t = self;
        t.append(Span::role(text, role));
        t
    }

    /// The concatenated text with all styling dropped.
    pub fn to_plain_string(&self) -> (r: String)
        ensures
            r@ == plain_text(self@),
    {
        let mut out = String::new();
        let mut i: usize = 0;
        while i < self.spans.len()
            invariant
                i <= self.spans@.len(),
                out@ == plain_text(self@.take(i as int)),
            decreases self.spans@.len() - i,
        {
            let ghost before = out@;
            out.append(self.spans[i].text());
            assert(self@.take(i + 1).drop_last() =~= self@.take(i as int));
            i = i + 1;
        }
        assert(self@.take(self@.len() as int) =~= self@);
        out
    }
}

} // verus!
