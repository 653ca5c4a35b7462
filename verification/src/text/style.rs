//! Concrete styles, semantic role names, and the per-span style choice.

use vstd::prelude::*;
use super::attributes::Attributes;
use super::color::Color;

verus! {

/// A concrete, already-resolved style: an optional foreground and background
/// color plus a set of attributes.
#[derive(Debug, Clone, Copy, PartialEq, Eq, Structural, Hash)]
pub struct Style {
    fg: Option<Color>,
    bg: Option<Color>,
    attrs: Attributes,
}

impl Default for Style {
    /// An unstyled style.
    fn default() -> (r: Self)
        ensures
            r == Style::new_spec(),
    {
        Style::new()
    }
}

impl Style {
    /// The unstyled style, over plain values.
    pub closed spec fn new_spec() -> Style {
        Style { fg: None, bg: None, attrs: Attributes::none_spec() }
    }

    /// The foreground color, over plain values.
    pub closed spec fn fg_spec(self) -> Option<Color> {
        self.fg
    }

    /// The background color, over plain values.
    pub closed spec fn bg_spec(self) -> Option<Color> {
        self.bg
    }

    /// The attribute set, over plain values.
    pub closed spec fn attrs_spec(self) -> Attributes {
        self.attrs
    }

    /// `self` with the foreground set to `c`.
    pub closed spec fn with_fg_spec(self, c: Color) -> Style {
        Style { fg: Some(c), ..self }
    }

    /// `self` with the background set to `c`.
    pub closed spec fn with_bg_spec(self, c: Color) -> Style {
        Style { bg: Some(c), ..self }
    }

    /// `self` with `a` added to its attributes.
    pub closed spec fn with_attrs_spec(self, a: Attributes) -> Style {
        Style { attrs: self.attrs.union_spec(a), ..self }
    }

    /// No color and no attribute.
    pub open spec fn is_unstyled_spec(self) -> bool {
        self.fg_spec() is None && self.bg_spec() is None && self.attrs_spec()@ == 0
    }

    /// What each builder sets, and that a style is its three parts.
    pub proof fn lemma_parts(self, c: Color, a: Attributes)
        ensures
            Style::new_spec().fg_spec() is None,
            Style::new_spec().bg_spec() is None,
            Style::new_spec().attrs_spec()@ == 0,
            self.with_fg_spec(c).fg_spec() == Some(c),
            self.with_fg_spec(c).bg_spec() == self.bg_spec(),
            self.with_fg_spec(c).attrs_spec() == self.attrs_spec(),
            self.with_bg_spec(c).bg_spec() == Some(c),
            self.with_bg_spec(c).fg_spec() == self.fg_spec(),
            self.with_bg_spec(c).attrs_spec() == self.attrs_spec(),
            self.with_attrs_spec(a).attrs_spec() == self.attrs_spec().union_spec(a),
            self.with_attrs_spec(a).fg_spec() == self.fg_spec(),
            self.with_attrs_spec(a).bg_spec() == self.bg_spec(),
    {
        Attributes::lemma_none_bits();
    }

    /// An unstyled style: no colors, no attributes.
    pub fn new() -> (r: Self)
        ensures
            r == Style::new_spec(),
    {
        Style { fg: None, bg: None, attrs: Attributes::none() }
    }

    /// Returns `self` with the foreground set to `color`.
    pub fn with_fg(self, color: Color) -> (r: Self)
        ensures
            r == self.with_fg_spec(color),
    {
        Style { fg: Some(color), ..self }
    }

    /// Returns `self` with the background set to `color`.
    pub fn with_bg(self, color: Color) -> (r: Self)
        ensures
            r == self.with_bg_spec(color),
    {
        Style { bg: Some(color), ..self }
    }

    /// Returns `self` with `attrs` added to its attribute set.
    pub fn with_attrs(self, attrs: Attributes) -> (r: Self)
        ensures
            r == self.with_attrs_spec(attrs),
    {
        Style { attrs: self.attrs.insert(attrs), ..self }
    }

    /// The foreground color, if any.
    pub fn fg(self) -> (r: Option<Color>)
        ensures
            r == self.fg_spec(),
    {
        self.fg
    }

    /// The background color, if any.
    pub fn bg(self) -> (r: Option<Color>)
        ensures
            r == self.bg_spec(),
    {
        self.bg
    }

    /// The attribute set.
    pub fn attrs(self) -> (r: Attributes)
        ensures
            r == self.attrs_spec(),
    {
        self.attrs
    }

    /// Returns `true` if this style carries no color and no attribute, so
    /// rendering it produces no escape sequence.
    pub fn is_unstyled(self) -> (r: bool)
        ensures
            r == self.is_unstyled_spec(),
    {
        self.fg.is_none() && self.bg.is_none() && self.attrs.is_empty()
    }
}

/// The name of a semantic role, e.g. `error` or `say`.
///
/// An open string newtype rather than a closed enum: a tenant palette may add
/// roles, and an unknown role resolves to unstyled rather than failing.
#[derive(Debug, Clone, PartialEq, Eq, Hash)]
pub struct RoleName(String);

impl View for RoleName {
    type V = Seq<char>;

    closed spec fn view(&self) -> Seq<char> {
        self.0@
    }
}

impl RoleName {
    /// A role name from a `'static` string.
    pub fn from_static(name: &'static str) -> (r: Self)
        ensures
            r@ == name@,
    {
        RoleName(name.to_owned())
    }

    /// A role name owning its text, for names parsed from a palette or markup.
    pub fn new(name: &str) -> (r: Self)
        ensures
            r@ == name@,
    {
        RoleName(name.to_owned())
    }

    /// The role name text.
    pub fn as_str(&self) -> (r: &str)
        ensures
            r@ == self@,
    {
        self.0.as_str()
    }

    /// The text, as an owned string.
    pub fn to_string(&self) -> (r: String)
        ensures
            r@ == self@,
    {
        self.0.clone()
    }

    /// A copy of this name.
    pub fn duplicate(&self) -> (r: Self)
        ensures
            r@ == self@,
    {
        RoleName(self.0.clone())
    }

    /// The `error` role.
    pub fn error() -> (r: Self)
        ensures
            r@ == "error"@,
    {
        RoleName::from_static("error")
    }

    /// The `system` role.
    pub fn system() -> (r: Self)
        ensures
            r@ == "system"@,
    {
        RoleName::from_static("system")
    }

    /// The `alert` role.
    pub fn alert() -> (r: Self)
        ensures
            r@ == "alert"@,
    {
        RoleName::from_static("alert")
    }

    /// The `prompt` role.
    pub fn prompt() -> (r: Self)
        ensures
            r@ == "prompt"@,
    {
        RoleName::from_static("prompt")
    }

    /// The `say` role.
    pub fn say() -> (r: Self)
        ensures
            r@ == "say"@,
    {
        RoleName::from_static("say")
    }

    /// The `emote` role.
    pub fn emote() -> (r: Self)
        ensures
            r@ == "emote"@,
    {
        RoleName::from_static("emote")
    }

    /// The `tell` role.
    pub fn tell() -> (r: Self)
        ensures
            r@ == "tell"@,
    {
        RoleName::from_static("tell")
    }
}

/// How a single span is styled.
///
/// A separate enum (rather than a `Style` with an optional role) makes "a role
/// and a conflicting direct color" unrepresentable, and keeps a role
/// unresolved until render time.
#[derive(Debug, Clone, PartialEq, Eq)]
pub enum SpanStyle {
    /// Unstyled text.
    Plain,
    /// An already-resolved direct style.
    Direct(Style),
    /// A semantic role, resolved against the session palette at render time.
    Role(RoleName),
}

/// A span style over plain values.
pub enum SpanStyleModel {
    Plain,
    Direct(Style),
    Role(Seq<char>),
}

impl View for SpanStyle {
    type V = SpanStyleModel;

    open spec fn view(&self) -> SpanStyleModel {
        match self {
            SpanStyle::Plain => SpanStyleModel::Plain,
            SpanStyle::Direct(s) => SpanStyleModel::Direct(*s),
            SpanStyle::Role(r) => SpanStyleModel::Role(r@),
        }
    }
}

} // verus!
