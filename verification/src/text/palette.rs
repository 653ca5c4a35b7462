//! The palette: semantic roles and named colors mapped to concrete styles.
//!
//! The engine ships a baseline palette defining its own roles and the sixteen
//! standard named colors. A tenant palette is layered on top, overriding roles
//! and adding named colors. Resolution is pure: an unknown role or color
//! resolves to `None`.

use vstd::prelude::*;
use crate::names::NameMap;
use super::attributes::Attributes;
use super::color::Color;
use super::style::{RoleName, Style};

verus! {

/// The baseline named colors.
pub open spec fn baseline_colors() -> Map<Seq<char>, Color> {
    Map::<Seq<char>, Color>::empty()
        .insert("black"@, Color::rgb_spec(0x00, 0x00, 0x00))
        .insert("red"@, Color::rgb_spec(0xcc, 0x00, 0x00))
        .insert("green"@, Color::rgb_spec(0x4e, 0x9a, 0x06))
        .insert("yellow"@, Color::rgb_spec(0xc4, 0xa0, 0x00))
        .insert("blue"@, Color::rgb_spec(0x34, 0x65, 0xa4))
        .insert("magenta"@, Color::rgb_spec(0x75, 0x50, 0x7b))
        .insert("cyan"@, Color::rgb_spec(0x06, 0x98, 0x9a))
        .insert("white"@, Color::rgb_spec(0xd3, 0xd7, 0xcf))
        .insert("bright_black"@, Color::rgb_spec(0x55, 0x57, 0x53))
        .insert("bright_red"@, Color::rgb_spec(0xef, 0x29, 0x29))
        .insert("bright_green"@, Color::rgb_spec(0x8a, 0xe2, 0x34))
        .insert("bright_yellow"@, Color::rgb_spec(0xfc, 0xe9, 0x4f))
        .insert("bright_blue"@, Color::rgb_spec(0x72, 0x9f, 0xcf))
        .insert("bright_magenta"@, Color::rgb_spec(0xad, 0x7f, 0xa8))
        .insert("bright_cyan"@, Color::rgb_spec(0x34, 0xe2, 0xe2))
        .insert("bright_white"@, Color::rgb_spec(0xee, 0xee, 0xec))
}

/// The baseline roles.
pub open spec fn baseline_roles() -> Map<Seq<char>, Style> {
    Map::<Seq<char>, Style>::empty()
        .insert("error"@, Style::new_spec().with_fg_spec(Color::rgb_spec(0xff, 0x55, 0x55)))
        .insert("system"@, Style::new_spec().with_fg_spec(Color::rgb_spec(0x7a, 0xa2, 0xf7)))
        .insert("alert"@, Style::new_spec().with_fg_spec(Color::rgb_spec(0xff, 0xff, 0xff)).with_bg_spec(Color::rgb_spec(0xaa, 0x00, 0x00)).with_attrs_spec(Attributes::bold_spec()))
        .insert("prompt"@, Style::new_spec().with_fg_spec(Color::rgb_spec(0x9e, 0xce, 0x6a)))
        .insert("say"@, Style::new_spec().with_fg_spec(Color::rgb_spec(0xcd, 0xd6, 0xf4)))
        .insert("emote"@, Style::new_spec().with_fg_spec(Color::rgb_spec(0xba, 0xc2, 0xde)))
        .insert("tell"@, Style::new_spec().with_fg_spec(Color::rgb_spec(0xf5, 0xc2, 0xe7)))
}

/// A map from semantic roles and named colors to concrete styles.
#[derive(Debug, Clone, PartialEq, Eq)]
pub struct Palette {
    roles: NameMap<Style>,
    colors: NameMap<Color>,
}

impl Palette {
    /// The defined roles and their styles.
    pub closed spec fn roles_spec(&self) -> Map<Seq<char>, Style> {
        self.roles.map()
    }

    /// The defined named colors.
    pub closed spec fn colors_spec(&self) -> Map<Seq<char>, Color> {
        self.colors.map()
    }

    /// The engine-default baseline palette: the baseline roles and the
    /// sixteen standard named colors.
    pub fn baseline() -> (r: Self)
        ensures
            r.roles_spec() == baseline_roles(),
            r.colors_spec() == baseline_colors(),
    {
        let mut colors: NameMap<Color> = NameMap::new();
        colors.insert("black".to_owned(), Color::rgb(0x00, 0x00, 0x00));
        colors.insert("red".to_owned(), Color::rgb(0xcc, 0x00, 0x00));
        colors.insert("green".to_owned(), Color::rgb(0x4e, 0x9a, 0x06));
        colors.insert("yellow".to_owned(), Color::rgb(0xc4, 0xa0, 0x00));
        colors.insert("blue".to_owned(), Color::rgb(0x34, 0x65, 0xa4));
        colors.insert("magenta".to_owned(), Color::rgb(0x75, 0x50, 0x7b));
        colors.insert("cyan".to_owned(), Color::rgb(0x06, 0x98, 0x9a));
        colors.insert("white".to_owned(), Color::rgb(0xd3, 0xd7, 0xcf));
        colors.insert("bright_black".to_owned(), Color::rgb(0x55, 0x57, 0x53));
        colors.insert("bright_red".to_owned(), Color::rgb(0xef, 0x29, 0x29));
        colors.insert("bright_green".to_owned(), Color::rgb(0x8a, 0xe2, 0x34));
        colors.insert("bright_yellow".to_owned(), Color::rgb(0xfc, 0xe9, 0x4f));
        colors.insert("bright_blue".to_owned(), Color::rgb(0x72, 0x9f, 0xcf));
        colors.insert("bright_magenta".to_owned(), Color::rgb(0xad, 0x7f, 0xa8));
        colors.insert("bright_cyan".to_owned(), Color::rgb(0x34, 0xe2, 0xe2));
        colors.insert("bright_white".to_owned(), Color::rgb(0xee, 0xee, 0xec));
        let mut roles: NameMap<Style> = NameMap::new();
        roles.insert(RoleName::error().as_str().to_owned(), Style::new().with_fg(Color::rgb(0xff, 0x55, 0x55)));
        roles.insert(RoleName::system().as_str().to_owned(), Style::new().with_fg(Color::rgb(0x7a, 0xa2, 0xf7)));
        roles.insert(RoleName::alert().as_str().to_owned(), Style::new().with_fg(Color::rgb(0xff, 0xff, 0xff)).with_bg(Color::rgb(0xaa, 0x00, 0x00)).with_attrs(Attributes::bold()));
        roles.insert(RoleName::prompt().as_str().to_owned(), Style::new().with_fg(Color::rgb(0x9e, 0xce, 0x6a)));
        roles.insert(RoleName::say().as_str().to_owned(), Style::new().with_fg(Color::rgb(0xcd, 0xd6, 0xf4)));
        roles.insert(RoleName::emote().as_str().to_owned(), Style::new().with_fg(Color::rgb(0xba, 0xc2, 0xde)));
        roles.insert(RoleName::tell().as_str().to_owned(), Style::new().with_fg(Color::rgb(0xf5, 0xc2, 0xe7)));
        Palette { roles, colors }
    }

    /// The style for `role`, or `None` if the palette does not define it.
    pub fn resolve_role(&self, role: &RoleName) -> (r: Option<Style>)
        ensures
            r == (if self.roles_spec().contains_key(role@) { Some(self.roles_spec()[role@]) } else { None::<Style> }),
    {
        self.roles.get(role.as_str())
    }

    /// The color named `name`, or `None` if the palette does not define it.
    pub fn color(&self, name: &str) -> (r: Option<Color>)
        ensures
            r == (if self.colors_spec().contains_key(name@) { Some(self.colors_spec()[name@]) } else { None::<Color> }),
    {
        self.colors.get(name)
    }

    /// Defines or overrides the style for `role`.
    pub fn insert_role(&mut self, role: RoleName, style: Style)
        ensures
            final(self).roles_spec() == old(self).roles_spec().insert(role@, style),
            final(self).colors_spec() == old(self).colors_spec(),
    {
        self.roles.insert(role.as_str().to_owned(), style);
    }

    /// Defines or overrides a named color.
    pub fn insert_color(&mut self, name: &str, color: Color)
        ensures
            final(self).colors_spec() == old(self).colors_spec().insert(name@, color),
            final(self).roles_spec() == old(self).roles_spec(),
    {
        self.colors.insert(name.to_owned(), color);
    }
}

} // verus!
