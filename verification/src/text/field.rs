//! Per-field markup policy.
//!
//! The engine — not the builder — decides what styling each authored field
//! admits. A room title is bold by default and takes no inline markup; a
//! description takes no default style but admits palette colors and a few
//! attributes.

use vstd::prelude::*;
use super::attributes::Attributes;
use super::style::Style;

verus! {

/// The styling policy for one authored field.
///
/// `default` seeds every span the field produces; `allow_colors` and
/// `allowed_attrs` gate which inline markup tags are honored — a tag outside
/// the policy keeps its inner text but contributes no style, alongside a
/// diagnostic.
#[derive(Debug, Clone, Copy, PartialEq, Eq, Structural)]
pub struct FieldStyle {
    /// The base style applied to the whole field before any inline markup.
    pub default: Style,
    /// Whether `{fg=…}` / `{bg=…}` palette-color tags are honored.
    pub allow_colors: bool,
    /// Which attribute tags (`{b}`/`{i}`/`{u}`) are honored.
    pub allowed_attrs: Attributes,
}

impl FieldStyle {
    /// A room title: bold by default, no inline markup.
    pub fn title() -> (r: Self)
        ensures
            r.default == Style::new_spec().with_attrs_spec(Attributes::bold_spec()),
            !r.allow_colors,
            r.allowed_attrs@ == 0,
    {
        FieldStyle { default: Style::new().with_attrs(Attributes::bold()), allow_colors: false, allowed_attrs: Attributes::none() }
    }

    /// A room description: no default style; admits palette colors and the
    /// bold / italic / underline attributes.
    pub fn description() -> (r: Self)
        ensures
            r.default == Style::new_spec(),
            r.allow_colors,
            r.allowed_attrs@ == 7,
    {
        let attrs = Attributes::bold().insert(Attributes::italic()).insert(Attributes::underline());
        assert(1u8 | 2u8 | 4u8 == 7u8) by (bit_vector);
        FieldStyle { default: Style::new(), allow_colors: true, allowed_attrs: attrs }
    }
}

} // verus!
