//! Styled text and its palette.
//!
//! Every player-facing string is representable as transport-neutral
//! `StyledText`: a flat sequence of spans, each a string plus a `SpanStyle`.
//! Builders author styled fields with a compact `{tag}…{/}` markup compiled
//! under a per-field `FieldStyle` policy, resolving named colors through a
//! `Palette`.

pub mod attributes;
pub mod color;
pub mod style;
pub mod span;
pub mod field;
pub mod palette;
pub mod markup;
