//! The builder-markup compiler.
//!
//! Compiles a `{tag}…{/}` markup string into flat [`StyledText`], enforcing a
//! per-field [`FieldStyle`] policy and resolving palette named colors.
//!
//! The compiler never aborts: a malformed, unknown, or policy-disallowed tag
//! keeps its inner text and records a [`MarkupDiagnostic`]. It is a tolerant
//! single-pass scanner with a style stack.
//!
//! Tags: `{b}` / `{i}` / `{u}` (attributes), `{fg=<name>}` / `{bg=<name>}`
//! (palette named colors — raw hex is not a palette name and so is rejected),
//! `{/}` (close the nearest open tag). Literal braces are written `{{` and `}}`.

use vstd::prelude::*;
use vstd::string::StringExecFns;
use crate::chars::{chars_of, debug_quote, debug_str_of, decimal, decimal_spec, joined, push_char, string_of};
use super::attributes::Attributes;
use super::color::Color;
use super::field::FieldStyle;
use super::palette::Palette;
use super::span::{Span, SpanModel, StyledText};
use super::style::{SpanStyleModel, Style};

verus! {

/// The result of compiling builder markup: the styled text plus any
/// diagnostics raised while degrading malformed or disallowed tags.
#[derive(Debug, Clone, PartialEq, Eq)]
pub struct CompiledMarkup {
    /// The compiled styled text.
    pub text: StyledText,
    /// Non-fatal problems found while compiling.
    pub diagnostics: Vec<MarkupDiagnostic>,
}

/// A non-fatal problem found while compiling markup. Each is degraded in
/// place — the inner text is preserved — and reported.
#[derive(Debug, Clone, PartialEq, Eq)]
#[non_exhaustive]
pub enum MarkupDiagnostic {
    /// A `{fg=…}` / `{bg=…}` tag named a color the palette does not define.
    UnknownColor(String),
    /// A tag is not permitted for this field, or is not a recognized tag.
    DisallowedTag(String),
    /// The markup was malformed (an unterminated tag, an unmatched `{/}`, or a
    /// tag left open at the end of input).
    Malformed(String),
}

/// A diagnostic over plain values.
pub enum DiagModel {
    UnknownColor(Seq<char>),
    DisallowedTag(Seq<char>),
    Malformed(Seq<char>),
}

impl View for MarkupDiagnostic {
    type V = DiagModel;

    open spec fn view(&self) -> DiagModel {
        match self {
            MarkupDiagnostic::UnknownColor(s) => DiagModel::UnknownColor(s@),
            MarkupDiagnostic::DisallowedTag(s) => DiagModel::DisallowedTag(s@),
            MarkupDiagnostic::Malformed(s) => DiagModel::Malformed(s@),
        }
    }
}

impl MarkupDiagnostic {
    /// The human-readable message for this diagnostic.
    pub fn message(&self) -> (r: String)
        ensures
            r@ == (match self {
                MarkupDiagnostic::UnknownColor(name) => "unknown color name "@ + debug_str_of(name@),
                MarkupDiagnostic::DisallowedTag(tag) => "disallowed or unknown tag "@ + debug_str_of(tag@),
                MarkupDiagnostic::Malformed(what) => "malformed markup: "@ + what@,
            }),
    {
        match self {
            MarkupDiagnostic::UnknownColor(name) => joined("unknown color name ", debug_quote(name.as_str()).as_str()),
            MarkupDiagnostic::DisallowedTag(tag) => joined("disallowed or unknown tag ", debug_quote(tag.as_str()).as_str()),
            MarkupDiagnostic::Malformed(what) => joined("malformed markup: ", what.as_str()),
        }
    }
}

/// The plain-value forms of a list of diagnostics.
pub open spec fn diags_view(v: Seq<MarkupDiagnostic>) -> Seq<DiagModel> {
    v.map_values(|d: MarkupDiagnostic| d@)
}

/// The compiler's state: the spans emitted, the diagnostics raised, the open
/// tags' styles, and the text not yet emitted.
pub struct MarkupState {
    pub out: Seq<SpanModel>,
    pub diags: Seq<DiagModel>,
    pub stack: Seq<Style>,
    pub buf: Seq<char>,
}

/// One open tag's contribution laid over `acc`: its colors replace, its
/// attributes add.
pub open spec fn layer_spec(acc: Style, layer: Style) -> Style {
    let a1 = match layer.fg_spec() {
        Some(c) => acc.with_fg_spec(c),
        None => acc,
    };
    let a2 = match layer.bg_spec() {
        Some(c) => a1.with_bg_spec(c),
        None => a1,
    };
    a2.with_attrs_spec(layer.attrs_spec())
}

/// The field default merged with every open tag, innermost last.
pub open spec fn effective_spec(default: Style, stack: Seq<Style>) -> Style
    decreases stack.len(),
{
    if stack.len() == 0 {
        default
    } else {
        layer_spec(effective_spec(default, stack.drop_last()), stack.last())
    }
}

/// Emits the buffered text as one span under the current effective style.
pub open spec fn flush_spec(st: MarkupState, field: FieldStyle) -> MarkupState {
    if st.buf.len() == 0 {
        st
    } else {
        let s = effective_spec(field.default, st.stack);
        let style = if s.is_unstyled_spec() { SpanStyleModel::Plain } else { SpanStyleModel::Direct(s) };
        MarkupState { out: st.out.push(SpanModel { text: st.buf, style }), buf: Seq::empty(), ..st }
    }
}

/// The attribute an attribute tag (`b`/`i`/`u`) names.
pub open spec fn attribute_tag_spec(tag: Seq<char>) -> Option<Attributes> {
    if tag == seq!['b'] {
        Some(Attributes::bold_spec())
    } else if tag == seq!['i'] {
        Some(Attributes::italic_spec())
    } else if tag == seq!['u'] {
        Some(Attributes::underline_spec())
    } else {
        None
    }
}

/// The palette color a color tag names, if the field admits colors.
pub open spec fn color_style_spec(field: FieldStyle, colors: Map<Seq<char>, Color>, name: Seq<char>) -> Result<Color, DiagModel> {
    if !field.allow_colors {
        Err(DiagModel::DisallowedTag("color "@ + debug_str_of(name)))
    } else if colors.contains_key(name) {
        Ok(colors[name])
    } else {
        Err(DiagModel::UnknownColor(name))
    }
}

/// `tag` starts with the three characters `x`, `g`, `=`.
pub open spec fn has_color_prefix(tag: Seq<char>, x: char) -> bool {
    tag.len() >= 3 && tag[0] == x && tag[1] == 'g' && tag[2] == '='
}

/// The style a (non-closing) tag contributes, or the diagnostic it raises.
pub open spec fn resolve_tag_spec(field: FieldStyle, colors: Map<Seq<char>, Color>, tag: Seq<char>) -> Result<Style, DiagModel> {
    match attribute_tag_spec(tag) {
        Some(a) => if field.allowed_attrs@ & a@ == a@ {
            Ok(Style::new_spec().with_attrs_spec(a))
        } else {
            Err(DiagModel::DisallowedTag(tag))
        },
        None => if has_color_prefix(tag, 'f') {
            match color_style_spec(field, colors, tag.skip(3)) {
                Ok(c) => Ok(Style::new_spec().with_fg_spec(c)),
                Err(d) => Err(d),
            }
        } else if has_color_prefix(tag, 'b') {
            match color_style_spec(field, colors, tag.skip(3)) {
                Ok(c) => Ok(Style::new_spec().with_bg_spec(c)),
                Err(d) => Err(d),
            }
        } else {
            Err(DiagModel::DisallowedTag(tag))
        },
    }
}

/// Interprets one `{…}` tag after emitting the text before it: `{/}` closes
/// the nearest open tag (or is reported unmatched); any other tag opens a
/// layer, which adds nothing when the tag is refused.
pub open spec fn apply_tag_spec(st: MarkupState, field: FieldStyle, colors: Map<Seq<char>, Color>, tag: Seq<char>) -> MarkupState {
    let s = flush_spec(st, field);
    if tag == seq!['/'] {
        if s.stack.len() == 0 {
            MarkupState { diags: s.diags.push(DiagModel::Malformed("unmatched {/}"@)), ..s }
        } else {
            MarkupState { stack: s.stack.drop_last(), ..s }
        }
    } else {
        match resolve_tag_spec(field, colors, tag) {
            Ok(style) => MarkupState { stack: s.stack.push(style), ..s },
            Err(d) => MarkupState { diags: s.diags.push(d), stack: s.stack.push(Style::new_spec()), ..s },
        }
    }
}

/// Emits the remaining text and reports any tags left open.
pub open spec fn finish_spec(st: MarkupState, field: FieldStyle) -> MarkupState {
    let s = flush_spec(st, field);
    if s.stack.len() != 0 {
        MarkupState {
            diags: s.diags.push(DiagModel::Malformed(decimal_spec(s.stack.len()) + " unclosed tag(s)"@)),
            ..s
        }
    } else {
        s
    }
}

/// The position of the first `}` at or after `j`, or the input's length.
pub open spec fn next_close(input: Seq<char>, j: int) -> int
    decreases input.len() - j,
{
    if j >= input.len() {
        input.len() as int
    } else if input[j] == '}' {
        j
    } else {
        next_close(input, j + 1)
    }
}

/// The first `}` at or after `j` lies between `j` and the end.
pub proof fn lemma_next_close_bounds(input: Seq<char>, j: int)
    requires
        0 <= j <= input.len(),
    ensures
        j <= next_close(input, j) <= input.len(),
    decreases input.len() - j,
{
    if j < input.len() && input[j] != '}' {
        lemma_next_close_bounds(input, j + 1);
    }
}

/// The compiler's state once the input from position `i` on is scanned.
pub open spec fn run_spec(input: Seq<char>, i: int, st: MarkupState, field: FieldStyle, colors: Map<Seq<char>, Color>) -> MarkupState
    decreases input.len() - i,
{
    if i < 0 || i >= input.len() {
        finish_spec(st, field)
    } else {
        let c = input[i];
        if c == '{' && i + 1 < input.len() && input[i + 1] == '{' {
            run_spec(input, i + 2, MarkupState { buf: st.buf.push('{'), ..st }, field, colors)
        } else if c == '}' && i + 1 < input.len() && input[i + 1] == '}' {
            run_spec(input, i + 2, MarkupState { buf: st.buf.push('}'), ..st }, field, colors)
        } else if c == '{' {
            let j = next_close(input, i + 1);
            proof {
                lemma_next_close_bounds(input, i + 1);
            }
            if j < input.len() {
                run_spec(input, j + 1, apply_tag_spec(st, field, colors, input.subrange(i + 1, j)), field, colors)
            } else {
                let tag = input.skip(i + 1);
                finish_spec(
                    MarkupState {
                        diags: st.diags.push(DiagModel::Malformed("unterminated tag {"@ + tag)),
                        buf: st.buf.push('{') + tag,
                        ..st
                    },
                    field,
                )
            }
        } else {
            run_spec(input, i + 1, MarkupState { buf: st.buf.push(c), ..st }, field, colors)
        }
    }
}

/// The state compilation starts from.
pub open spec fn initial_state() -> MarkupState {
    MarkupState { out: Seq::empty(), diags: Seq::empty(), stack: Seq::empty(), buf: Seq::empty() }
}

/// What compiling `input` under `field` with the palette's `colors` yields.
pub open spec fn compile_spec(input: Seq<char>, field: FieldStyle, colors: Map<Seq<char>, Color>) -> MarkupState {
    run_spec(input, 0, initial_state(), field, colors)
}

/// Text with no brace is buffered as it is.
proof fn lemma_plain_run(
    input: Seq<char>,
    i: int,
    j: int,
    st: MarkupState,
    field: FieldStyle,
    colors: Map<Seq<char>, Color>,
)
    requires
        0 <= i <= j <= input.len(),
        forall|k: int| i <= k < j ==> #[trigger] input[k] != '{' && input[k] != '}',
    ensures
        run_spec(input, i, st, field, colors) == run_spec(
            input,
            j,
            MarkupState { buf: st.buf + input.subrange(i, j), ..st },
            field,
            colors,
        ),
    decreases j - i,
{
    if i == j {
        assert(st.buf + input.subrange(i, j) =~= st.buf);
    } else {
        let st1 = MarkupState { buf: st.buf.push(input[i]), ..st };
        lemma_plain_run(input, i + 1, j, st1, field, colors);
        assert(st1.buf + input.subrange(i + 1, j) =~= st.buf + input.subrange(i, j));
    }
}

/// The first `}` from `j` on is at `m` when none comes before it.
proof fn lemma_next_close_at(input: Seq<char>, j: int, m: int)
    requires
        0 <= j <= m < input.len(),
        input[m] == '}',
        forall|k: int| j <= k < m ==> #[trigger] input[k] != '}',
    ensures
        next_close(input, j) == m,
    decreases m - j,
{
    if j < m {
        lemma_next_close_at(input, j + 1, m);
    }
}

/// The style a span is emitted with.
pub open spec fn span_style_of(s: Style) -> SpanStyleModel {
    if s.is_unstyled_spec() {
        SpanStyleModel::Plain
    } else {
        SpanStyleModel::Direct(s)
    }
}

/// One tag around brace-free text, `{tag}t{/}`: the text is one span styled
/// by the tag's layer over the field default, and the tag's diagnostic, if
/// any, is the only one.
proof fn lemma_single_tag(field: FieldStyle, colors: Map<Seq<char>, Color>, tag: Seq<char>, t: Seq<char>)
    requires
        tag.len() > 0,
        tag[0] != '{',
        tag != seq!['/'],
        forall|k: int| 0 <= k < tag.len() ==> #[trigger] tag[k] != '}',
        t.len() > 0,
        forall|k: int| 0 <= k < t.len() ==> #[trigger] t[k] != '{' && t[k] != '}',
    ensures
        ({
            let r = compile_spec(seq!['{'] + tag + seq!['}'] + t + seq!['{', '/', '}'], field, colors);
            let layer = match resolve_tag_spec(field, colors, tag) {
                Ok(l) => l,
                Err(_) => Style::new_spec(),
            };
            &&& r.out == seq![SpanModel { text: t, style: span_style_of(layer_spec(field.default, layer)) }]
            &&& r.diags == match resolve_tag_spec(field, colors, tag) {
                Ok(_) => Seq::<DiagModel>::empty(),
                Err(d) => seq![d],
            }
        }),
{
    let gl = tag.len() as int;
    let tl = t.len() as int;
    let post = seq!['{', '/', '}'];
    let input = seq!['{'] + tag + seq!['}'] + t + post;
    let ll = 1 + gl;
    let i2 = ll + 1 + tl;
    assert(input.len() == i2 + 3);
    assert(input[0] == '{');
    assert forall|k: int| 0 <= k < gl implies #[trigger] input[1 + k] == tag[k] by {}
    assert(input[ll] == '}');
    assert forall|k: int| 0 <= k < tl implies #[trigger] input[ll + 1 + k] == t[k] by {}
    assert(input[i2] == '{' && input[i2 + 1] == '/' && input[i2 + 2] == '}');
    // The opening tag.
    assert forall|k: int| 1 <= k < ll implies #[trigger] input[k] != '}' by {
        assert(input[k] == tag[k - 1]);
    }
    lemma_next_close_at(input, 1, ll);
    assert(input.subrange(1, ll) =~= tag);
    assert(input[1] != '{');
    let st0 = initial_state();
    assert(flush_spec(st0, field) == st0);
    let layer = match resolve_tag_spec(field, colors, tag) {
        Ok(l) => l,
        Err(_) => Style::new_spec(),
    };
    let diags1 = match resolve_tag_spec(field, colors, tag) {
        Ok(_) => Seq::<DiagModel>::empty(),
        Err(d) => seq![d],
    };
    let st1 = apply_tag_spec(st0, field, colors, tag);
    assert(st1 == MarkupState { stack: seq![layer], diags: diags1, ..st0 }) by {
        assert(st0.stack.push(layer) =~= seq![layer]);
        match resolve_tag_spec(field, colors, tag) {
            Ok(_) => {},
            Err(d) => {
                assert(st0.diags.push(d) =~= seq![d]);
            },
        }
    }
    assert(run_spec(input, 0, st0, field, colors) == run_spec(input, ll + 1, st1, field, colors));
    // The text.
    assert forall|k: int| ll + 1 <= k < i2 implies #[trigger] input[k] != '{' && input[k] != '}' by {
        assert(input[k] == t[k - ll - 1]);
    }
    lemma_plain_run(input, ll + 1, i2, st1, field, colors);
    assert(input.subrange(ll + 1, i2) =~= t);
    let st2 = MarkupState { buf: t, ..st1 };
    assert(st1.buf + input.subrange(ll + 1, i2) =~= t);
    // The closing tag.
    lemma_next_close_at(input, i2 + 1, i2 + 2);
    assert(input.subrange(i2 + 1, i2 + 2) =~= seq!['/']);
    let eff = effective_spec(field.default, seq![layer]);
    assert(eff == layer_spec(field.default, layer)) by {
        assert(seq![layer].drop_last() =~= Seq::<Style>::empty());
    }
    let sp = SpanModel { text: t, style: span_style_of(eff) };
    let st3 = apply_tag_spec(st2, field, colors, seq!['/']);
    assert(flush_spec(st2, field) == MarkupState { out: seq![sp], buf: Seq::empty(), ..st2 }) by {
        assert(st2.out.push(sp) =~= seq![sp]);
    }
    assert(st3 == MarkupState { out: seq![sp], buf: Seq::empty(), stack: Seq::empty(), ..st2 }) by {
        assert(seq![layer].drop_last() =~= Seq::<Style>::empty());
    }
    assert(run_spec(input, i2, st2, field, colors) == run_spec(input, i2 + 3, st3, field, colors));
    assert(run_spec(input, i2 + 3, st3, field, colors) == finish_spec(st3, field));
    assert(finish_spec(st3, field) == st3);
}

/// `{xg=n}t{/}` in a field that admits colors, for a palette color `n` and a
/// brace-free `t`: one span of `t`, no diagnostic, styled as the field
/// default with the one color replaced.
proof fn lemma_one_color_tag(field: FieldStyle, colors: Map<Seq<char>, Color>, x: char, n: Seq<char>, t: Seq<char>)
    requires
        x == 'f' || x == 'b',
        field.allow_colors,
        colors.contains_key(n),
        t.len() > 0,
        forall|k: int| 0 <= k < t.len() ==> #[trigger] t[k] != '{' && t[k] != '}',
        forall|k: int| 0 <= k < n.len() ==> #[trigger] n[k] != '}',
    ensures
        ({
            let r = compile_spec(seq!['{', x, 'g', '='] + n + seq!['}'] + t + seq!['{', '/', '}'], field, colors);
            &&& r.diags.len() == 0
            &&& r.out.len() == 1
            &&& r.out[0].text == t
            &&& r.out[0].style matches SpanStyleModel::Direct(st) && {
                &&& st.attrs_spec()@ == field.default.attrs_spec()@
                &&& x == 'b' ==> st.bg_spec() == Some(colors[n]) && st.fg_spec() == field.default.fg_spec()
                &&& x == 'f' ==> st.fg_spec() == Some(colors[n]) && st.bg_spec() == field.default.bg_spec()
            }
        }),
{
    let c = colors[n];
    let tag = seq![x, 'g', '='] + n;
    assert(seq!['{', x, 'g', '='] + n =~= seq!['{'] + tag);
    assert forall|k: int| 0 <= k < tag.len() implies #[trigger] tag[k] != '}' by {
        if k >= 3 {
            assert(tag[k] == n[k - 3]);
        }
    }
    assert(tag.skip(3) =~= n);
    assert(tag != seq!['/'] && tag != seq!['b'] && tag != seq!['i'] && tag != seq!['u']) by {
        assert(tag.len() != 1);
    }
    lemma_single_tag(field, colors, tag, t);
    let layer = if x == 'b' { Style::new_spec().with_bg_spec(c) } else { Style::new_spec().with_fg_spec(c) };
    assert(resolve_tag_spec(field, colors, tag) == Ok::<Style, DiagModel>(layer));
    let eff = layer_spec(field.default, layer);
    Style::new_spec().lemma_parts(c, Attributes::none_spec());
    Style::new_spec().lemma_parts(c, layer.attrs_spec());
    field.default.lemma_parts(c, layer.attrs_spec());
    field.default.with_bg_spec(c).lemma_parts(c, layer.attrs_spec());
    field.default.with_fg_spec(c).lemma_parts(c, layer.attrs_spec());
    Attributes::lemma_none_bits();
    let d = field.default.attrs_spec();
    d.lemma_union_bits(layer.attrs_spec());
    assert(layer.attrs_spec()@ == 0);
    let db = d@;
    assert(db | 0u8 == db) by (bit_vector);
    assert(eff.attrs_spec()@ == d@);
    assert(!eff.is_unstyled_spec());
}

/// A span style with the given colors and attribute bits: unstyled text
/// when there are none, else a direct style with exactly those parts.
pub open spec fn styled_as(m: SpanStyleModel, fg: Option<Color>, bg: Option<Color>, attrs: u8) -> bool {
    match m {
        SpanStyleModel::Plain => fg is None && bg is None && attrs == 0,
        SpanStyleModel::Direct(s) => s.fg_spec() == fg && s.bg_spec() == bg && s.attrs_spec()@ == attrs,
        SpanStyleModel::Role(_) => false,
    }
}

/// The field default laid under a layer with no colors: the default's
/// colors, and its attributes together with the layer's.
proof fn lemma_attr_layer(default: Style, layer: Style)
    requires
        layer.fg_spec() is None,
        layer.bg_spec() is None,
    ensures
        styled_as(
            span_style_of(layer_spec(default, layer)),
            default.fg_spec(),
            default.bg_spec(),
            default.attrs_spec()@ | layer.attrs_spec()@,
        ),
{
    let c = Color::rgb_spec(0, 0, 0);
    default.lemma_parts(c, layer.attrs_spec());
    default.attrs_spec().lemma_union_bits(layer.attrs_spec());
    let eff = layer_spec(default, layer);
    assert(eff.attrs_spec()@ == default.attrs_spec()@ | layer.attrs_spec()@);
    let d = default.attrs_spec()@;
    let x = layer.attrs_spec()@;
    assert((d | x == 0u8) == (d == 0u8 && x == 0u8)) by (bit_vector);
}

/// What `{tag}t{/}` compiles to when `tag` names the attribute flag `bit`:
/// the one span `t` with the field default's colors and, when the field
/// allows the flag, the default's attributes plus `bit` and no diagnostic;
/// otherwise the default's attributes and the tag reported as disallowed.
pub open spec fn attribute_tag_outcome(
    field: FieldStyle,
    colors: Map<Seq<char>, Color>,
    tag: Seq<char>,
    bit: u8,
    t: Seq<char>,
) -> bool {
    let r = compile_spec(seq!['{'] + tag + seq!['}'] + t + seq!['{', '/', '}'], field, colors);
    &&& r.out.len() == 1
    &&& r.out[0].text == t
    &&& field.allowed_attrs@ & bit == bit ==> r.diags.len() == 0 && styled_as(
        r.out[0].style,
        field.default.fg_spec(),
        field.default.bg_spec(),
        field.default.attrs_spec()@ | bit,
    )
    &&& field.allowed_attrs@ & bit != bit ==> r.diags == seq![DiagModel::DisallowedTag(tag)] && styled_as(
        r.out[0].style,
        field.default.fg_spec(),
        field.default.bg_spec(),
        field.default.attrs_spec()@,
    )
}

proof fn lemma_attribute_tag(field: FieldStyle, colors: Map<Seq<char>, Color>, tag: Seq<char>, bit: u8, t: Seq<char>)
    requires
        (tag == seq!['b'] && bit == 1u8) || (tag == seq!['i'] && bit == 2u8) || (tag == seq!['u'] && bit == 4u8),
        t.len() > 0,
        forall|k: int| 0 <= k < t.len() ==> #[trigger] t[k] != '{' && t[k] != '}',
    ensures
        attribute_tag_outcome(field, colors, tag, bit, t),
{
    Attributes::lemma_flag_bits();
    Attributes::lemma_none_bits();
    assert(tag != seq!['/']) by {
        assert(tag[0] != '/');
    }
    lemma_single_tag(field, colors, tag, t);
    let a = attribute_tag_spec(tag)->Some_0;
    assert(attribute_tag_spec(tag) is Some);
    assert(a@ == bit);
    let c = Color::rgb_spec(0, 0, 0);
    Style::new_spec().lemma_parts(c, a);
    Style::new_spec().attrs_spec().lemma_union_bits(a);
    let d = field.default.attrs_spec()@;
    assert(0u8 | bit == bit) by (bit_vector);
    assert(d | 0u8 == d) by (bit_vector);
    if field.allowed_attrs@ & bit == bit {
        lemma_attr_layer(field.default, Style::new_spec().with_attrs_spec(a));
    } else {
        lemma_attr_layer(field.default, Style::new_spec());
    }
}

/// An attribute tag adds its own flag and nothing else: `{b}`, `{i}` and
/// `{u}` around brace-free text `t` give the one span `t` with the field
/// default's colors and the default's attributes plus bold (bit 1), italic
/// (bit 2) or underline (bit 4) respectively, when the field allows that
/// flag; when it does not, the tag is reported as disallowed and the span
/// keeps the default's style.
pub proof fn lemma_attribute_tags(field: FieldStyle, colors: Map<Seq<char>, Color>, t: Seq<char>)
    requires
        t.len() > 0,
        forall|k: int| 0 <= k < t.len() ==> #[trigger] t[k] != '{' && t[k] != '}',
    ensures
        attribute_tag_outcome(field, colors, seq!['b'], 1u8, t),
        attribute_tag_outcome(field, colors, seq!['i'], 2u8, t),
        attribute_tag_outcome(field, colors, seq!['u'], 4u8, t),
{
    lemma_attribute_tag(field, colors, seq!['b'], 1u8, t);
    lemma_attribute_tag(field, colors, seq!['i'], 2u8, t);
    lemma_attribute_tag(field, colors, seq!['u'], 4u8, t);
}

/// What `{xg=n}t{/}` compiles to when the color is refused: the one span
/// `t` in the field default's style, and the refusal reported — the tag as
/// disallowed when the field admits no colors, else `n` as an unknown color.
pub open spec fn refused_color_outcome(
    field: FieldStyle,
    colors: Map<Seq<char>, Color>,
    x: char,
    n: Seq<char>,
    t: Seq<char>,
) -> bool {
    let r = compile_spec(seq!['{', x, 'g', '='] + n + seq!['}'] + t + seq!['{', '/', '}'], field, colors);
    &&& r.out.len() == 1
    &&& r.out[0].text == t
    &&& styled_as(r.out[0].style, field.default.fg_spec(), field.default.bg_spec(), field.default.attrs_spec()@)
    &&& !field.allow_colors ==> r.diags == seq![DiagModel::DisallowedTag("color "@ + debug_str_of(n))]
    &&& field.allow_colors ==> r.diags == seq![DiagModel::UnknownColor(n)]
}

proof fn lemma_refused_color_tag(field: FieldStyle, colors: Map<Seq<char>, Color>, x: char, n: Seq<char>, t: Seq<char>)
    requires
        x == 'f' || x == 'b',
        !field.allow_colors || !colors.contains_key(n),
        t.len() > 0,
        forall|k: int| 0 <= k < t.len() ==> #[trigger] t[k] != '{' && t[k] != '}',
        forall|k: int| 0 <= k < n.len() ==> #[trigger] n[k] != '}',
    ensures
        refused_color_outcome(field, colors, x, n, t),
{
    let tag = seq![x, 'g', '='] + n;
    assert(seq!['{', x, 'g', '='] + n =~= seq!['{'] + tag);
    assert forall|k: int| 0 <= k < tag.len() implies #[trigger] tag[k] != '}' by {
        if k >= 3 {
            assert(tag[k] == n[k - 3]);
        }
    }
    assert(tag.skip(3) =~= n);
    assert(tag != seq!['/'] && tag != seq!['b'] && tag != seq!['i'] && tag != seq!['u']) by {
        assert(tag.len() != 1);
    }
    lemma_single_tag(field, colors, tag, t);
    assert(resolve_tag_spec(field, colors, tag) is Err);
    Style::new_spec().lemma_parts(Color::rgb_spec(0, 0, 0), Attributes::none_spec());
    lemma_attr_layer(field.default, Style::new_spec());
    let d = field.default.attrs_spec()@;
    assert(d | 0u8 == d) by (bit_vector);
}

/// A refused color tag keeps its text in the field default's style: in a
/// field that admits no colors, `{fg=n}` and `{bg=n}` are reported as
/// disallowed tags; in one that does, a name the palette does not define is
/// reported as an unknown color. Either way the brace-free text `t` between
/// the tag and `{/}` is the one span, styled as the field default.
pub proof fn lemma_refused_color_tags(field: FieldStyle, colors: Map<Seq<char>, Color>, n: Seq<char>, t: Seq<char>)
    requires
        !field.allow_colors || !colors.contains_key(n),
        t.len() > 0,
        forall|k: int| 0 <= k < t.len() ==> #[trigger] t[k] != '{' && t[k] != '}',
        forall|k: int| 0 <= k < n.len() ==> #[trigger] n[k] != '}',
    ensures
        refused_color_outcome(field, colors, 'f', n, t),
        refused_color_outcome(field, colors, 'b', n, t),
{
    lemma_refused_color_tag(field, colors, 'f', n, t);
    lemma_refused_color_tag(field, colors, 'b', n, t);
}

/// Text without tags is kept as it is, and doubled braces stand for literal
/// ones: for brace-free `t`, both `t` and `{{t}}` compile without
/// diagnostics to one span in the field default's style, holding `t` and
/// `{t}` respectively.
pub proof fn lemma_plain_text(field: FieldStyle, colors: Map<Seq<char>, Color>, t: Seq<char>)
    requires
        t.len() > 0,
        forall|k: int| 0 <= k < t.len() ==> #[trigger] t[k] != '{' && t[k] != '}',
    ensures
        ({
            let r = compile_spec(t, field, colors);
            &&& r.diags.len() == 0
            &&& r.out.len() == 1
            &&& r.out[0].text == t
            &&& styled_as(r.out[0].style, field.default.fg_spec(), field.default.bg_spec(), field.default.attrs_spec()@)
        }),
        ({
            let r = compile_spec(seq!['{', '{'] + t + seq!['}', '}'], field, colors);
            &&& r.diags.len() == 0
            &&& r.out.len() == 1
            &&& r.out[0].text == seq!['{'] + t + seq!['}']
            &&& styled_as(r.out[0].style, field.default.fg_spec(), field.default.bg_spec(), field.default.attrs_spec()@)
        }),
{
    let tl = t.len() as int;
    let st0 = initial_state();
    assert(effective_spec(field.default, Seq::<Style>::empty()) == field.default);
    let d = field.default;
    let dd = d.attrs_spec()@;
    assert(d.is_unstyled_spec() == (d.fg_spec() is None && d.bg_spec() is None && dd == 0));
    // Plain text.
    lemma_plain_run(t, 0, tl, st0, field, colors);
    assert(st0.buf + t.subrange(0, tl) =~= t);
    let st1 = MarkupState { buf: t, ..st0 };
    let sp = SpanModel { text: t, style: span_style_of(d) };
    assert(finish_spec(st1, field) == MarkupState { out: seq![sp], buf: Seq::empty(), ..st1 }) by {
        assert(st1.out.push(sp) =~= seq![sp]);
    }
    // Escaped braces.
    let input = seq!['{', '{'] + t + seq!['}', '}'];
    assert(input.len() == tl + 4);
    assert forall|k: int| 0 <= k < tl implies #[trigger] input[2 + k] == t[k] by {}
    assert(input[0] == '{' && input[1] == '{' && input[tl + 2] == '}' && input[tl + 3] == '}');
    let sa = MarkupState { buf: seq!['{'], ..st0 };
    assert(st0.buf.push('{') =~= seq!['{']);
    assert(run_spec(input, 0, st0, field, colors) == run_spec(input, 2, sa, field, colors));
    assert forall|k: int| 2 <= k < tl + 2 implies #[trigger] input[k] != '{' && input[k] != '}' by {
        assert(input[k] == t[k - 2]);
    }
    lemma_plain_run(input, 2, tl + 2, sa, field, colors);
    assert(input.subrange(2, tl + 2) =~= t);
    let sb = MarkupState { buf: seq!['{'] + t, ..st0 };
    let full = seq!['{'] + t + seq!['}'];
    let sc = MarkupState { buf: full, ..st0 };
    assert(sb.buf.push('}') =~= full);
    assert(run_spec(input, tl + 2, sb, field, colors) == run_spec(input, tl + 4, sc, field, colors));
    let sp2 = SpanModel { text: full, style: span_style_of(d) };
    assert(finish_spec(sc, field) == MarkupState { out: seq![sp2], buf: Seq::empty(), ..sc }) by {
        assert(sc.out.push(sp2) =~= seq![sp2]);
    }
}

/// A color tag sets its own color and nothing else: in a field that admits
/// colors, for a palette color `n` and brace-free text `t`, `{bg=n}t{/}`
/// compiles to the one span `t`, without diagnostics, whose background is the
/// palette's `n` while its foreground and attributes stay the field
/// default's; `{fg=n}t{/}` likewise sets only the foreground.
pub proof fn lemma_color_tags(field: FieldStyle, colors: Map<Seq<char>, Color>, n: Seq<char>, t: Seq<char>)
    requires
        field.allow_colors,
        colors.contains_key(n),
        t.len() > 0,
        forall|k: int| 0 <= k < t.len() ==> #[trigger] t[k] != '{' && t[k] != '}',
        forall|k: int| 0 <= k < n.len() ==> #[trigger] n[k] != '}',
    ensures
        ({
            let r = compile_spec(seq!['{', 'b', 'g', '='] + n + seq!['}'] + t + seq!['{', '/', '}'], field, colors);
            &&& r.diags.len() == 0
            &&& r.out.len() == 1
            &&& r.out[0].text == t
            &&& r.out[0].style matches SpanStyleModel::Direct(st) && st.bg_spec() == Some(colors[n])
                && st.fg_spec() == field.default.fg_spec() && st.attrs_spec()@ == field.default.attrs_spec()@
        }),
        ({
            let r = compile_spec(seq!['{', 'f', 'g', '='] + n + seq!['}'] + t + seq!['{', '/', '}'], field, colors);
            &&& r.diags.len() == 0
            &&& r.out.len() == 1
            &&& r.out[0].text == t
            &&& r.out[0].style matches SpanStyleModel::Direct(st) && st.fg_spec() == Some(colors[n])
                && st.bg_spec() == field.default.bg_spec() && st.attrs_spec()@ == field.default.attrs_spec()@
        }),
{
    lemma_one_color_tag(field, colors, 'b', n, t);
    lemma_one_color_tag(field, colors, 'f', n, t);
}

/// Compiles `input` into [`StyledText`] under the `field` policy, resolving
/// named colors through `palette`. Never fails.
pub fn compile_markup(input: &str, field: &FieldStyle, palette: &Palette) -> (r: CompiledMarkup)
    ensures
        r.text@ == compile_spec(input@, *field, palette.colors_spec()).out,
        diags_view(r.diagnostics@) == compile_spec(input@, *field, palette.colors_spec()).diags,
{
    let mut compiler = Compiler {
        field,
        palette,
        out: StyledText::new(),
        diagnostics: Vec::new(),
        stack: Vec::new(),
        buf: String::new(),
    };
    assert(diags_view(compiler.diagnostics@) =~= Seq::<DiagModel>::empty());
    assert(compiler.stack@ =~= Seq::<Style>::empty());
    assert(compiler.view() == initial_state());
    compiler.run(input);
    CompiledMarkup { text: compiler.out, diagnostics: compiler.diagnostics }
}

struct Compiler<'a> {
    field: &'a FieldStyle,
    palette: &'a Palette,
    out: StyledText,
    diagnostics: Vec<MarkupDiagnostic>,
    stack: Vec<Style>,
    buf: String,
}

impl<'a> Compiler<'a> {
    spec fn view(&self) -> MarkupState {
        MarkupState { out: self.out@, diags: diags_view(self.diagnostics@), stack: self.stack@, buf: self.buf@ }
    }

    spec fn colors(&self) -> Map<Seq<char>, Color> {
        self.palette.colors_spec()
    }

    fn run(&mut self, input: &str)
        ensures
            final(self).view() == run_spec(input@, 0, old(self).view(), *old(self).field, old(self).colors()),
            final(self).field == old(self).field,
            final(self).palette == old(self).palette,
    {
        let cs = chars_of(input);
        let ghost field = *self.field;
        let ghost colors = self.colors();
        let ghost target = run_spec(input@, 0, self.view(), field, colors);
        let mut i: usize = 0;
        while i < cs.len()
            invariant
                cs@ == input@,
                i <= cs@.len(),
                *self.field == field,
                self.colors() == colors,
                self.field == old(self).field,
                self.palette == old(self).palette,
                run_spec(cs@, i as int, self.view(), field, colors) == target,
            decreases cs@.len() - i,
        {
            let c = cs[i];
            if c == '{' && i + 1 < cs.len() && cs[i + 1] == '{' {
                push_char(&mut self.buf, '{');
                i = i + 2;
            } else if c == '}' && i + 1 < cs.len() && cs[i + 1] == '}' {
                push_char(&mut self.buf, '}');
                i = i + 2;
            } else if c == '{' {
                let mut j = i + 1;
                while j < cs.len() && cs[j] != '}'
                    invariant
                        i + 1 <= j <= cs@.len(),
                        next_close(cs@, i + 1) == next_close(cs@, j as int),
                    decreases cs@.len() - j,
                {
                    j = j + 1;
                }
                let tag = string_of(&cs, i + 1, j);
                if j < cs.len() {
                    self.apply_tag(tag.as_str());
                    i = j + 1;
                } else {
                    let mut message = "unterminated tag {".to_owned();
                    message.append(tag.as_str());
                    let ghost d0 = self.diagnostics@;
                    self.diagnostics.push(MarkupDiagnostic::Malformed(message));
                    assert(diags_view(self.diagnostics@) =~= diags_view(d0).push(DiagModel::Malformed("unterminated tag {"@ + tag@)));
                    push_char(&mut self.buf, '{');
                    self.buf.append(tag.as_str());
                    assert(cs@.subrange(i + 1, j as int) =~= cs@.skip(i + 1));
                    i = cs.len();
                }
            } else {
                push_char(&mut self.buf, c);
                i = i + 1;
            }
        }
        self.finish();
    }

    fn finish(&mut self)
        ensures
            final(self).view() == finish_spec(old(self).view(), *old(self).field),
            final(self).field == old(self).field,
            final(self).palette == old(self).palette,
    {
        self.flush();
        if self.stack.len() != 0 {
            let mut message = decimal(self.stack.len());
            message.append(" unclosed tag(s)");
            let ghost d0 = self.diagnostics@;
            self.diagnostics.push(MarkupDiagnostic::Malformed(message));
            assert(diags_view(self.diagnostics@) =~= diags_view(d0).push(DiagModel::Malformed(decimal_spec(self.stack@.len()) + " unclosed tag(s)"@)));
        }
    }

    /// Interprets a single `{…}` tag against the field policy and palette,
    /// after flushing the text that preceded it.
    fn apply_tag(&mut self, tag: &str)
        ensures
            final(self).view() == apply_tag_spec(old(self).view(), *old(self).field, old(self).colors(), tag@),
            final(self).field == old(self).field,
            final(self).palette == old(self).palette,
    {
        self.flush();
        let ts = chars_of(tag);
        if ts.len() == 1 && ts[0] == '/' {
            assert(tag@ =~= seq!['/']);
            if self.stack.len() == 0 {
                let ghost d0 = self.diagnostics@;
                self.diagnostics.push(MarkupDiagnostic::Malformed("unmatched {/}".to_owned()));
                assert(diags_view(self.diagnostics@) =~= diags_view(d0).push(DiagModel::Malformed("unmatched {/}"@)));
            } else {
                self.stack.pop();
            }
            return;
        }
        assert(tag@ != seq!['/']);
        match self.resolve_tag(tag) {
            Ok(style) => self.stack.push(style),
            Err(diagnostic) => {
                let ghost d0 = self.diagnostics@;
                let ghost dv = diagnostic@;
                self.diagnostics.push(diagnostic);
                assert(diags_view(self.diagnostics@) =~= diags_view(d0).push(dv));
                self.stack.push(Style::new());
            },
        }
    }

    fn resolve_tag(&self, tag: &str) -> (r: Result<Style, MarkupDiagnostic>)
        ensures
            match (r, resolve_tag_spec(*self.field, self.colors(), tag@)) {
                (Ok(s), Ok(t)) => s == t,
                (Err(d), Err(e)) => d@ == e,
                _ => false,
            },
    {
        if let Some(attr) = attribute_tag(tag) {
            return if self.field.allowed_attrs.contains(attr) {
                Ok(Style::new().with_attrs(attr))
            } else {
                Err(MarkupDiagnostic::DisallowedTag(tag.to_owned()))
            };
        }
        let ts = chars_of(tag);
        if ts.len() >= 3 && ts[1] == 'g' && ts[2] == '=' && (ts[0] == 'f' || ts[0] == 'b') {
            let name = string_of(&ts, 3, ts.len());
            assert(ts@.subrange(3, ts@.len() as int) =~= tag@.skip(3));
            return match self.color_style(name.as_str()) {
                Ok(color) => if ts[0] == 'f' {
                    Ok(Style::new().with_fg(color))
                } else {
                    Ok(Style::new().with_bg(color))
                },
                Err(d) => Err(d),
            };
        }
        Err(MarkupDiagnostic::DisallowedTag(tag.to_owned()))
    }

    fn color_style(&self, name: &str) -> (r: Result<Color, MarkupDiagnostic>)
        ensures
            match (r, color_style_spec(*self.field, self.colors(), name@)) {
                (Ok(c), Ok(d)) => c == d,
                (Err(d), Err(e)) => d@ == e,
                _ => false,
            },
    {
        if !self.field.allow_colors {
            let mut message = "color ".to_owned();
            message.append(debug_quote(name).as_str());
            return Err(MarkupDiagnostic::DisallowedTag(message));
        }
        match self.palette.color(name) {
            Some(c) => Ok(c),
            None => Err(MarkupDiagnostic::UnknownColor(name.to_owned())),
        }
    }

    /// Flushes the buffered text as one span under the current effective style.
    fn flush(&mut self)
        ensures
            final(self).view() == flush_spec(old(self).view(), *old(self).field),
            final(self).field == old(self).field,
            final(self).palette == old(self).palette,
    {
        if self.buf.as_str().is_empty() {
            return;
        }
        let style = self.effective_style();
        let span = if style.is_unstyled() {
            Span::plain(self.buf.as_str())
        } else {
            Span::styled(self.buf.as_str(), style)
        };
        self.out.append(span);
        self.buf = String::new();
    }

    /// The field default merged with every open tag's contribution,
    /// innermost winning for colors and attributes unioning.
    fn effective_style(&self) -> (r: Style)
        ensures
            r == effective_spec(self.field.default, self.stack@),
    {
        let mut acc = self.field.default;
        let mut k: usize = 0;
        while k < self.stack.len()
            invariant
                k <= self.stack@.len(),
                acc == effective_spec(self.field.default, self.stack@.take(k as int)),
            decreases self.stack@.len() - k,
        {
            let layer = self.stack[k];
            assert(self.stack@.take(k + 1).drop_last() =~= self.stack@.take(k as int));
            let a1 = match layer.fg() {
                Some(fg) => acc.with_fg(fg),
                None => acc,
            };
            let a2 = match layer.bg() {
                Some(bg) => a1.with_bg(bg),
                None => a1,
            };
            acc = a2.with_attrs(layer.attrs());
            k = k + 1;
        }
        assert(self.stack@.take(self.stack@.len() as int) =~= self.stack@);
        acc
    }
}

/// Maps an attribute tag (`b`/`i`/`u`) to its [`Attributes`] flag.
fn attribute_tag(tag: &str) -> (r: Option<Attributes>)
    ensures
        r == attribute_tag_spec(tag@),
{
    let ts = chars_of(tag);
    if ts.len() == 1 {
        assert(tag@ =~= seq![ts@[0]]);
        if ts[0] == 'b' {
            return Some(Attributes::bold());
        } else if ts[0] == 'i' {
            return Some(Attributes::italic());
        } else if ts[0] == 'u' {
            return Some(Attributes::underline());
        }
    }
    proof {
        if ts@.len() != 1 {
            assert(tag@.len() != seq!['b'].len());
        }
    }
    None
}

} // verus!
