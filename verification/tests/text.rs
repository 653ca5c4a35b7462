use ferrodun::text::attributes::Attributes;
use ferrodun::text::color::{Color, ColorParseError};
use ferrodun::text::field::FieldStyle;
use ferrodun::text::markup::{compile_markup, MarkupDiagnostic};
use ferrodun::text::palette::Palette;
use ferrodun::text::span::{Span, StyledText};
use ferrodun::text::style::{RoleName, SpanStyle, Style};

// attributes

#[test]
fn none_is_empty_and_contains_nothing() {
    assert!(Attributes::none().is_empty());
    assert!(!Attributes::none().contains(Attributes::bold()));
}

#[test]
fn insert_unions_flags_and_is_idempotent() {
    let attrs = Attributes::bold().union(Attributes::underline()).union(Attributes::bold());
    assert!(attrs.contains(Attributes::bold()));
    assert!(attrs.contains(Attributes::underline()));
    assert!(!attrs.contains(Attributes::italic()));
    assert!(!attrs.is_empty());
}

#[test]
fn contains_requires_all_queried_flags() {
    let attrs = Attributes::bold().union(Attributes::italic());
    assert!(attrs.contains(Attributes::bold().union(Attributes::italic())));
    assert!(!attrs.contains(Attributes::bold().union(Attributes::blink())));
}

#[test]
fn the_five_attributes_are_distinct_bits() {
    let all = [
        Attributes::bold(),
        Attributes::italic(),
        Attributes::underline(),
        Attributes::blink(),
        Attributes::reverse(),
    ];
    let union = all.iter().fold(Attributes::none(), |acc, a| acc.union(*a));
    for attr in all {
        assert!(union.contains(attr));
    }
    for (i, a) in all.iter().enumerate() {
        for (j, b) in all.iter().enumerate() {
            assert_eq!(i == j, a.contains(*b));
        }
    }
}

#[test]
fn attributes_default_is_none() {
    assert_eq!(Attributes::default(), Attributes::none());
    assert_eq!(Attributes::bold().insert(Attributes::italic()), Attributes::italic().union(Attributes::bold()));
}

// color

#[test]
fn rgb_round_trips_through_components() {
    let color = Color::rgb(0x1a, 0x53, 0xff);
    assert_eq!((color.r(), color.g(), color.b()), (0x1a, 0x53, 0xff));
}

#[test]
fn from_hex_parses_a_six_digit_color() {
    assert_eq!(Color::from_hex("#1a53ff"), Ok(Color::rgb(0x1a, 0x53, 0xff)));
    assert_eq!(Color::from_hex("#FFFFFF"), Ok(Color::rgb(255, 255, 255)));
}

#[test]
fn from_hex_round_trips_through_display() {
    let color = Color::rgb(0xff, 0x55, 0x55);
    assert_eq!(color.to_string(), "#ff5555");
    assert_eq!(Color::from_hex(&color.to_string()), Ok(color));
}

#[test]
fn from_hex_rejects_a_missing_hash() {
    assert_eq!(Color::from_hex("1a53ff"), Err(ColorParseError::MissingHash));
}

#[test]
fn from_hex_rejects_a_wrong_length() {
    assert_eq!(Color::from_hex("#abc"), Err(ColorParseError::BadLength(3)));
    assert_eq!(Color::from_hex("#1a53ff00"), Err(ColorParseError::BadLength(8)));
}

#[test]
fn from_hex_rejects_a_non_hex_digit() {
    assert_eq!(Color::from_hex("#1a53fz"), Err(ColorParseError::InvalidDigit('z')));
}

#[test]
fn to_string_pads_each_component_to_two_lowercase_digits() {
    assert_eq!(Color::rgb(0, 0x0a, 0xAB).to_string(), "#000aab");
    assert_eq!(Color::from_hex("#000aab"), Ok(Color::rgb(0, 10, 171)));
}

#[test]
fn from_hex_reports_a_bad_digit_before_a_bad_length() {
    assert_eq!(Color::from_hex("#g"), Err(ColorParseError::InvalidDigit('g')));
    assert_eq!(Color::from_hex("#"), Err(ColorParseError::BadLength(0)));
}

// style

#[test]
fn new_is_unstyled() {
    assert!(Style::new().is_unstyled());
    assert_eq!(Style::default(), Style::new());
}

#[test]
fn builders_set_each_field() {
    let style = Style::new()
        .with_fg(Color::rgb(1, 2, 3))
        .with_bg(Color::rgb(4, 5, 6))
        .with_attrs(Attributes::bold());
    assert_eq!(style.fg(), Some(Color::rgb(1, 2, 3)));
    assert_eq!(style.bg(), Some(Color::rgb(4, 5, 6)));
    assert!(style.attrs().contains(Attributes::bold()));
    assert!(!style.is_unstyled());
}

#[test]
fn with_attrs_accumulates() {
    let style = Style::new().with_attrs(Attributes::bold()).with_attrs(Attributes::italic());
    assert!(style.attrs().contains(Attributes::bold().insert(Attributes::italic())));
}

#[test]
fn role_name_static_const_equals_owned_copy() {
    let owned = RoleName::new("say");
    assert_eq!(RoleName::say(), owned);
    assert_eq!(RoleName::say().as_str(), "say");

    let mut set = std::collections::HashSet::new();
    set.insert(RoleName::say());
    assert!(set.contains(&RoleName::new("say")));
}

#[test]
fn baseline_role_names_spell_their_roles() {
    let names: Vec<String> = [
        RoleName::error(),
        RoleName::system(),
        RoleName::alert(),
        RoleName::prompt(),
        RoleName::say(),
        RoleName::emote(),
        RoleName::tell(),
    ]
    .iter()
    .map(|r| r.as_str().to_string())
    .collect();
    assert_eq!(names, ["error", "system", "alert", "prompt", "say", "emote", "tell"]);
    assert_eq!(RoleName::from_static("x"), RoleName::new("x"));
}

// span

#[test]
fn builders_append_spans_in_order() {
    let text = StyledText::new()
        .plain("a ")
        .styled("b", Style::new().with_fg(Color::rgb(1, 2, 3)))
        .role("c", RoleName::say());

    assert_eq!(
        text.spans(),
        &[
            Span::plain("a "),
            Span::styled("b", Style::new().with_fg(Color::rgb(1, 2, 3))),
            Span::role("c", RoleName::say()),
        ]
    );
}

#[test]
fn to_plain_string_concatenates_text_dropping_style() {
    let text = StyledText::new().role("Alice", RoleName::say()).plain(" waves");
    assert_eq!(text.to_plain_string(), "Alice waves");
}

#[test]
fn from_str_is_a_single_plain_span() {
    let text = StyledText::from("hello");
    assert_eq!(text.spans(), &[Span::plain("hello")]);
}

#[test]
fn push_appends_and_chains() {
    let mut text = StyledText::new();
    text.push(Span::plain("a")).push(Span::role("b", RoleName::tell()));
    assert_eq!(text.spans().len(), 2);
    assert_eq!(text.spans()[1].text(), "b");
    assert_eq!(text.spans()[1].style(), &SpanStyle::Role(RoleName::tell()));
    assert_eq!(text.spans()[0].style(), &SpanStyle::Plain);
    assert_eq!(text.to_plain_string(), "ab");
}

// palette

#[test]
fn baseline_defines_every_required_role() {
    let palette = Palette::baseline();
    for role in [
        RoleName::error(),
        RoleName::system(),
        RoleName::alert(),
        RoleName::prompt(),
        RoleName::say(),
        RoleName::emote(),
        RoleName::tell(),
    ] {
        assert!(palette.resolve_role(&role).is_some(), "missing {}", role.as_str());
    }
}

#[test]
fn baseline_alert_carries_background_and_bold() {
    let alert = Palette::baseline().resolve_role(&RoleName::alert()).expect("alert role");
    assert!(alert.bg().is_some());
    assert!(alert.attrs().contains(Attributes::bold()));
}

#[test]
fn baseline_defines_the_standard_named_colors() {
    let palette = Palette::baseline();
    assert!(palette.color("cyan").is_some());
    assert!(palette.color("bright_white").is_some());
}

#[test]
fn unknown_role_and_color_resolve_to_none() {
    let palette = Palette::baseline();
    assert_eq!(palette.resolve_role(&RoleName::new("nope")), None);
    assert_eq!(palette.color("chartreuse"), None);
}

#[test]
fn insert_overrides_a_baseline_role() {
    let mut palette = Palette::baseline();
    let override_style = Style::new().with_fg(Color::rgb(1, 2, 3));
    palette.insert_role(RoleName::say(), override_style);
    assert_eq!(palette.resolve_role(&RoleName::say()), Some(override_style));
}

#[test]
fn insert_color_defines_a_new_name_without_touching_roles() {
    let mut palette = Palette::baseline();
    let before = palette.resolve_role(&RoleName::say());
    palette.insert_color("chartreuse", Color::rgb(0x7f, 0xff, 0));
    assert_eq!(palette.color("chartreuse"), Some(Color::rgb(0x7f, 0xff, 0)));
    assert_eq!(palette.resolve_role(&RoleName::say()), before);
}

// markup

fn palette() -> Palette {
    Palette::baseline()
}

#[test]
fn plain_text_compiles_to_one_plain_span() {
    let result = compile_markup("a quiet room", &FieldStyle::description(), &palette());
    assert!(result.diagnostics.is_empty());
    assert_eq!(result.text, StyledText::from("a quiet room"));
}

#[test]
fn a_color_tag_resolves_a_palette_name() {
    let result = compile_markup("a {fg=cyan}rune{/} glows", &FieldStyle::description(), &palette());
    assert!(result.diagnostics.is_empty());
    let cyan = palette().color("cyan").expect("cyan in baseline");
    assert_eq!(
        result.text,
        StyledText::new().plain("a ").styled("rune", Style::new().with_fg(cyan)).plain(" glows")
    );
}

#[test]
fn an_attribute_tag_styles_its_inner_text() {
    let result = compile_markup("{b}danger{/}!", &FieldStyle::description(), &palette());
    assert!(result.diagnostics.is_empty());
    assert_eq!(
        result.text,
        StyledText::new().styled("danger", Style::new().with_attrs(Attributes::bold())).plain("!")
    );
}

#[test]
fn nested_tags_combine_into_one_span_style() {
    let result = compile_markup("{b}{fg=red}x{/}{/}", &FieldStyle::description(), &palette());
    assert!(result.diagnostics.is_empty());
    let red = palette().color("red").expect("red in baseline");
    assert_eq!(
        result.text,
        StyledText::new().styled("x", Style::new().with_attrs(Attributes::bold()).with_fg(red))
    );
}

#[test]
fn the_title_default_bolds_the_whole_field() {
    let result = compile_markup("Town Square", &FieldStyle::title(), &palette());
    assert!(result.diagnostics.is_empty());
    assert_eq!(
        result.text,
        StyledText::new().styled("Town Square", Style::new().with_attrs(Attributes::bold()))
    );
}

#[test]
fn an_unknown_color_degrades_to_unstyled_with_a_diagnostic() {
    let result = compile_markup("{fg=chartreuse}x{/}", &FieldStyle::description(), &palette());
    assert_eq!(result.diagnostics, vec![MarkupDiagnostic::UnknownColor("chartreuse".to_owned())]);
    assert_eq!(result.text, StyledText::from("x"));
}

#[test]
fn raw_hex_is_not_a_palette_name_and_is_rejected() {
    let result = compile_markup("{fg=#1a53ff}x{/}", &FieldStyle::description(), &palette());
    assert_eq!(result.diagnostics, vec![MarkupDiagnostic::UnknownColor("#1a53ff".to_owned())]);
    assert_eq!(result.text, StyledText::from("x"));
}

#[test]
fn a_disallowed_tag_for_the_field_degrades_with_a_diagnostic() {
    let result = compile_markup("{fg=cyan}x{/}", &FieldStyle::title(), &palette());
    assert!(matches!(result.diagnostics.as_slice(), [MarkupDiagnostic::DisallowedTag(_)]));
    assert_eq!(
        result.text,
        StyledText::new().styled("x", Style::new().with_attrs(Attributes::bold()))
    );
}

#[test]
fn an_unterminated_tag_is_malformed_and_kept_literal() {
    let result = compile_markup("a {fg=cyan rune", &FieldStyle::description(), &palette());
    assert!(matches!(result.diagnostics.as_slice(), [MarkupDiagnostic::Malformed(_)]));
    assert_eq!(result.text, StyledText::from("a {fg=cyan rune"));
}

#[test]
fn an_unmatched_close_is_malformed() {
    let result = compile_markup("x{/}", &FieldStyle::description(), &palette());
    assert!(matches!(result.diagnostics.as_slice(), [MarkupDiagnostic::Malformed(_)]));
    assert_eq!(result.text, StyledText::from("x"));
}

#[test]
fn escaped_braces_render_literally() {
    let result = compile_markup("use {{b}} for bold", &FieldStyle::description(), &palette());
    assert!(result.diagnostics.is_empty());
    assert_eq!(result.text, StyledText::from("use {b} for bold"));
}

#[test]
fn a_role_shaped_tag_is_unknown_in_markup() {
    let result = compile_markup("{say}hi{/}", &FieldStyle::description(), &palette());
    assert!(matches!(result.diagnostics.as_slice(), [MarkupDiagnostic::DisallowedTag(_)]));
    assert_eq!(result.text, StyledText::from("hi"));
    let _ = RoleName::say();
    let _ = Color::rgb(0, 0, 0);
}

#[test]
fn a_tag_left_open_is_reported_after_its_text() {
    let result = compile_markup("{b}loud", &FieldStyle::description(), &palette());
    assert!(matches!(result.diagnostics.as_slice(), [MarkupDiagnostic::Malformed(_)]));
    assert_eq!(
        result.text,
        StyledText::new().styled("loud", Style::new().with_attrs(Attributes::bold()))
    );
}

#[test]
fn diagnostics_name_the_offending_tag() {
    let result = compile_markup("{blink}x{/}", &FieldStyle::description(), &palette());
    assert_eq!(result.diagnostics, vec![MarkupDiagnostic::DisallowedTag("blink".to_owned())]);
    assert!(!result.diagnostics[0].message().is_empty());
}
