use cascade::style::{parse_color, Style};
use cascade::viewport::{Breakpoint, Viewport};

fn style_of(pairs: &[(&str, &str)]) -> Style {
    let mut s = Style::new();
    for (k, v) in pairs {
        s.insert(k, v);
    }
    s
}

#[test]
fn breakpoint_boundaries() {
    // Widths in milli-pixels: 767.99, 768.0, 1023.99, 1024.0.
    assert_eq!(Breakpoint::from_width(767_990), Breakpoint::Mobile);
    assert_eq!(Breakpoint::from_width(768_000), Breakpoint::Tablet);
    assert_eq!(Breakpoint::from_width(1_023_990), Breakpoint::Tablet);
    assert_eq!(Breakpoint::from_width(1_024_000), Breakpoint::Desktop);
    assert_eq!(Breakpoint::from_width(0), Breakpoint::Mobile);
}

#[test]
fn viewport_breakpoint_and_default() {
    let vp = Viewport::new(800_000, 600_000);
    assert_eq!(vp.breakpoint(), Breakpoint::Tablet);
    let d = Viewport::default();
    assert_eq!(d.width, 1_200_000);
    assert_eq!(d.height, 800_000);
    assert_eq!(d.breakpoint(), Breakpoint::Desktop);
}

#[test]
fn hex_parsing_short_form() {
    assert_eq!(parse_color("#abc"), (0xaa, 0xbb, 0xcc));
}

#[test]
fn hex_parsing_long_form() {
    assert_eq!(parse_color("#112233"), (0x11, 0x22, 0x33));
}

#[test]
fn hex_parsing_uses_first_six_digits() {
    assert_eq!(parse_color("#112233ff"), (0x11, 0x22, 0x33));
    assert_eq!(parse_color("#AbCdEf"), (0xab, 0xcd, 0xef));
}

#[test]
fn hex_parsing_invalid() {
    assert_eq!(parse_color("notacolor"), (0, 0, 0));
    assert_eq!(parse_color("#12"), (0, 0, 0));
    assert_eq!(parse_color(""), (0, 0, 0));
    assert_eq!(parse_color("#zzz"), (0, 0, 0));
    assert_eq!(parse_color("  #fff  "), (0xff, 0xff, 0xff));
}

#[test]
fn hex_parsing_unparsable_digit_yields_black() {
    // One bad digit among those used makes the whole color black.
    assert_eq!(parse_color("#12zz34"), (0, 0, 0));
    assert_eq!(parse_color("#1z3"), (0, 0, 0));
    assert_eq!(parse_color("#gggggg"), (0, 0, 0));
    // Bad digits past the first six are ignored.
    assert_eq!(parse_color("#112233zz"), (0x11, 0x22, 0x33));
}

#[test]
fn unicode_whitespace_is_trimmed() {
    // Values padded with non-ASCII whitespace parse like space-padded ones.
    assert_eq!(parse_color("\u{00A0}#fff\u{2003}"), (0xff, 0xff, 0xff));
    let s = style_of(&[("font-size", "\u{2009}20px\u{2009}")]);
    assert_eq!(s.get_font_size(), 20_000);
}

#[test]
fn color_accessors() {
    let s = style_of(&[("color", "#ff0000")]);
    assert_eq!(s.get_color(), (0xff, 0, 0));
    let unset = Style::new();
    assert_eq!(unset.get_color(), (0, 0, 0));
    assert_eq!(unset.get_background_color(), None);
    let bg = style_of(&[("background-color", "#00ff00")]);
    assert_eq!(bg.get_background_color(), Some((0, 0xff, 0)));
    let both = style_of(&[("background", "#0000ff"), ("background-color", "#00ff00")]);
    assert_eq!(both.get_background_color(), Some((0, 0, 0xff)));
}

#[test]
fn font_size_units() {
    assert_eq!(style_of(&[("font-size", "2em")]).get_font_size(), 32_000);
    assert_eq!(style_of(&[("font-size", "1.5rem")]).get_font_size(), 24_000);
    assert_eq!(style_of(&[("font-size", "20px")]).get_font_size(), 20_000);
    assert_eq!(Style::new().get_font_size(), 16_000);
    assert_eq!(style_of(&[("font-size", "12")]).get_font_size(), 12_000);
    assert_eq!(style_of(&[("font-size", "garbage")]).get_font_size(), 16_000);
}

#[test]
fn font_family_and_weight() {
    assert_eq!(Style::new().get_font_family(), "Times New Roman");
    assert_eq!(style_of(&[("font-family", "Georgia")]).get_font_family(), "Georgia");
    assert_eq!(Style::new().get_font_weight(), "normal");
    assert!(style_of(&[("font-weight", "bold")]).is_bold());
    assert!(style_of(&[("font-weight", "700")]).is_bold());
    assert!(style_of(&[("font-weight", "800")]).is_bold());
    assert!(style_of(&[("font-weight", "900")]).is_bold());
    assert!(!style_of(&[("font-weight", "400")]).is_bold());
    assert!(!Style::new().is_bold());
}

#[test]
fn font_style_italic() {
    assert_eq!(Style::new().get_font_style(), "normal");
    assert!(style_of(&[("font-style", "italic")]).is_italic());
    assert!(!style_of(&[("font-style", "oblique")]).is_italic());
}

#[test]
fn opacity_parsing() {
    assert_eq!(Style::new().get_opacity(), 1_000);
    assert_eq!(style_of(&[("opacity", "0.5")]).get_opacity(), 500);
    assert_eq!(style_of(&[("opacity", " 0.25 ")]).get_opacity(), 250);
    assert_eq!(style_of(&[("opacity", "junk")]).get_opacity(), 1_000);
}

#[test]
fn text_decoration_contains() {
    let s = style_of(&[("text-decoration", "underline line-through")]);
    assert!(s.has_text_decoration("underline"));
    assert!(s.has_text_decoration("line-through"));
    assert!(!s.has_text_decoration("overline"));
    assert!(!Style::new().has_text_decoration("underline"));
    assert_eq!(s.get_text_decoration(), Some("underline line-through"));
    assert_eq!(Style::new().get_text_decoration(), None);
}

#[test]
fn style_get_and_insert() {
    let mut s = Style::new();
    assert_eq!(s.get("color"), None);
    s.insert("color", "red");
    assert_eq!(s.get("color"), Some("red"));
    s.insert("color", "blue");
    assert_eq!(s.get("color"), Some("blue"));
    assert_eq!(s.len(), 1);
    s.insert("margin", "0");
    assert_eq!(s.len(), 2);
}
