use cascade::style::Style;

fn style_of(pairs: &[(&str, &str)]) -> Style {
    let mut s = Style::new();
    for (k, v) in pairs {
        s.insert(k, v);
    }
    s
}

#[test]
fn margin_shorthand_two_values() {
    let s = style_of(&[("margin", "10px 20px")]);
    assert_eq!(s.get_margin(), (10_000, 20_000, 10_000, 20_000));
}

#[test]
fn margin_shorthand_three_values() {
    let s = style_of(&[("margin", "1px 2px 3px")]);
    assert_eq!(s.get_margin(), (1_000, 2_000, 3_000, 2_000));
}

#[test]
fn margin_shorthand_one_and_four_values() {
    assert_eq!(style_of(&[("margin", "8px")]).get_margin(), (8_000, 8_000, 8_000, 8_000));
    assert_eq!(
        style_of(&[("margin", "1px 2px 3px 4px")]).get_margin(),
        (1_000, 2_000, 3_000, 4_000)
    );
    // Extra tokens beyond the fourth are ignored.
    assert_eq!(
        style_of(&[("margin", "1px 2px 3px 4px 5px")]).get_margin(),
        (1_000, 2_000, 3_000, 4_000)
    );
}

#[test]
fn margin_longhand_overrides_shorthand() {
    let s = style_of(&[("margin", "10px 20px"), ("margin-left", "5px")]);
    assert_eq!(s.get_margin(), (10_000, 20_000, 10_000, 5_000));
}

#[test]
fn margin_units() {
    // em values are multiplied by sixteen; auto reads as zero.
    let s = style_of(&[("margin", "0.3em 0.5em")]);
    assert_eq!(s.get_margin(), (4_800, 8_000, 4_800, 8_000));
    let a = style_of(&[("margin", "0 auto")]);
    assert_eq!(a.get_margin(), (0, 0, 0, 0));
    // Unrecognized suffixes fall back to a bare numeric parse, which fails.
    assert_eq!(style_of(&[("margin", "5pt")]).get_margin().0, 0);
    // A bare number is taken as is.
    assert_eq!(style_of(&[("margin", "7")]).get_margin().0, 7_000);
    // An empty shorthand leaves every side at zero.
    assert_eq!(style_of(&[("margin", "  ")]).get_margin(), (0, 0, 0, 0));
}

#[test]
fn margin_with_viewport_resolves_vh() {
    // 10vh of an 800px-high viewport is 80px.
    let s = style_of(&[("margin", "10vh")]);
    assert_eq!(
        s.get_margin_with_viewport(800_000),
        (80_000, 80_000, 80_000, 80_000)
    );
    // Without viewport context the raw magnitude is kept.
    assert_eq!(s.get_margin(), (10_000, 10_000, 10_000, 10_000));
}

#[test]
fn auto_margin_detection() {
    assert!(style_of(&[("margin", "0 auto")]).has_auto_horizontal_margin());
    assert!(!style_of(&[("margin-left", "auto")]).has_auto_horizontal_margin());
    assert!(
        style_of(&[("margin-left", "auto"), ("margin-right", "auto")])
            .has_auto_horizontal_margin()
    );
    assert!(style_of(&[("margin", "1px auto 2px auto")]).has_auto_horizontal_margin());
    assert!(!style_of(&[("margin", "1px auto 2px 3px")]).has_auto_horizontal_margin());
    assert!(!style_of(&[("margin", "auto")]).has_auto_horizontal_margin());
    assert!(!Style::new().has_auto_horizontal_margin());
}

#[test]
fn padding_shorthand() {
    assert_eq!(style_of(&[("padding", "4px")]).get_padding(), (4_000, 4_000, 4_000, 4_000));
    assert_eq!(
        style_of(&[("padding", "1px 2px")]).get_padding(),
        (1_000, 2_000, 1_000, 2_000)
    );
    assert_eq!(
        style_of(&[("padding", "1px 2px 3px")]).get_padding(),
        (1_000, 2_000, 3_000, 2_000)
    );
    assert_eq!(
        style_of(&[("padding", "1px 2px 3px 4px")]).get_padding(),
        (1_000, 2_000, 3_000, 4_000)
    );
    assert_eq!(Style::new().get_padding(), (0, 0, 0, 0));
}

#[test]
fn width_percentage() {
    assert_eq!(style_of(&[("width", "50%")]).get_width_percentage(), Some(500));
    assert_eq!(style_of(&[("width", "30vw")]).get_width_percentage(), Some(300));
    assert_eq!(style_of(&[("width", "200px")]).get_width_percentage(), None);
    assert_eq!(Style::new().get_width_percentage(), None);
}

#[test]
fn width_px_resolution() {
    // Viewport width 1000px.
    let vw = 1_000_000;
    assert_eq!(style_of(&[("width", "50%")]).get_width_px(vw), Some(500_000));
    assert_eq!(style_of(&[("width", "25vw")]).get_width_px(vw), Some(250_000));
    assert_eq!(style_of(&[("width", "120px")]).get_width_px(vw), Some(120_000));
    assert_eq!(style_of(&[("width", "80")]).get_width_px(vw), Some(80_000));
    assert_eq!(style_of(&[("width", "junk")]).get_width_px(vw), None);
    assert_eq!(Style::new().get_width_px(vw), None);
}

#[test]
fn max_width_px_resolution() {
    let vw = 1_000_000;
    assert_eq!(style_of(&[("max-width", "50%")]).get_max_width_px(vw), Some(500_000));
    assert_eq!(style_of(&[("max-width", "640px")]).get_max_width_px(vw), Some(640_000));
    assert_eq!(Style::new().get_max_width_px(vw), None);
}
