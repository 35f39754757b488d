use cascade::dom::Dom;
use cascade::sheet::{CssRule, MediaCondition, Selector, Stylesheet};
use cascade::style::Style;
use cascade::viewport::{Breakpoint, Viewport};

fn decls(pairs: &[(&str, &str)]) -> Style {
    let mut s = Style::new();
    for (k, v) in pairs {
        s.insert(k, v);
    }
    s
}

#[test]
fn ua_defaults_for_paragraph_in_body() {
    // Viewport 1200x800, UA defaults only: <p> inside <body> resolves to
    // its own margin default, and font-family stays absent, so the typed
    // accessor falls back to Times New Roman.
    let mut dom = Dom::new();
    let body = dom.push_element(None, "body", Vec::new());
    let p = dom.push_element(Some(body), "p", Vec::new());
    let sheet = Stylesheet::new();
    let style = sheet.compute_style(&dom, p);
    assert_eq!(style.get("margin"), Some("0.3em 0.5em"));
    assert_eq!(style.get("font-family"), None);
    assert_eq!(style.get_font_family(), "Times New Roman");
}

#[test]
fn author_rule_overrides_ua_default() {
    let mut dom = Dom::new();
    let h1 = dom.push_element(None, "h1", Vec::new());
    let mut sheet = Stylesheet::new();
    // UA default gives h1 a margin of "0.3em 0.5em".
    sheet.add_rule(Selector::Tag(String::from("h1")), decls(&[("margin", "0")]));
    let style = sheet.compute_style(&dom, h1);
    assert_eq!(style.get("margin"), Some("0"));
}

#[test]
fn media_rule_overrides_author_rule_regardless_of_order() {
    let mut dom = Dom::new();
    let h1 = dom.push_element(None, "h1", Vec::new());
    let mut sheet = Stylesheet::new();
    // The media rule is registered before the author rule, yet its active
    // condition still wins the tie on "margin".
    sheet.add_media_rule(
        MediaCondition::MinWidth(0),
        vec![CssRule {
            selector: Selector::Tag(String::from("h1")),
            declarations: decls(&[("margin", "1em")]),
        }],
    );
    sheet.add_rule(Selector::Tag(String::from("h1")), decls(&[("margin", "0")]));
    let style = sheet.compute_style(&dom, h1);
    assert_eq!(style.get("margin"), Some("1em"));
}

#[test]
fn inactive_media_rule_is_skipped() {
    let mut dom = Dom::new();
    let h1 = dom.push_element(None, "h1", Vec::new());
    let mut sheet = Stylesheet::new();
    sheet.add_rule(Selector::Tag(String::from("h1")), decls(&[("margin", "0")]));
    // Default viewport is 1200px wide; a max-width of 700px does not hold.
    sheet.add_media_rule(
        MediaCondition::MaxWidth(700_000),
        vec![CssRule {
            selector: Selector::Tag(String::from("h1")),
            declarations: decls(&[("margin", "1em")]),
        }],
    );
    let style = sheet.compute_style(&dom, h1);
    assert_eq!(style.get("margin"), Some("0"));
}

#[test]
fn breakpoint_media_condition() {
    let mut dom = Dom::new();
    let p = dom.push_element(None, "p", Vec::new());
    let mut sheet = Stylesheet::new();
    sheet.add_media_rule(
        MediaCondition::Breakpoint(Breakpoint::Mobile),
        vec![CssRule {
            selector: Selector::Any,
            declarations: decls(&[("font-size", "14px")]),
        }],
    );
    // Desktop default viewport: rule inactive.
    let style = sheet.compute_style(&dom, p);
    assert_eq!(style.get("font-size"), None);
    // What-if query with a mobile viewport: rule active.
    let mobile = Viewport::new(400_000, 700_000);
    let style = sheet.compute_style_with_viewport(&dom, p, &mobile);
    assert_eq!(style.get("font-size"), Some("14px"));
}

#[test]
fn color_inherits_to_nested_element() {
    let mut dom = Dom::new();
    let root = dom.push_element(None, "div", Vec::new());
    let mid = dom.push_element(Some(root), "div", Vec::new());
    let leaf = dom.push_element(Some(mid), "span", Vec::new());
    let mut sheet = Stylesheet::new();
    sheet.add_rule(Selector::Tag(String::from("div")), decls(&[("color", "#123456")]));
    let style = sheet.compute_style(&dom, leaf);
    assert_eq!(style.get("color"), Some("#123456"));
    assert_eq!(style.get_color(), (0x12, 0x34, 0x56));
}

#[test]
fn margin_does_not_inherit() {
    let mut dom = Dom::new();
    let root = dom.push_element(None, "div", Vec::new());
    let leaf = dom.push_element(Some(root), "span", Vec::new());
    let mut sheet = Stylesheet::new();
    sheet.add_rule(Selector::Tag(String::from("div")), decls(&[("margin", "50px")]));
    let parent_style = sheet.compute_style(&dom, root);
    assert_eq!(parent_style.get("margin"), Some("50px"));
    let style = sheet.compute_style(&dom, leaf);
    assert_eq!(style.get("margin"), None);
}

#[test]
fn text_node_takes_parent_style_wholesale() {
    let mut dom = Dom::new();
    let p = dom.push_element(None, "p", Vec::new());
    let text = dom.push_text(Some(p), "hello");
    let mut sheet = Stylesheet::new();
    sheet.add_rule(Selector::Tag(String::from("p")), decls(&[("color", "#000001")]));
    let parent_style = sheet.compute_style(&dom, p);
    let text_style = sheet.compute_style(&dom, text);
    // The whole style carries over, non-inheritable margin included.
    assert_eq!(text_style.get("color"), Some("#000001"));
    assert_eq!(text_style.get("margin"), parent_style.get("margin"));
    assert_eq!(text_style.get("margin"), Some("0.3em 0.5em"));
}

#[test]
fn orphan_text_node_has_empty_style() {
    let mut dom = Dom::new();
    let text = dom.push_text(None, "floating");
    let sheet = Stylesheet::new();
    let style = sheet.compute_style(&dom, text);
    assert_eq!(style.len(), 0);
}

#[test]
fn id_and_class_selectors_match_exactly() {
    let mut dom = Dom::new();
    let el = dom.push_element(
        None,
        "div",
        vec![
            (String::from("id"), String::from("hero")),
            (String::from("class"), String::from("a b")),
        ],
    );
    let mut sheet = Stylesheet::new();
    sheet.add_rule(Selector::Id(String::from("hero")), decls(&[("width", "100px")]));
    // Class matching is against the whole attribute value, not per token.
    sheet.add_rule(Selector::Class(String::from("a")), decls(&[("color", "#ff0000")]));
    sheet.add_rule(Selector::Class(String::from("a b")), decls(&[("opacity", "0.5")]));
    let style = sheet.compute_style(&dom, el);
    assert_eq!(style.get("width"), Some("100px"));
    assert_eq!(style.get("color"), None);
    assert_eq!(style.get("opacity"), Some("0.5"));
}

#[test]
fn wildcard_and_pseudo_selectors() {
    let mut dom = Dom::new();
    let el = dom.push_element(None, "em", Vec::new());
    let mut sheet = Stylesheet::new();
    sheet.add_rule(Selector::Tag(String::from("*")), decls(&[("line-height", "1.2")]));
    sheet.add_rule(Selector::Any, decls(&[("letter-spacing", "1px")]));
    // The pseudo component is not evaluated; the tag alone decides.
    sheet.add_rule(
        Selector::TagWithPseudo(String::from("em"), String::from("hover")),
        decls(&[("color", "#00ff00")]),
    );
    sheet.add_rule(
        Selector::TagWithPseudo(String::from("strong"), String::from("hover")),
        decls(&[("width", "10px")]),
    );
    let style = sheet.compute_style(&dom, el);
    assert_eq!(style.get("line-height"), Some("1.2"));
    assert_eq!(style.get("letter-spacing"), Some("1px"));
    assert_eq!(style.get("color"), Some("#00ff00"));
    assert_eq!(style.get("width"), None);
    // The UA default for em still shows beneath the author rules.
    assert_eq!(style.get("font-style"), Some("italic"));
}

#[test]
fn later_author_rule_wins_tie() {
    let mut dom = Dom::new();
    let p = dom.push_element(None, "p", Vec::new());
    let mut sheet = Stylesheet::new();
    sheet.add_rule(Selector::Tag(String::from("p")), decls(&[("color", "#111111")]));
    sheet.add_rule(Selector::Any, decls(&[("color", "#222222")]));
    let style = sheet.compute_style(&dom, p);
    assert_eq!(style.get("color"), Some("#222222"));
}

#[test]
fn min_and_max_width_bounds_are_inclusive() {
    let vp = Viewport::new(1_000_000, 800_000);
    assert!(MediaCondition::MinWidth(1_000_000).matches(&vp));
    assert!(MediaCondition::MaxWidth(1_000_000).matches(&vp));
    assert!(!MediaCondition::MinWidth(1_000_001).matches(&vp));
    assert!(!MediaCondition::MaxWidth(999_999).matches(&vp));
}

#[test]
fn set_viewport_changes_default_queries() {
    let mut dom = Dom::new();
    let p = dom.push_element(None, "p", Vec::new());
    let mut sheet = Stylesheet::new();
    sheet.add_media_rule(
        MediaCondition::Breakpoint(Breakpoint::Mobile),
        vec![CssRule {
            selector: Selector::Any,
            declarations: decls(&[("font-size", "14px")]),
        }],
    );
    sheet.set_viewport(Viewport::new(500_000, 700_000));
    assert_eq!(sheet.get_viewport().width, 500_000);
    let style = sheet.compute_style(&dom, p);
    assert_eq!(style.get("font-size"), Some("14px"));
}

#[test]
fn ua_default_table_entries() {
    let mut dom = Dom::new();
    let a = dom.push_element(None, "a", Vec::new());
    let b = dom.push_element(None, "b", Vec::new());
    let h1 = dom.push_element(None, "h1", Vec::new());
    let ul = dom.push_element(None, "ul", Vec::new());
    let body = dom.push_element(None, "body", Vec::new());
    let custom = dom.push_element(None, "widget", Vec::new());
    let sheet = Stylesheet::new();
    let sa = sheet.compute_style(&dom, a);
    assert_eq!(sa.get("color"), Some("#0000ff"));
    assert!(sa.has_text_decoration("underline"));
    assert!(sheet.compute_style(&dom, b).is_bold());
    let sh = sheet.compute_style(&dom, h1);
    assert_eq!(sh.get("font-size"), Some("2em"));
    assert_eq!(sh.get_font_size(), 32_000);
    let su = sheet.compute_style(&dom, ul);
    assert_eq!(su.get("padding-left"), Some("40px"));
    assert_eq!(sheet.compute_style(&dom, body).get("margin"), Some("8px"));
    assert_eq!(sheet.compute_style(&dom, custom).len(), 0);
}

#[test]
fn resolution_is_repeatable() {
    let mut dom = Dom::new();
    let root = dom.push_element(None, "body", Vec::new());
    let p = dom.push_element(Some(root), "p", Vec::new());
    let mut sheet = Stylesheet::new();
    sheet.add_rule(Selector::Tag(String::from("p")), decls(&[("color", "#abcdef")]));
    let s1 = sheet.compute_style(&dom, p);
    let s2 = sheet.compute_style(&dom, p);
    assert_eq!(s1.get("color"), s2.get("color"));
    assert_eq!(s1.len(), s2.len());
}
