//! Rules, selectors, media conditions and the cascade engine.
//!
//! A [`Stylesheet`] owns ordered author rules and media rules and resolves
//! the effective [`Style`] of a document node in four layers: inherited
//! properties, user-agent defaults for the tag, author rules in
//! registration order, then rules of matching media conditions. Each layer
//! overwrites earlier values property by property.

use vstd::prelude::*;

use crate::dom::{Dom, ElementData, ElementView, NodeId, NodeType, NodeTypeView, NodeView};
use crate::style::{Style, map_of};
use crate::text::str_eq;
use crate::viewport::{Breakpoint, Viewport, spec_breakpoint};

verus! {

// ---------------------------------------------------------------------------
// Selectors.
// ---------------------------------------------------------------------------

/// A matching predicate over elements: by tag, class attribute, id
/// attribute, tag with an (ignored) pseudo-element, or anything.
#[derive(Debug, Clone)]
pub enum Selector {
    Tag(String),
    Class(String),
    Id(String),
    TagWithPseudo(String, String),
    Any,
}

/// The mathematical picture of a selector.
pub enum SelectorView {
    Tag(Seq<char>),
    Class(Seq<char>),
    Id(Seq<char>),
    TagWithPseudo(Seq<char>, Seq<char>),
    Any,
}

impl View for Selector {
    type V = SelectorView;

    open spec fn view(&self) -> SelectorView {
        match self {
            Selector::Tag(t) => SelectorView::Tag(t@),
            Selector::Class(c) => SelectorView::Class(c@),
            Selector::Id(i) => SelectorView::Id(i@),
            Selector::TagWithPseudo(t, p) => SelectorView::TagWithPseudo(t@, p@),
            Selector::Any => SelectorView::Any,
        }
    }
}

/// Whether an attribute list holds the pair `(key, value)` exactly.
pub open spec fn has_attr(attrs: Seq<(Seq<char>, Seq<char>)>, key: Seq<char>, value: Seq<char>) -> bool {
    exists|i: int|
        0 <= i < attrs.len() && (#[trigger] attrs[i]).0 == key && attrs[i].1 == value
}

/// Whether a selector matches an element: `Tag("*")` and `Any` always
/// match; `Tag` compares the tag name; `Id` and `Class` look for an exact
/// attribute pair; a pseudo-element selector matches by tag alone.
pub open spec fn sel_matches(s: SelectorView, el: ElementView) -> bool {
    match s {
        SelectorView::Tag(t) => t == "*"@ || t == el.tag_name,
        SelectorView::Class(c) => has_attr(el.attributes, "class"@, c),
        SelectorView::Id(v) => has_attr(el.attributes, "id"@, v),
        SelectorView::TagWithPseudo(t, _p) => t == el.tag_name,
        SelectorView::Any => true,
    }
}

/// Scans an attribute list for the exact pair `(key, value)`; executable
/// twin of [`has_attr`].
fn attr_list_has(el: &ElementData, key: &str, value: &str) -> (r: bool)
    ensures
        r == has_attr(el@.attributes, key@, value@),
{
    let ghost attrs = el@.attributes;
    let n = el.attributes.len();
    let mut i: usize = 0;
    while i < n
        invariant
            n == el.attributes@.len(),
            attrs == el@.attributes,
            i <= n,
            forall|j: int| 0 <= j < i ==> !((#[trigger] attrs[j]).0 == key@ && attrs[j].1 == value@),
        decreases n - i,
    {
        let p = &el.attributes[i];
        if str_eq(p.0.as_str(), key) && str_eq(p.1.as_str(), value) {
            proof {
                assert(attrs[i as int] == (p.0@, p.1@));
            }
            return true;
        }
        proof {
            assert(attrs[i as int] == (p.0@, p.1@));
        }
        i += 1;
    }
    false
}

/// Whether `sel` matches `el`; executable twin of [`sel_matches`].
pub fn selector_matches(sel: &Selector, el: &ElementData) -> (r: bool)
    ensures
        r == sel_matches(sel@, el@),
{
    match sel {
        Selector::Tag(t) => str_eq(t.as_str(), "*") || str_eq(t.as_str(), el.tag_name.as_str()),
        Selector::Class(c) => attr_list_has(el, "class", c.as_str()),
        Selector::Id(v) => attr_list_has(el, "id", v.as_str()),
        Selector::TagWithPseudo(t, _p) => str_eq(t.as_str(), el.tag_name.as_str()),
        Selector::Any => true,
    }
}

// ---------------------------------------------------------------------------
// Rules and media rules.
// ---------------------------------------------------------------------------

/// One author rule: a selector and the properties it declares.
#[derive(Debug, Clone)]
pub struct CssRule {
    pub selector: Selector,
    pub declarations: Style,
}

/// The mathematical picture of a rule.
pub struct RuleView {
    pub selector: SelectorView,
    pub declarations: Map<Seq<char>, Seq<char>>,
}

impl View for CssRule {
    type V = RuleView;

    open spec fn view(&self) -> RuleView {
        RuleView { selector: self.selector@, declarations: self.declarations@ }
    }
}

impl DeepView for CssRule {
    type V = RuleView;

    open spec fn deep_view(&self) -> RuleView {
        self@
    }
}

/// A viewport condition gating a media rule; bounds are inclusive.
#[derive(Debug, Clone)]
pub enum MediaCondition {
    MinWidth(i64),
    MaxWidth(i64),
    Breakpoint(Breakpoint),
}

/// The mathematical picture of a media condition.
pub enum MediaConditionView {
    MinWidth(int),
    MaxWidth(int),
    Breakpoint(Breakpoint),
}

impl View for MediaCondition {
    type V = MediaConditionView;

    open spec fn view(&self) -> MediaConditionView {
        match self {
            MediaCondition::MinWidth(w) => MediaConditionView::MinWidth(*w as int),
            MediaCondition::MaxWidth(w) => MediaConditionView::MaxWidth(*w as int),
            MediaCondition::Breakpoint(b) => MediaConditionView::Breakpoint(*b),
        }
    }
}

/// Whether a condition holds of a viewport width (milli-pixels).
pub open spec fn cond_matches(c: MediaConditionView, vw: int) -> bool {
    match c {
        MediaConditionView::MinWidth(m) => vw >= m,
        MediaConditionView::MaxWidth(m) => vw <= m,
        MediaConditionView::Breakpoint(b) => spec_breakpoint(vw) == b,
    }
}

impl MediaCondition {
    /// Whether this condition holds of the viewport; executable twin of
    /// [`cond_matches`].
    pub fn matches(&self, viewport: &Viewport) -> (r: bool)
        ensures
            r == cond_matches(self@, viewport.width as int),
    {
        match self {
            MediaCondition::MinWidth(m) => viewport.width >= *m,
            MediaCondition::MaxWidth(m) => viewport.width <= *m,
            MediaCondition::Breakpoint(b) => viewport.breakpoint() == *b,
        }
    }
}

/// An independently ordered rule list gated by one media condition.
#[derive(Debug, Clone)]
pub struct MediaRule {
    pub condition: MediaCondition,
    pub rules: Vec<CssRule>,
}

/// The mathematical picture of a media rule.
pub struct MediaRuleView {
    pub condition: MediaConditionView,
    pub rules: Seq<RuleView>,
}

impl View for MediaRule {
    type V = MediaRuleView;

    open spec fn view(&self) -> MediaRuleView {
        MediaRuleView { condition: self.condition@, rules: self.rules.deep_view() }
    }
}

impl DeepView for MediaRule {
    type V = MediaRuleView;

    open spec fn deep_view(&self) -> MediaRuleView {
        self@
    }
}

// ---------------------------------------------------------------------------
// Inheritable properties.
// ---------------------------------------------------------------------------

/// The fixed set of property names whose resolved values propagate from a
/// parent element to its children.
pub open spec fn is_inheritable(k: Seq<char>) -> bool {
    k == "font-family"@ || k == "font-size"@ || k == "font-weight"@ || k == "font-style"@ || k
        == "color"@ || k == "line-height"@ || k == "text-align"@ || k == "text-decoration"@ || k
        == "font-variant"@ || k == "letter-spacing"@ || k == "word-spacing"@
}

/// The inheritable property names as a set.
pub open spec fn inheritable_keys() -> Set<Seq<char>> {
    Set::new(|k: Seq<char>| is_inheritable(k))
}

/// Whether a property name is inheritable; executable twin of
/// [`is_inheritable`].
pub fn is_inheritable_property(property: &str) -> (r: bool)
    ensures
        r == is_inheritable(property@),
{
    str_eq(property, "font-family") || str_eq(property, "font-size") || str_eq(
        property,
        "font-weight",
    ) || str_eq(property, "font-style") || str_eq(property, "color") || str_eq(
        property,
        "line-height",
    ) || str_eq(property, "text-align") || str_eq(property, "text-decoration") || str_eq(
        property,
        "font-variant",
    ) || str_eq(property, "letter-spacing") || str_eq(property, "word-spacing")
}

// ---------------------------------------------------------------------------
// User-agent defaults.
// ---------------------------------------------------------------------------

/// The user-agent default declarations for a tag, keyed purely by the tag
/// name. Tags without an entry get no defaults.
pub open spec fn default_style_map(tag: Seq<char>) -> Map<Seq<char>, Seq<char>> {
    let e = Map::<Seq<char>, Seq<char>>::empty();
    if tag == "a"@ {
        e.insert("color"@, "#0000ff"@).insert("text-decoration"@, "underline"@)
    } else if tag == "b"@ || tag == "strong"@ {
        e.insert("font-weight"@, "bold"@)
    } else if tag == "i"@ || tag == "em"@ {
        e.insert("font-style"@, "italic"@)
    } else if tag == "u"@ {
        e.insert("text-decoration"@, "underline"@)
    } else if tag == "s"@ || tag == "del"@ {
        e.insert("text-decoration"@, "line-through"@)
    } else if tag == "code"@ {
        e.insert("font-family"@, "monospace"@)
    } else if tag == "pre"@ {
        e.insert("font-family"@, "monospace"@).insert("margin"@, "1em 0.5em"@)
    } else if tag == "h1"@ {
        e.insert("font-size"@, "2em"@).insert("font-weight"@, "bold"@).insert(
            "margin"@,
            "0.3em 0.5em"@,
        )
    } else if tag == "h2"@ {
        e.insert("font-size"@, "1.5em"@).insert("font-weight"@, "bold"@).insert(
            "margin"@,
            "0.25em 0.5em"@,
        )
    } else if tag == "h3"@ {
        e.insert("font-size"@, "1.17em"@).insert("font-weight"@, "bold"@).insert(
            "margin"@,
            "0.2em 0.5em"@,
        )
    } else if tag == "h4"@ {
        e.insert("font-size"@, "1em"@).insert("font-weight"@, "bold"@).insert(
            "margin"@,
            "0.2em 0.5em"@,
        )
    } else if tag == "h5"@ {
        e.insert("font-size"@, "0.83em"@).insert("font-weight"@, "bold"@).insert(
            "margin"@,
            "0.2em 0.5em"@,
        )
    } else if tag == "h6"@ {
        e.insert("font-size"@, "0.67em"@).insert("font-weight"@, "bold"@).insert(
            "margin"@,
            "0.2em 0.5em"@,
        )
    } else if tag == "p"@ {
        e.insert("margin"@, "0.3em 0.5em"@)
    } else if tag == "ul"@ || tag == "ol"@ {
        e.insert("margin"@, "0.3em 0.5em"@).insert("padding-left"@, "40px"@)
    } else if tag == "li"@ {
        e.insert("margin"@, "0"@)
    } else if tag == "dl"@ {
        e.insert("margin"@, "0.3em 0.5em"@)
    } else if tag == "dt"@ {
        e.insert("font-weight"@, "bold"@)
    } else if tag == "dd"@ {
        e.insert("margin-left"@, "2em"@)
    } else if tag == "blockquote"@ {
        e.insert("margin"@, "0.3em 0 0.3em 2em"@)
    } else if tag == "hr"@ {
        e.insert("margin"@, "0.3em 0.5em"@).insert("border"@, "1px solid #ccc"@)
    } else if tag == "address"@ {
        e.insert("margin"@, "0.3em 0.5em"@).insert("font-style"@, "italic"@)
    } else if tag == "article"@ || tag == "aside"@ || tag == "section"@ || tag == "header"@ || tag
        == "footer"@ || tag == "nav"@ || tag == "main"@ {
        e.insert("margin"@, "0"@)
    } else if tag == "figure"@ {
        e.insert("margin"@, "0.3em 2em"@)
    } else if tag == "figcaption"@ {
        e.insert("font-style"@, "italic"@).insert("margin"@, "0"@)
    } else if tag == "form"@ {
        e.insert("margin"@, "0.3em 0.5em"@)
    } else if tag == "fieldset"@ {
        e.insert("margin"@, "0.3em 0.5em"@).insert("padding"@, "0.5em"@).insert(
            "border"@,
            "1px solid #ccc"@,
        )
    } else if tag == "legend"@ {
        e.insert("padding"@, "0 0.25em"@)
    } else if tag == "table"@ {
        e.insert("margin"@, "0.3em 0.5em"@).insert("border-collapse"@, "collapse"@)
    } else if tag == "body"@ {
        e.insert("margin"@, "8px"@)
    } else {
        e
    }
}

/// Writes the user-agent defaults for `tag_name` over `style`.
#[verifier::rlimit(50)]
fn apply_default_styles(style: &mut Style, tag_name: &str)
    requires
        old(style).wf(),
    ensures
        final(style).wf(),
        final(style)@ == old(style)@.union_prefer_right(default_style_map(tag_name@)),
{
    let ghost goal = old(style)@.union_prefer_right(default_style_map(tag_name@));
    if str_eq(tag_name, "a") {
        style.insert("color", "#0000ff");
        style.insert("text-decoration", "underline");
        proof {
            assert(style@ =~= goal);
        }
    } else if str_eq(tag_name, "b") || str_eq(tag_name, "strong") {
        style.insert("font-weight", "bold");
        proof {
            assert(style@ =~= goal);
        }
    } else if str_eq(tag_name, "i") || str_eq(tag_name, "em") {
        style.insert("font-style", "italic");
        proof {
            assert(style@ =~= goal);
        }
    } else if str_eq(tag_name, "u") {
        style.insert("text-decoration", "underline");
        proof {
            assert(style@ =~= goal);
        }
    } else if str_eq(tag_name, "s") || str_eq(tag_name, "del") {
        style.insert("text-decoration", "line-through");
        proof {
            assert(style@ =~= goal);
        }
    } else if str_eq(tag_name, "code") {
        style.insert("font-family", "monospace");
        proof {
            assert(style@ =~= goal);
        }
    } else if str_eq(tag_name, "pre") {
        style.insert("font-family", "monospace");
        style.insert("margin", "1em 0.5em");
        proof {
            assert(style@ =~= goal);
        }
    } else if str_eq(tag_name, "h1") {
        style.insert("font-size", "2em");
        style.insert("font-weight", "bold");
        style.insert("margin", "0.3em 0.5em");
        proof {
            assert(style@ =~= goal);
        }
    } else if str_eq(tag_name, "h2") {
        style.insert("font-size", "1.5em");
        style.insert("font-weight", "bold");
        style.insert("margin", "0.25em 0.5em");
        proof {
            assert(style@ =~= goal);
        }
    } else if str_eq(tag_name, "h3") {
        style.insert("font-size", "1.17em");
        style.insert("font-weight", "bold");
        style.insert("margin", "0.2em 0.5em");
        proof {
            assert(style@ =~= goal);
        }
    } else if str_eq(tag_name, "h4") {
        style.insert("font-size", "1em");
        style.insert("font-weight", "bold");
        style.insert("margin", "0.2em 0.5em");
        proof {
            assert(style@ =~= goal);
        }
    } else if str_eq(tag_name, "h5") {
        style.insert("font-size", "0.83em");
        style.insert("font-weight", "bold");
        style.insert("margin", "0.2em 0.5em");
        proof {
            assert(style@ =~= goal);
        }
    } else if str_eq(tag_name, "h6") {
        style.insert("font-size", "0.67em");
        style.insert("font-weight", "bold");
        style.insert("margin", "0.2em 0.5em");
        proof {
            assert(style@ =~= goal);
        }
    } else if str_eq(tag_name, "p") {
        style.insert("margin", "0.3em 0.5em");
        proof {
            assert(style@ =~= goal);
        }
    } else if str_eq(tag_name, "ul") || str_eq(tag_name, "ol") {
        style.insert("margin", "0.3em 0.5em");
        style.insert("padding-left", "40px");
        proof {
            assert(style@ =~= goal);
        }
    } else if str_eq(tag_name, "li") {
        style.insert("margin", "0");
        proof {
            assert(style@ =~= goal);
        }
    } else if str_eq(tag_name, "dl") {
        style.insert("margin", "0.3em 0.5em");
        proof {
            assert(style@ =~= goal);
        }
    } else if str_eq(tag_name, "dt") {
        style.insert("font-weight", "bold");
        proof {
            assert(style@ =~= goal);
        }
    } else if str_eq(tag_name, "dd") {
        style.insert("margin-left", "2em");
        proof {
            assert(style@ =~= goal);
        }
    } else if str_eq(tag_name, "blockquote") {
        style.insert("margin", "0.3em 0 0.3em 2em");
        proof {
            assert(style@ =~= goal);
        }
    } else if str_eq(tag_name, "hr") {
        style.insert("margin", "0.3em 0.5em");
        style.insert("border", "1px solid #ccc");
        proof {
            assert(style@ =~= goal);
        }
    } else if str_eq(tag_name, "address") {
        style.insert("margin", "0.3em 0.5em");
        style.insert("font-style", "italic");
        proof {
            assert(style@ =~= goal);
        }
    } else if str_eq(tag_name, "article") || str_eq(tag_name, "aside") || str_eq(
        tag_name,
        "section",
    ) || str_eq(tag_name, "header") || str_eq(tag_name, "footer") || str_eq(tag_name, "nav")
        || str_eq(tag_name, "main") {
        style.insert("margin", "0");
        proof {
            assert(style@ =~= goal);
        }
    } else if str_eq(tag_name, "figure") {
        style.insert("margin", "0.3em 2em");
        proof {
            assert(style@ =~= goal);
        }
    } else if str_eq(tag_name, "figcaption") {
        style.insert("font-style", "italic");
        style.insert("margin", "0");
        proof {
            assert(style@ =~= goal);
        }
    } else if str_eq(tag_name, "form") {
        style.insert("margin", "0.3em 0.5em");
        proof {
            assert(style@ =~= goal);
        }
    } else if str_eq(tag_name, "fieldset") {
        style.insert("margin", "0.3em 0.5em");
        style.insert("padding", "0.5em");
        style.insert("border", "1px solid #ccc");
        proof {
            assert(style@ =~= goal);
        }
    } else if str_eq(tag_name, "legend") {
        style.insert("padding", "0 0.25em");
        proof {
            assert(style@ =~= goal);
        }
    } else if str_eq(tag_name, "table") {
        style.insert("margin", "0.3em 0.5em");
        style.insert("border-collapse", "collapse");
        proof {
            assert(style@ =~= goal);
        }
    } else if str_eq(tag_name, "body") {
        style.insert("margin", "8px");
        proof {
            assert(style@ =~= goal);
        }
    } else {
        proof {
            assert(style@ =~= goal);
        }
    }
}

// ---------------------------------------------------------------------------
// Merging helpers.
// ---------------------------------------------------------------------------

/// Inserting a pair into a map keeps or drops it under `restrict`
/// according to whether the key is in the kept set.
proof fn lemma_restrict_insert(
    m: Map<Seq<char>, Seq<char>>,
    s: Set<Seq<char>>,
    k: Seq<char>,
    v: Seq<char>,
)
    ensures
        s.contains(k) ==> m.insert(k, v).restrict(s) == m.restrict(s).insert(k, v),
        !s.contains(k) ==> m.insert(k, v).restrict(s) == m.restrict(s),
{
    if s.contains(k) {
        assert(m.insert(k, v).restrict(s) =~= m.restrict(s).insert(k, v));
    } else {
        assert(m.insert(k, v).restrict(s) =~= m.restrict(s));
    }
}

/// Writes every declaration of `decls` over `result`.
fn apply_decls(result: &mut Style, decls: &Style)
    requires
        old(result).wf(),
    ensures
        final(result).wf(),
        final(result)@ == old(result)@.union_prefer_right(decls@),
{
    let ghost entries = decls.entries_view();
    let n = decls.len();
    let mut i: usize = 0;
    proof {
        assert(old(result)@.union_prefer_right(map_of(entries.take(0))) =~= old(result)@);
    }
    while i < n
        invariant
            result.wf(),
            i <= n,
            n == entries.len(),
            entries == decls.entries_view(),
            result@ == old(result)@.union_prefer_right(map_of(entries.take(i as int))),
        decreases n - i,
    {
        let (k, v) = decls.entry_at(i);
        proof {
            assert(entries.take(i + 1).drop_last() =~= entries.take(i as int));
            assert(entries.take(i + 1).last() == entries[i as int]);
        }
        result.insert(k.as_str(), v.as_str());
        proof {
            vstd::map_lib::lemma_union_insert_right(
                old(result)@,
                map_of(entries.take(i as int)),
                entries[i as int].0,
                entries[i as int].1,
            );
        }
        i += 1;
    }
    proof {
        assert(entries.take(n as int) =~= entries);
    }
}

/// Copies the inheritable properties of `parent` over `result`.
fn inherit_into(result: &mut Style, parent: &Style)
    requires
        old(result).wf(),
    ensures
        final(result).wf(),
        final(result)@ == old(result)@.union_prefer_right(parent@.restrict(inheritable_keys())),
{
    let ghost entries = parent.entries_view();
    let n = parent.len();
    let mut i: usize = 0;
    proof {
        assert(old(result)@.union_prefer_right(map_of(entries.take(0)).restrict(inheritable_keys()))
            =~= old(result)@);
    }
    while i < n
        invariant
            result.wf(),
            i <= n,
            n == entries.len(),
            entries == parent.entries_view(),
            result@ == old(result)@.union_prefer_right(
                map_of(entries.take(i as int)).restrict(inheritable_keys()),
            ),
        decreases n - i,
    {
        let (k, v) = parent.entry_at(i);
        proof {
            assert(entries.take(i + 1).drop_last() =~= entries.take(i as int));
            assert(entries.take(i + 1).last() == entries[i as int]);
            lemma_restrict_insert(
                map_of(entries.take(i as int)),
                inheritable_keys(),
                entries[i as int].0,
                entries[i as int].1,
            );
        }
        if is_inheritable_property(k.as_str()) {
            result.insert(k.as_str(), v.as_str());
            proof {
                vstd::map_lib::lemma_union_insert_right(
                    old(result)@,
                    map_of(entries.take(i as int)).restrict(inheritable_keys()),
                    entries[i as int].0,
                    entries[i as int].1,
                );
            }
        }
        i += 1;
    }
    proof {
        assert(entries.take(n as int) =~= entries);
    }
}

// ---------------------------------------------------------------------------
// The cascade.
// ---------------------------------------------------------------------------

/// Applies one rule: if its selector matches, its declarations overwrite.
pub open spec fn apply_rule(m: Map<Seq<char>, Seq<char>>, r: RuleView, el: ElementView) -> Map<
    Seq<char>,
    Seq<char>,
> {
    if sel_matches(r.selector, el) {
        m.union_prefer_right(r.declarations)
    } else {
        m
    }
}

/// Applies an ordered rule list, later rules overwriting earlier ones.
pub open spec fn apply_rules(
    m: Map<Seq<char>, Seq<char>>,
    rules: Seq<RuleView>,
    el: ElementView,
) -> Map<Seq<char>, Seq<char>>
    decreases rules.len(),
{
    if rules.len() == 0 {
        m
    } else {
        apply_rule(apply_rules(m, rules.drop_last(), el), rules.last(), el)
    }
}

/// Applies one media rule: its rule list, if its condition holds.
pub open spec fn apply_media_rule(
    m: Map<Seq<char>, Seq<char>>,
    mr: MediaRuleView,
    el: ElementView,
    vw: int,
) -> Map<Seq<char>, Seq<char>> {
    if cond_matches(mr.condition, vw) {
        apply_rules(m, mr.rules, el)
    } else {
        m
    }
}

/// Applies an ordered media rule list against a viewport width.
pub open spec fn apply_media_rules(
    m: Map<Seq<char>, Seq<char>>,
    media: Seq<MediaRuleView>,
    el: ElementView,
    vw: int,
) -> Map<Seq<char>, Seq<char>>
    decreases media.len(),
{
    if media.len() == 0 {
        m
    } else {
        apply_media_rule(apply_media_rules(m, media.drop_last(), el, vw), media.last(), el, vw)
    }
}

/// The resolved style of node `id`: for an element, inherited properties,
/// then user-agent defaults, then author rules, then active media rules,
/// each layer overwriting per property; for a text node, the parent's full
/// resolved style; empty without a parent.
pub open spec fn computed_style(
    dom: Seq<NodeView>,
    id: int,
    rules: Seq<RuleView>,
    media: Seq<MediaRuleView>,
    vw: int,
) -> Map<Seq<char>, Seq<char>>
    decreases id,
{
    if !(0 <= id < dom.len()) {
        Map::empty()
    } else {
        let node = dom[id];
        match node.node_type {
            NodeTypeView::Element(el) => {
                let inherited = match node.parent {
                    Some(p) => if 0 <= p < id {
                        computed_style(dom, p, rules, media, vw).restrict(inheritable_keys())
                    } else {
                        Map::empty()
                    },
                    None => Map::empty(),
                };
                let with_defaults = inherited.union_prefer_right(default_style_map(el.tag_name));
                let after_rules = apply_rules(with_defaults, rules, el);
                apply_media_rules(after_rules, media, el, vw)
            },
            NodeTypeView::Text(_) => match node.parent {
                Some(p) => if 0 <= p < id {
                    computed_style(dom, p, rules, media, vw)
                } else {
                    Map::empty()
                },
                None => Map::empty(),
            },
        }
    }
}

// ---------------------------------------------------------------------------
// The stylesheet.
// ---------------------------------------------------------------------------

/// The cascade engine: ordered author rules, ordered media rules, and a
/// default viewport for queries that do not name one.
pub struct Stylesheet {
    pub rules: Vec<CssRule>,
    pub media_rules: Vec<MediaRule>,
    pub viewport: Viewport,
}

/// The mathematical picture of a stylesheet.
pub struct StylesheetView {
    pub rules: Seq<RuleView>,
    pub media_rules: Seq<MediaRuleView>,
    pub viewport: Viewport,
}

impl View for Stylesheet {
    type V = StylesheetView;

    open spec fn view(&self) -> StylesheetView {
        StylesheetView {
            rules: self.rules.deep_view(),
            media_rules: self.media_rules.deep_view(),
            viewport: self.viewport,
        }
    }
}

impl Stylesheet {
    /// An empty stylesheet with the default viewport.
    pub fn new() -> (r: Stylesheet)
        ensures
            r@.rules.len() == 0,
            r@.media_rules.len() == 0,
            r@.viewport.width == 1_200_000int,
            r@.viewport.height == 800_000int,
    {
        let r = Stylesheet {
            rules: Vec::new(),
            media_rules: Vec::new(),
            viewport: Viewport { width: 1_200_000, height: 800_000 },
        };
        proof {
            assert(r@.rules =~= Seq::<RuleView>::empty());
            assert(r@.media_rules =~= Seq::<MediaRuleView>::empty());
        }
        r
    }

    /// Replaces the stored viewport.
    pub fn set_viewport(&mut self, viewport: Viewport)
        ensures
            final(self)@.viewport == viewport,
            final(self)@.rules == old(self)@.rules,
            final(self)@.media_rules == old(self)@.media_rules,
    {
        self.viewport = viewport;
    }

    /// The stored viewport.
    pub fn get_viewport(&self) -> (r: Viewport)
        ensures
            r == self@.viewport,
    {
        self.viewport
    }

    /// Appends one author rule; rules apply in registration order.
    pub fn add_rule(&mut self, selector: Selector, declarations: Style)
        ensures
            final(self)@.rules == old(self)@.rules.push(
                RuleView { selector: selector@, declarations: declarations@ },
            ),
            final(self)@.media_rules == old(self)@.media_rules,
            final(self)@.viewport == old(self)@.viewport,
    {
        self.rules.push(CssRule { selector, declarations });
        proof {
            assert(self@.rules =~= old(self)@.rules.push(self.rules@.last()@));
        }
    }

    /// Appends one media rule; media rules apply in registration order,
    /// after all author rules.
    pub fn add_media_rule(&mut self, condition: MediaCondition, rules: Vec<CssRule>)
        ensures
            final(self)@.media_rules == old(self)@.media_rules.push(
                MediaRuleView { condition: condition@, rules: rules.deep_view() },
            ),
            final(self)@.rules == old(self)@.rules,
            final(self)@.viewport == old(self)@.viewport,
    {
        self.media_rules.push(MediaRule { condition, rules });
        proof {
            assert(self@.media_rules =~= old(self)@.media_rules.push(self.media_rules@.last()@));
        }
    }

    /// Resolves the style of `node_id` against the stored viewport.
    pub fn compute_style(&self, dom: &Dom, node_id: NodeId) -> (r: Style)
        requires
            dom.wf(),
            node_id < dom@.len(),
        ensures
            r.wf(),
            r@ == computed_style(
                dom@,
                node_id as int,
                self@.rules,
                self@.media_rules,
                self@.viewport.width as int,
            ),
    {
        let viewport = self.viewport;
        self.compute_style_with_viewport(dom, node_id, &viewport)
    }

    /// Resolves the style of `node_id` against an explicit viewport;
    /// executable twin of [`computed_style`].
    pub fn compute_style_with_viewport(&self, dom: &Dom, node_id: NodeId, viewport: &Viewport) -> (r:
        Style)
        requires
            dom.wf(),
            node_id < dom@.len(),
        ensures
            r.wf(),
            r@ == computed_style(
                dom@,
                node_id as int,
                self@.rules,
                self@.media_rules,
                viewport.width as int,
            ),
        decreases node_id,
    {
        let ghost vw = viewport.width as int;
        let node = &dom.nodes[node_id];
        proof {
            assert(dom@[node_id as int] == node@);
        }
        match &node.node_type {
            NodeType::Element(el) => {
                let mut result = Style::new();
                if let Some(parent_id) = node.parent {
                    proof {
                        assert(dom@[node_id as int].parent == Some(parent_id as int));
                    }
                    let parent_style = self.compute_style_with_viewport(dom, parent_id, viewport);
                    inherit_into(&mut result, &parent_style);
                    proof {
                        assert(result@ =~= parent_style@.restrict(inheritable_keys()));
                    }
                }
                let ghost inherited = result@;
                apply_default_styles(&mut result, el.tag_name.as_str());
                let ghost with_defaults = result@;
                let ghost rules_v = self@.rules;
                let n = self.rules.len();
                let mut i: usize = 0;
                proof {
                    assert(rules_v.take(0) =~= Seq::<RuleView>::empty());
                }
                while i < n
                    invariant
                        result.wf(),
                        i <= n,
                        n == self.rules@.len(),
                        rules_v == self@.rules,
                        result@ == apply_rules(with_defaults, rules_v.take(i as int), el@),
                    decreases n - i,
                {
                    let rule = &self.rules[i];
                    proof {
                        assert(rules_v[i as int] == rule@);
                        assert(rules_v.take(i + 1).drop_last() =~= rules_v.take(i as int));
                        assert(rules_v.take(i + 1).last() == rules_v[i as int]);
                    }
                    if selector_matches(&rule.selector, el) {
                        apply_decls(&mut result, &rule.declarations);
                    }
                    i += 1;
                }
                proof {
                    assert(rules_v.take(n as int) =~= rules_v);
                }
                let ghost after_rules = result@;
                let ghost media_v = self@.media_rules;
                let m = self.media_rules.len();
                let mut j: usize = 0;
                proof {
                    assert(media_v.take(0) =~= Seq::<MediaRuleView>::empty());
                }
                while j < m
                    invariant
                        result.wf(),
                        j <= m,
                        m == self.media_rules@.len(),
                        media_v == self@.media_rules,
                        vw == viewport.width as int,
                        result@ == apply_media_rules(after_rules, media_v.take(j as int), el@, vw),
                    decreases m - j,
                {
                    let media_rule = &self.media_rules[j];
                    proof {
                        assert(media_v[j as int] == media_rule@);
                        assert(media_v.take(j + 1).drop_last() =~= media_v.take(j as int));
                        assert(media_v.take(j + 1).last() == media_v[j as int]);
                    }
                    if media_rule.condition.matches(viewport) {
                        let ghost inner_v = media_rule@.rules;
                        let ghost before = result@;
                        let inner_n = media_rule.rules.len();
                        let mut k: usize = 0;
                        proof {
                            assert(inner_v.take(0) =~= Seq::<RuleView>::empty());
                        }
                        while k < inner_n
                            invariant
                                result.wf(),
                                k <= inner_n,
                                inner_n == media_rule.rules@.len(),
                                inner_v == media_rule@.rules,
                                before == apply_media_rules(
                                    after_rules,
                                    media_v.take(j as int),
                                    el@,
                                    vw,
                                ),
                                result@ == apply_rules(before, inner_v.take(k as int), el@),
                            decreases inner_n - k,
                        {
                            let rule = &media_rule.rules[k];
                            proof {
                                assert(inner_v[k as int] == rule@);
                                assert(inner_v.take(k + 1).drop_last() =~= inner_v.take(k as int));
                                assert(inner_v.take(k + 1).last() == inner_v[k as int]);
                            }
                            if selector_matches(&rule.selector, el) {
                                apply_decls(&mut result, &rule.declarations);
                            }
                            k += 1;
                        }
                        proof {
                            assert(inner_v.take(inner_n as int) =~= inner_v);
                        }
                    }
                    j += 1;
                }
                proof {
                    assert(media_v.take(m as int) =~= media_v);
                }
                result
            },
            NodeType::Text(_) => {
                if let Some(parent_id) = node.parent {
                    proof {
                        assert(dom@[node_id as int].parent == Some(parent_id as int));
                    }
                    self.compute_style_with_viewport(dom, parent_id, viewport)
                } else {
                    Style::new()
                }
            },
        }
    }
}

impl Default for Stylesheet {
    fn default() -> (r: Stylesheet)
        ensures
            r@.rules.len() == 0,
            r@.media_rules.len() == 0,
            r@.viewport.width == 1_200_000int,
            r@.viewport.height == 800_000int,
    {
        Stylesheet::new()
    }
}

} // verus!
