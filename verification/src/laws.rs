//! General laws of the cascade, stated and proved over the specification
//! functions of [`crate::sheet`].

use vstd::prelude::*;

use crate::dom::{ElementView, NodeView, dom_wf};
use crate::sheet::{
    MediaRuleView, RuleView, apply_media_rules, apply_rules, computed_style, cond_matches,
    default_style_map, inheritable_keys, is_inheritable, sel_matches,
};

verus! {

/// Some rule of the list matches `el` and declares property `k`.
pub open spec fn rules_declare(rules: Seq<RuleView>, el: ElementView, k: Seq<char>) -> bool {
    exists|j: int|
        0 <= j < rules.len() && sel_matches((#[trigger] rules[j]).selector, el)
            && rules[j].declarations.contains_key(k)
}

/// Some media rule of the list is active for the viewport width and has a
/// rule that matches `el` and declares property `k`.
pub open spec fn media_declare(
    media: Seq<MediaRuleView>,
    el: ElementView,
    vw: int,
    k: Seq<char>,
) -> bool {
    exists|j: int|
        0 <= j < media.len() && cond_matches((#[trigger] media[j]).condition, vw)
            && rules_declare(media[j].rules, el, k)
}

/// A rule list no member of which matches and declares `k` leaves `k`
/// untouched.
pub proof fn lemma_rules_preserve(
    m: Map<Seq<char>, Seq<char>>,
    rules: Seq<RuleView>,
    el: ElementView,
    k: Seq<char>,
)
    requires
        !rules_declare(rules, el, k),
    ensures
        apply_rules(m, rules, el).contains_key(k) == m.contains_key(k),
        m.contains_key(k) ==> apply_rules(m, rules, el)[k] == m[k],
    decreases rules.len(),
{
    if rules.len() > 0 {
        assert(!rules_declare(rules.drop_last(), el, k)) by {
            assert forall|j: int|
                0 <= j < rules.drop_last().len() implies !(sel_matches(
                (#[trigger] rules.drop_last()[j]).selector,
                el,
            ) && rules.drop_last()[j].declarations.contains_key(k)) by {
                assert(rules.drop_last()[j] == rules[j]);
            }
        }
        lemma_rules_preserve(m, rules.drop_last(), el, k);
        assert(rules[rules.len() - 1] == rules.last());
    }
}

/// The value a rule list leaves at a declared key does not depend on what
/// stood there before: both cascades end with `k` present and equal.
pub proof fn lemma_rules_determine(
    a: Map<Seq<char>, Seq<char>>,
    b: Map<Seq<char>, Seq<char>>,
    rules: Seq<RuleView>,
    el: ElementView,
    k: Seq<char>,
)
    requires
        rules_declare(rules, el, k),
    ensures
        apply_rules(a, rules, el).contains_key(k),
        apply_rules(b, rules, el).contains_key(k),
        apply_rules(a, rules, el)[k] == apply_rules(b, rules, el)[k],
    decreases rules.len(),
{
    let last = rules.last();
    if sel_matches(last.selector, el) && last.declarations.contains_key(k) {
        // The last rule decides.
    } else {
        let j = choose|j: int|
            0 <= j < rules.len() && sel_matches((#[trigger] rules[j]).selector, el)
                && rules[j].declarations.contains_key(k);
        assert(j < rules.len() - 1);
        assert(rules.drop_last()[j] == rules[j]);
        assert(rules_declare(rules.drop_last(), el, k));
        lemma_rules_determine(a, b, rules.drop_last(), el, k);
    }
}

/// A media rule list with no active declaration of `k` leaves `k`
/// untouched.
pub proof fn lemma_media_preserve(
    m: Map<Seq<char>, Seq<char>>,
    media: Seq<MediaRuleView>,
    el: ElementView,
    vw: int,
    k: Seq<char>,
)
    requires
        !media_declare(media, el, vw, k),
    ensures
        apply_media_rules(m, media, el, vw).contains_key(k) == m.contains_key(k),
        m.contains_key(k) ==> apply_media_rules(m, media, el, vw)[k] == m[k],
    decreases media.len(),
{
    if media.len() > 0 {
        assert(!media_declare(media.drop_last(), el, vw, k)) by {
            assert forall|j: int|
                0 <= j < media.drop_last().len() implies !(cond_matches(
                (#[trigger] media.drop_last()[j]).condition,
                vw,
            ) && rules_declare(media.drop_last()[j].rules, el, k)) by {
                assert(media.drop_last()[j] == media[j]);
            }
        }
        lemma_media_preserve(m, media.drop_last(), el, vw, k);
        let prev = apply_media_rules(m, media.drop_last(), el, vw);
        let last = media.last();
        assert(media[media.len() - 1] == last);
        if cond_matches(last.condition, vw) {
            assert(!rules_declare(last.rules, el, k));
            lemma_rules_preserve(prev, last.rules, el, k);
        }
    }
}

/// The value an active media declaration leaves at `k` does not depend on
/// what the earlier layers wrote there.
pub proof fn lemma_media_determine(
    a: Map<Seq<char>, Seq<char>>,
    b: Map<Seq<char>, Seq<char>>,
    media: Seq<MediaRuleView>,
    el: ElementView,
    vw: int,
    k: Seq<char>,
)
    requires
        media_declare(media, el, vw, k),
    ensures
        apply_media_rules(a, media, el, vw).contains_key(k),
        apply_media_rules(b, media, el, vw).contains_key(k),
        apply_media_rules(a, media, el, vw)[k] == apply_media_rules(b, media, el, vw)[k],
    decreases media.len(),
{
    let last = media.last();
    assert(media[media.len() - 1] == last);
    let pa = apply_media_rules(a, media.drop_last(), el, vw);
    let pb = apply_media_rules(b, media.drop_last(), el, vw);
    if cond_matches(last.condition, vw) && rules_declare(last.rules, el, k) {
        lemma_rules_determine(pa, pb, last.rules, el, k);
    } else {
        let j = choose|j: int|
            0 <= j < media.len() && cond_matches((#[trigger] media[j]).condition, vw)
                && rules_declare(media[j].rules, el, k);
        assert(j < media.len() - 1);
        assert(media.drop_last()[j] == media[j]);
        assert(media_declare(media.drop_last(), el, vw, k));
        lemma_media_determine(a, b, media.drop_last(), el, vw, k);
        if cond_matches(last.condition, vw) {
            lemma_rules_preserve(pa, last.rules, el, k);
            lemma_rules_preserve(pb, last.rules, el, k);
        }
    }
}

/// Within one rule list, the last rule that matches the element and
/// declares a property decides its value, whatever stood below.
pub proof fn lemma_last_matching_rule_wins(
    m: Map<Seq<char>, Seq<char>>,
    rules: Seq<RuleView>,
    el: ElementView,
    i: int,
    k: Seq<char>,
)
    requires
        0 <= i < rules.len(),
        sel_matches(rules[i].selector, el),
        rules[i].declarations.contains_key(k),
        forall|j: int|
            i < j < rules.len() ==> !(sel_matches((#[trigger] rules[j]).selector, el)
                && rules[j].declarations.contains_key(k)),
    ensures
        apply_rules(m, rules, el).contains_key(k),
        apply_rules(m, rules, el)[k] == rules[i].declarations[k],
    decreases rules.len(),
{
    if i == rules.len() - 1 {
        assert(rules.last() == rules[i]);
    } else {
        assert(rules.drop_last()[i] == rules[i]);
        assert forall|j: int|
            i < j < rules.drop_last().len() implies !(sel_matches(
            (#[trigger] rules.drop_last()[j]).selector,
            el,
        ) && rules.drop_last()[j].declarations.contains_key(k)) by {
            assert(rules.drop_last()[j] == rules[j]);
        }
        lemma_last_matching_rule_wins(m, rules.drop_last(), el, i, k);
        assert(rules[rules.len() - 1] == rules.last());
    }
}

/// An active media declaration of `k` decides the cascaded value of `k`
/// whatever the unconditional author rules wrote there, in whatever
/// registration order.
pub proof fn lemma_media_overrides_author(
    base: Map<Seq<char>, Seq<char>>,
    rules1: Seq<RuleView>,
    rules2: Seq<RuleView>,
    media: Seq<MediaRuleView>,
    el: ElementView,
    vw: int,
    k: Seq<char>,
)
    requires
        media_declare(media, el, vw, k),
    ensures
        apply_media_rules(apply_rules(base, rules1, el), media, el, vw).contains_key(k),
        apply_media_rules(apply_rules(base, rules1, el), media, el, vw)[k] == apply_media_rules(
            apply_rules(base, rules2, el),
            media,
            el,
            vw,
        )[k],
{
    lemma_media_determine(
        apply_rules(base, rules1, el),
        apply_rules(base, rules2, el),
        media,
        el,
        vw,
        k,
    );
}

/// An inheritable property set on the parent propagates unchanged to an
/// element that neither its user-agent defaults, nor any matching author
/// rule, nor any active matching media rule declares.
pub proof fn lemma_inherited_property(
    dom: Seq<NodeView>,
    id: int,
    p: int,
    rules: Seq<RuleView>,
    media: Seq<MediaRuleView>,
    vw: int,
    k: Seq<char>,
)
    requires
        dom_wf(dom),
        0 <= id < dom.len(),
        dom[id].node_type is Element,
        dom[id].parent == Some(p),
        is_inheritable(k),
        computed_style(dom, p, rules, media, vw).contains_key(k),
        !default_style_map(dom[id].node_type->Element_0.tag_name).contains_key(k),
        !rules_declare(rules, dom[id].node_type->Element_0, k),
        !media_declare(media, dom[id].node_type->Element_0, vw, k),
    ensures
        computed_style(dom, id, rules, media, vw).contains_key(k),
        computed_style(dom, id, rules, media, vw)[k] == computed_style(dom, p, rules, media, vw)[k],
{
    let el = dom[id].node_type->Element_0;
    let parent_map = computed_style(dom, p, rules, media, vw);
    let inherited = parent_map.restrict(inheritable_keys());
    assert(0 <= p < id);
    assert(inheritable_keys().contains(k));
    assert(inherited.contains_key(k) && inherited[k] == parent_map[k]);
    let with_defaults = inherited.union_prefer_right(default_style_map(el.tag_name));
    assert(with_defaults.contains_key(k) && with_defaults[k] == parent_map[k]);
    lemma_rules_preserve(with_defaults, rules, el, k);
    lemma_media_preserve(apply_rules(with_defaults, rules, el), media, el, vw, k);
}

/// A parent-to-child chain of element nodes, none of which declares `k`
/// through its defaults, a matching author rule or an active matching
/// media rule.
pub open spec fn quiet_chain(
    dom: Seq<NodeView>,
    ids: Seq<int>,
    rules: Seq<RuleView>,
    media: Seq<MediaRuleView>,
    vw: int,
    k: Seq<char>,
) -> bool {
    forall|i: int|
        1 <= i < ids.len() ==> {
            let id = #[trigger] ids[i];
            &&& 0 <= id < dom.len()
            &&& dom[id].node_type is Element
            &&& dom[id].parent == Some(ids[i - 1])
            &&& !default_style_map(dom[id].node_type->Element_0.tag_name).contains_key(k)
            &&& !rules_declare(rules, dom[id].node_type->Element_0, k)
            &&& !media_declare(media, dom[id].node_type->Element_0, vw, k)
        }
}

/// An inheritable property resolved on an ancestor propagates unchanged
/// down any chain of descendants none of which declares it itself.
pub proof fn lemma_inherited_through_chain(
    dom: Seq<NodeView>,
    ids: Seq<int>,
    rules: Seq<RuleView>,
    media: Seq<MediaRuleView>,
    vw: int,
    k: Seq<char>,
)
    requires
        dom_wf(dom),
        ids.len() >= 1,
        quiet_chain(dom, ids, rules, media, vw, k),
        is_inheritable(k),
        computed_style(dom, ids[0], rules, media, vw).contains_key(k),
    ensures
        computed_style(dom, ids.last(), rules, media, vw).contains_key(k),
        computed_style(dom, ids.last(), rules, media, vw)[k] == computed_style(
            dom,
            ids[0],
            rules,
            media,
            vw,
        )[k],
    decreases ids.len(),
{
    if ids.len() > 1 {
        assert(quiet_chain(dom, ids.drop_last(), rules, media, vw, k)) by {
            assert forall|i: int| 1 <= i < ids.drop_last().len() implies {
                let id = #[trigger] ids.drop_last()[i];
                &&& 0 <= id < dom.len()
                &&& dom[id].node_type is Element
                &&& dom[id].parent == Some(ids.drop_last()[i - 1])
                &&& !default_style_map(dom[id].node_type->Element_0.tag_name).contains_key(k)
                &&& !rules_declare(rules, dom[id].node_type->Element_0, k)
                &&& !media_declare(media, dom[id].node_type->Element_0, vw, k)
            } by {
                assert(ids.drop_last()[i] == ids[i]);
                assert(ids.drop_last()[i - 1] == ids[i - 1]);
            }
        }
        lemma_inherited_through_chain(dom, ids.drop_last(), rules, media, vw, k);
        let n = ids.len() - 1;
        assert(ids.drop_last().last() == ids[n - 1]);
        assert(ids.last() == ids[n]);
        lemma_inherited_property(dom, ids[n], ids[n - 1], rules, media, vw, k);
    }
}

/// A non-inheritable property never reaches an element from its parent: if
/// neither the element's defaults nor any matching rule declares it, it is
/// absent from the resolved style, whatever the parent holds.
pub proof fn lemma_uninherited_property(
    dom: Seq<NodeView>,
    id: int,
    rules: Seq<RuleView>,
    media: Seq<MediaRuleView>,
    vw: int,
    k: Seq<char>,
)
    requires
        dom_wf(dom),
        0 <= id < dom.len(),
        dom[id].node_type is Element,
        !is_inheritable(k),
        !default_style_map(dom[id].node_type->Element_0.tag_name).contains_key(k),
        !rules_declare(rules, dom[id].node_type->Element_0, k),
        !media_declare(media, dom[id].node_type->Element_0, vw, k),
    ensures
        !computed_style(dom, id, rules, media, vw).contains_key(k),
{
    let el = dom[id].node_type->Element_0;
    let inherited = match dom[id].parent {
        Some(p) => computed_style(dom, p, rules, media, vw).restrict(inheritable_keys()),
        None => Map::<Seq<char>, Seq<char>>::empty(),
    };
    assert(!inheritable_keys().contains(k));
    assert(!inherited.contains_key(k));
    let with_defaults = inherited.union_prefer_right(default_style_map(el.tag_name));
    assert(!with_defaults.contains_key(k));
    lemma_rules_preserve(with_defaults, rules, el, k);
    lemma_media_preserve(apply_rules(with_defaults, rules, el), media, el, vw, k);
}

/// A text node's resolved style is its parent's full resolved style,
/// non-inheritable properties included.
pub proof fn lemma_text_node_style(
    dom: Seq<NodeView>,
    id: int,
    p: int,
    rules: Seq<RuleView>,
    media: Seq<MediaRuleView>,
    vw: int,
)
    requires
        dom_wf(dom),
        0 <= id < dom.len(),
        dom[id].node_type is Text,
        dom[id].parent == Some(p),
    ensures
        computed_style(dom, id, rules, media, vw) == computed_style(dom, p, rules, media, vw),
{
    assert(0 <= p < id);
}

} // verus!
