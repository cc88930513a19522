//! Unit hints after numbers: pixels, points, and "all sides" for `Spacing(n)`.
use vstd::prelude::*;
use crate::ast::{
    group_ast_model, model_aliases, AliasDeclaration, Layout, NodeType, PropertyValue,
    Property, Span, SpecAliasDeclaration, SpecLayout, SpecNodeType, SpecProperty, SpecPropertyValue,
    SpecTypeValueInner, TypeValueInner,
};
use crate::document::{
    position_fits, spec_offset_to_position, spec_position_to_offset, Document,
};
use crate::protocol::{inlay_hints_view, InlayHint, Range, SpecInlayHint};
use crate::schema::{
    is_first_prop, is_first_type, law_find_prop_by_name, law_lookup_by_name, lookup, schema_types,
    spec_find_prop, spec_lookup, lemma_reveal_schema_names, text_sig,
};
use crate::text::str_eq;
use crate::utils::{real_alias_name, resolve_real_alias_name};

verus! {

broadcast use group_ast_model;

/// The unit of property `key` of the built-in type `ty`, if it has one.
pub open spec fn spec_unit_for_prop(ty: Seq<char>, key: Seq<char>) -> Option<Seq<char>> {
    match spec_lookup(ty) {
        None => None,
        Some(def) => match spec_find_prop(def, key) {
            None => None,
            Some(_) => {
                if key == "max_width"@ || key == "min_width"@ || key == "max_height"@ || key
                    == "min_height"@ || key == "max_size"@ {
                    Some("px"@)
                } else if key == "font_size"@ {
                    Some("pt"@)
                } else if key == "line_spacing"@ {
                    Some("px"@)
                } else if ty == "Spacing"@ && (key == "top"@ || key == "right"@ || key == "bottom"@
                    || key == "left"@) {
                    Some("px"@)
                } else if ty == "Border"@ && (key == "size"@ || key == "radius"@) {
                    Some("px"@)
                } else {
                    None
                }
            },
        },
    }
}

/// The hint after the positional value of a `ty(n)`.
pub open spec fn spec_constructor_hint(ty: Seq<char>) -> Option<Seq<char>> {
    if ty == "Spacing"@ {
        Some("all sides"@)
    } else {
        None
    }
}

pub open spec fn hint_at(lines: Seq<usize>, offset: usize, label: Seq<char>) -> SpecInlayHint {
    SpecInlayHint { position: spec_offset_to_position(lines, offset), label }
}

/// The hints for a value of property `key` of `parent`.
pub open spec fn value_hints(
    value: SpecPropertyValue,
    key: Seq<char>,
    parent: Seq<char>,
    aliases: Seq<SpecAliasDeclaration>,
    lines: Seq<usize>,
) -> Seq<SpecInlayHint>
    decreases value, 0int,
{
    match value {
        SpecPropertyValue::UInt(_, span) => match spec_unit_for_prop(real_alias_name(parent, aliases), key) {
            Some(unit) => seq![hint_at(lines, span.end, unit)],
            None => Seq::empty(),
        },
        SpecPropertyValue::Type(tv) => type_value_inner_hints(tv.inner, tv.name, 0, usize::MAX, aliases, lines)
            + match tv.inner {
            SpecTypeValueInner::Value(v) => match *v {
                SpecPropertyValue::UInt(_, span) => match spec_constructor_hint(tv.name) {
                    Some(h) => seq![hint_at(lines, span.end, h)],
                    None => Seq::empty(),
                },
                _ => Seq::empty(),
            },
            _ => Seq::empty(),
        },
        SpecPropertyValue::Literal(_, _) => Seq::empty(),
    }
}

/// The hints inside the parentheses of `ty(...)`, for the properties that
/// lie within `[start, end]`.
pub open spec fn type_value_inner_hints(
    inner: SpecTypeValueInner,
    ty: Seq<char>,
    start: usize,
    end: usize,
    aliases: Seq<SpecAliasDeclaration>,
    lines: Seq<usize>,
) -> Seq<SpecInlayHint>
    decreases inner, 0int,
{
    match inner {
        SpecTypeValueInner::Properties(props) => props_hints(
            props,
            ty,
            start,
            end,
            aliases,
            lines,
            props.len() as int,
        ),
        _ => Seq::empty(),
    }
}

/// The hints for the first `n` properties, skipping those outside `[start, end]`.
pub open spec fn props_hints(
    props: Seq<SpecProperty>,
    parent: Seq<char>,
    start: usize,
    end: usize,
    aliases: Seq<SpecAliasDeclaration>,
    lines: Seq<usize>,
    n: int,
) -> Seq<SpecInlayHint>
    decreases props, n,
{
    if n <= 0 || n > props.len() {
        Seq::empty()
    } else {
        props_hints(props, parent, start, end, aliases, lines, n - 1) + if props[n - 1].span.start
            < start || props[n - 1].span.end > end {
            Seq::empty()
        } else {
            value_hints(props[n - 1].value, props[n - 1].key, parent, aliases, lines)
        }
    }
}

pub open spec fn node_hints(
    node: SpecNodeType,
    start: usize,
    end: usize,
    aliases: Seq<SpecAliasDeclaration>,
    lines: Seq<usize>,
) -> Seq<SpecInlayHint>
    decreases node, 0int,
{
    props_hints(node.properties, node.name, start, end, aliases, lines, node.properties.len() as int)
        + nodes_hints(node.children, start, end, aliases, lines, node.children.len() as int)
}

pub open spec fn nodes_hints(
    nodes: Seq<SpecNodeType>,
    start: usize,
    end: usize,
    aliases: Seq<SpecAliasDeclaration>,
    lines: Seq<usize>,
    n: int,
) -> Seq<SpecInlayHint>
    decreases nodes, n,
{
    if n <= 0 || n > nodes.len() {
        Seq::empty()
    } else {
        nodes_hints(nodes, start, end, aliases, lines, n - 1) + node_hints(nodes[n - 1], start, end, aliases, lines)
    }
}

pub open spec fn aliases_hints(
    aliases: Seq<SpecAliasDeclaration>,
    start: usize,
    end: usize,
    lines: Seq<usize>,
    n: int,
) -> Seq<SpecInlayHint>
    decreases n,
{
    if n <= 0 || n > aliases.len() {
        Seq::empty()
    } else {
        aliases_hints(aliases, start, end, lines, n - 1) + type_value_inner_hints(
            aliases[n - 1].target.inner,
            aliases[n - 1].target.name,
            start,
            end,
            aliases,
            lines,
        )
    }
}

/// The hints for the properties within `range`: those in alias targets,
/// then those in the components.
pub open spec fn spec_get_inlay_hints(doc: Document, range: Range) -> Seq<SpecInlayHint> {
    match doc.layout {
        None => Seq::empty(),
        Some(layout) => {
            let l = layout@;
            let start = spec_position_to_offset(doc.lines@, range.start);
            let end = spec_position_to_offset(doc.lines@, range.end);
            aliases_hints(l.aliases, start, end, doc.lines@, l.aliases.len() as int) + node_hints(
                l.root,
                start,
                end,
                l.aliases,
                doc.lines@,
            )
        },
    }
}

pub open spec fn option_str_view(o: Option<&str>) -> Option<Seq<char>> {
    match o {
        Some(s) => Some(s@),
        None => None,
    }
}

fn unit_for_prop(ty: &str, prop_key: &str) -> (r: Option<&'static str>)
    ensures
        option_str_view(r) == spec_unit_for_prop(ty@, prop_key@),
{
    let def = match lookup(ty) {
        None => return None,
        Some(d) => d,
    };
    if def.find_prop(prop_key).is_none() {
        return None;
    }
    if str_eq(prop_key, "max_width") || str_eq(prop_key, "min_width") || str_eq(prop_key, "max_height")
        || str_eq(prop_key, "min_height") || str_eq(prop_key, "max_size") {
        Some("px")
    } else if str_eq(prop_key, "font_size") {
        Some("pt")
    } else if str_eq(prop_key, "line_spacing") {
        Some("px")
    } else if str_eq(ty, "Spacing") && (str_eq(prop_key, "top") || str_eq(prop_key, "right") || str_eq(
        prop_key,
        "bottom",
    ) || str_eq(prop_key, "left")) {
        Some("px")
    } else if str_eq(ty, "Border") && (str_eq(prop_key, "size") || str_eq(prop_key, "radius")) {
        Some("px")
    } else {
        None
    }
}

fn constructor_hint(ty: &str) -> (r: Option<&'static str>)
    ensures
        option_str_view(r) == spec_constructor_hint(ty@),
{
    if str_eq(ty, "Spacing") {
        Some("all sides")
    } else {
        None
    }
}

fn push_hint(hints: &mut Vec<InlayHint>, h: InlayHint)
    ensures
        inlay_hints_view(final(hints)@) == inlay_hints_view(old(hints)@).push(h@),
{
    hints.push(h);
    proof {
        assert(inlay_hints_view(hints@) =~= inlay_hints_view(old(hints)@).push(h@));
    }
}

fn hints_in_value(
    value: &PropertyValue,
    prop_key: &str,
    parent_name: &str,
    doc: &Document,
    layout: &Layout,
    hints: &mut Vec<InlayHint>,
)
    requires
        doc.wf(),
    ensures
        inlay_hints_view(final(hints)@) == inlay_hints_view(old(hints)@) + value_hints(
            value@,
            prop_key@,
            parent_name@,
            layout@.aliases,
            doc.lines@,
        ),
    decreases value,
{
    let ghost before = inlay_hints_view(hints@);
    let ghost expected = value_hints(value@, prop_key@, parent_name@, layout@.aliases, doc.lines@);
    match value {
        PropertyValue::UInt(_, span) => {
            let resolved = resolve_real_alias_name(parent_name, layout.aliases.as_slice());
            if let Some(unit) = unit_for_prop(resolved, prop_key) {
                push_hint(
                    hints,
                    InlayHint { position: doc.offset_to_position(span.end), label: String::from_str(unit) },
                );
            }
        },
        PropertyValue::Type(tv) => {
            hints_in_type_value_inner(&tv.inner, tv.name.as_str(), 0, usize::MAX, doc, layout, hints);
            if let TypeValueInner::Value(inner_val) = &tv.inner {
                if let PropertyValue::UInt(_, span) = &**inner_val {
                    if let Some(hint) = constructor_hint(tv.name.as_str()) {
                        push_hint(
                            hints,
                            InlayHint {
                                position: doc.offset_to_position(span.end),
                                label: String::from_str(hint),
                            },
                        );
                    }
                }
            }
        },
        PropertyValue::Literal(_, _) => {},
    }
    proof {
        assert(inlay_hints_view(hints@) =~= before + expected);
    }
}

#[verifier::loop_isolation(false)]
fn hints_in_type_value_inner(
    inner: &TypeValueInner,
    ty: &str,
    start: usize,
    end: usize,
    doc: &Document,
    layout: &Layout,
    hints: &mut Vec<InlayHint>,
)
    requires
        doc.wf(),
    ensures
        inlay_hints_view(final(hints)@) == inlay_hints_view(old(hints)@) + type_value_inner_hints(
            inner@,
            ty@,
            start,
            end,
            layout@.aliases,
            doc.lines@,
        ),
    decreases inner,
{
    let ghost before = inlay_hints_view(hints@);
    if let TypeValueInner::Properties(props) = inner {
        let ghost m = crate::ast::model_properties(props@);
        let mut i: usize = 0;
        assert(before + props_hints(m, ty@, start, end, layout@.aliases, doc.lines@, 0) =~= before);
        while i < props.len()
            invariant
                i <= props@.len(),
                m.len() == props@.len(),
                inlay_hints_view(hints@) == before + props_hints(m, ty@, start, end, layout@.aliases, doc.lines@, i as int),
            decreases props.len() - i,
        {
            let prop = &props[i];
            assert(m[i as int] == prop@);
            if !(prop.span.start < start || prop.span.end > end) {
                hints_in_value(&prop.value, prop.key.as_str(), ty, doc, layout, hints);
            }
            assert(inlay_hints_view(hints@) =~= before + props_hints(
                m,
                ty@,
                start,
                end,
                layout@.aliases,
                doc.lines@,
                i + 1,
            ));
            i = i + 1;
        }
    } else {
        assert(inlay_hints_view(hints@) =~= before + Seq::<SpecInlayHint>::empty());
    }
}

#[verifier::loop_isolation(false)]
fn hints_in_node(
    node: &NodeType,
    start: usize,
    end: usize,
    doc: &Document,
    layout: &Layout,
    hints: &mut Vec<InlayHint>,
)
    requires
        doc.wf(),
    ensures
        inlay_hints_view(final(hints)@) == inlay_hints_view(old(hints)@) + node_hints(
            node@,
            start,
            end,
            layout@.aliases,
            doc.lines@,
        ),
    decreases node,
{
    let ghost before = inlay_hints_view(hints@);
    let ghost m = crate::ast::model_properties(node.properties@);
    let mut i: usize = 0;
    assert(before + props_hints(m, node.name@, start, end, layout@.aliases, doc.lines@, 0) =~= before);
    while i < node.properties.len()
        invariant
            i <= node.properties@.len(),
            m.len() == node.properties@.len(),
            inlay_hints_view(hints@) == before + props_hints(
                m,
                node.name@,
                start,
                end,
                layout@.aliases,
                doc.lines@,
                i as int,
            ),
        decreases node.properties.len() - i,
    {
        let prop = &node.properties[i];
        assert(m[i as int] == prop@);
        if !(prop.span.start < start || prop.span.end > end) {
            hints_in_value(&prop.value, prop.key.as_str(), node.name.as_str(), doc, layout, hints);
        }
        assert(inlay_hints_view(hints@) =~= before + props_hints(
            m,
            node.name@,
            start,
            end,
            layout@.aliases,
            doc.lines@,
            i + 1,
        ));
        i = i + 1;
    }
    let ghost mid = inlay_hints_view(hints@);
    let ghost cm = crate::ast::model_nodes(node.children@);
    let mut k: usize = 0;
    assert(mid + nodes_hints(cm, start, end, layout@.aliases, doc.lines@, 0) =~= mid);
    while k < node.children.len()
        invariant
            k <= node.children@.len(),
            cm.len() == node.children@.len(),
            inlay_hints_view(hints@) == mid + nodes_hints(cm, start, end, layout@.aliases, doc.lines@, k as int),
        decreases node.children.len() - k,
    {
        assert(cm[k as int] == node.children@[k as int]@);
        hints_in_node(&node.children[k], start, end, doc, layout, hints);
        assert(inlay_hints_view(hints@) =~= mid + nodes_hints(
            cm,
            start,
            end,
            layout@.aliases,
            doc.lines@,
            k + 1,
        ));
        k = k + 1;
    }
    assert(inlay_hints_view(hints@) =~= before + node_hints(node@, start, end, layout@.aliases, doc.lines@));
}

/// The hints for the properties within `range`.
#[verifier::loop_isolation(false)]
pub fn get_inlay_hints(doc: &Document, range: Range) -> (r: Vec<InlayHint>)
    requires
        doc.wf(),
        position_fits(doc.lines@, range.start),
        position_fits(doc.lines@, range.end),
    ensures
        inlay_hints_view(r@) == spec_get_inlay_hints(*doc, range),
{
    let mut hints: Vec<InlayHint> = Vec::new();
    let layout = match &doc.layout {
        None => {
            assert(inlay_hints_view(hints@) =~= Seq::<SpecInlayHint>::empty());
            return hints;
        },
        Some(l) => l,
    };
    let start = doc.position_to_offset(range.start);
    let end = doc.position_to_offset(range.end);
    let ghost am = layout@.aliases;
    let mut i: usize = 0;
    assert(inlay_hints_view(hints@) =~= aliases_hints(am, start, end, doc.lines@, 0));
    while i < layout.aliases.len()
        invariant
            i <= layout.aliases@.len(),
            am.len() == layout.aliases@.len(),
            inlay_hints_view(hints@) == aliases_hints(am, start, end, doc.lines@, i as int),
        decreases layout.aliases.len() - i,
    {
        let alias = &layout.aliases[i];
        assert(am[i as int] == alias@);
        hints_in_type_value_inner(&alias.target.inner, alias.target.name.as_str(), start, end, doc, layout, &mut hints);
        i = i + 1;
    }
    hints_in_node(&layout.root, start, end, doc, layout, &mut hints);
    hints
}

/// The keys that carry a unit, and the two types with keys of their own.
spec fn unit_texts() -> Seq<Seq<char>> {
    seq![
        "max_width"@, "min_width"@, "max_height"@, "min_height"@, "max_size"@, "font_size"@,
        "line_spacing"@, "top"@, "right"@, "bottom"@, "left"@, "size"@, "radius"@, "Spacing"@,
        "Border"@,
    ]
}

/// Exactly the integer properties of the built-in types have a unit.
pub proof fn law_units_exactly_for_integers(ty: Seq<char>, key: Seq<char>)
    ensures
        spec_unit_for_prop(ty, key) is Some <==> (spec_lookup(ty) matches Some(def) && spec_find_prop(def, key) matches Some(p)
            && p.value is UInt),
{
    if let Some(def) = spec_lookup(ty) {
        if let Some(p) = spec_find_prop(def, key) {
            law_lookup_by_name(ty);
            law_find_prop_by_name(def, key);
            lemma_reveal_schema_names();
            let ts = schema_types();
            let t = choose|t: int| is_first_type(ts, ty, t);
            let m = choose|m: int| is_first_prop(def.props, key, m);
            assert(def == ts[t] && p == def.props[m] && key == p.name && ty == def.name);
            if !(p.value is UInt) {
                assert forall|u: int| 0 <= u < unit_texts().len() implies key != #[trigger] unit_texts()[u]
                    && ty != unit_texts()[u] by {
                    assert(text_sig(key) != text_sig(unit_texts()[u]));
                    assert(text_sig(ty) != text_sig(unit_texts()[u]));
                }
                assert(!(key == unit_texts()[0] || key == unit_texts()[1] || key == unit_texts()[2]
                    || key == unit_texts()[3] || key == unit_texts()[4] || key == unit_texts()[5]
                    || key == unit_texts()[6] || ty == unit_texts()[13] || ty == unit_texts()[14]));
            }
        }
    }
}

/// Every hint of `a` is among those of `b`.
pub open spec fn hints_included(a: Seq<SpecInlayHint>, b: Seq<SpecInlayHint>) -> bool {
    forall|x: SpecInlayHint| a.contains(x) ==> #[trigger] b.contains(x)
}

proof fn lemma_hints_included_add(a: Seq<SpecInlayHint>, b: Seq<SpecInlayHint>)
    ensures
        hints_included(a, a + b),
        hints_included(b, a + b),
{
    assert forall|x: SpecInlayHint| a.contains(x) implies #[trigger] (a + b).contains(x) by {
        let j = choose|j: int| 0 <= j < a.len() && a[j] == x;
        assert((a + b)[j] == x);
    }
    assert forall|x: SpecInlayHint| b.contains(x) implies #[trigger] (a + b).contains(x) by {
        let j = choose|j: int| 0 <= j < b.len() && b[j] == x;
        assert((a + b)[a.len() + j] == x);
    }
}

proof fn lemma_hints_included_trans(a: Seq<SpecInlayHint>, b: Seq<SpecInlayHint>, c: Seq<SpecInlayHint>)
    requires
        hints_included(a, b),
        hints_included(b, c),
    ensures
        hints_included(a, c),
{
    assert forall|x: SpecInlayHint| a.contains(x) implies #[trigger] c.contains(x) by {
        assert(b.contains(x));
    }
}

/// The hints of each property within the range are among the hints of the
/// first `n` properties.
proof fn lemma_props_hints_include(
    props: Seq<SpecProperty>,
    parent: Seq<char>,
    start: usize,
    end: usize,
    aliases: Seq<SpecAliasDeclaration>,
    lines: Seq<usize>,
    n: int,
    i: int,
)
    requires
        0 <= i < n <= props.len(),
        start <= props[i].span.start,
        props[i].span.end <= end,
    ensures
        hints_included(
            value_hints(props[i].value, props[i].key, parent, aliases, lines),
            props_hints(props, parent, start, end, aliases, lines, n),
        ),
    decreases n,
{
    let before = props_hints(props, parent, start, end, aliases, lines, n - 1);
    let last = if props[n - 1].span.start < start || props[n - 1].span.end > end {
        Seq::empty()
    } else {
        value_hints(props[n - 1].value, props[n - 1].key, parent, aliases, lines)
    };
    assert(props_hints(props, parent, start, end, aliases, lines, n) == before + last);
    lemma_hints_included_add(before, last);
    if i < n - 1 {
        lemma_props_hints_include(props, parent, start, end, aliases, lines, n - 1, i);
        lemma_hints_included_trans(value_hints(props[i].value, props[i].key, parent, aliases, lines), before, before + last);
    }
}

proof fn lemma_aliases_hints_include(
    aliases: Seq<SpecAliasDeclaration>,
    start: usize,
    end: usize,
    lines: Seq<usize>,
    n: int,
    a: int,
)
    requires
        0 <= a < n <= aliases.len(),
    ensures
        hints_included(
            type_value_inner_hints(aliases[a].target.inner, aliases[a].target.name, start, end, aliases, lines),
            aliases_hints(aliases, start, end, lines, n),
        ),
    decreases n,
{
    let before = aliases_hints(aliases, start, end, lines, n - 1);
    let last = type_value_inner_hints(aliases[n - 1].target.inner, aliases[n - 1].target.name, start, end, aliases, lines);
    lemma_hints_included_add(before, last);
    if a < n - 1 {
        lemma_aliases_hints_include(aliases, start, end, lines, n - 1, a);
        lemma_hints_included_trans(
            type_value_inner_hints(aliases[a].target.inner, aliases[a].target.name, start, end, aliases, lines),
            before,
            before + last,
        );
    }
}

/// An integer property with a unit inside the target of an alias
/// declaration, lying within the range, gets its unit as a hint at the end
/// of its value.
pub proof fn law_unit_hint_in_alias_target(
    doc: Document,
    range: Range,
    a: int,
    props: Seq<SpecProperty>,
    i: int,
    n: u64,
    sp: Span,
    unit: Seq<char>,
)
    requires
        doc.layout is Some,
        ({
            let l = doc.layout->0@;
            let start = spec_position_to_offset(doc.lines@, range.start);
            let end = spec_position_to_offset(doc.lines@, range.end);
            &&& 0 <= a < l.aliases.len()
            &&& l.aliases[a].target.inner == SpecTypeValueInner::Properties(props)
            &&& 0 <= i < props.len()
            &&& start <= props[i].span.start
            &&& props[i].span.end <= end
            &&& props[i].value == SpecPropertyValue::UInt(n, sp)
            &&& spec_unit_for_prop(real_alias_name(l.aliases[a].target.name, l.aliases), props[i].key) == Some(unit)
        }),
    ensures
        spec_get_inlay_hints(doc, range).contains(hint_at(doc.lines@, sp.end, unit)),
{
    let l = doc.layout->0@;
    let lines = doc.lines@;
    let start = spec_position_to_offset(lines, range.start);
    let end = spec_position_to_offset(lines, range.end);
    let target = l.aliases[a].target;
    let h = hint_at(lines, sp.end, unit);
    let vh = value_hints(props[i].value, props[i].key, target.name, l.aliases, lines);
    assert(vh == seq![h]);
    assert(vh[0] == h);
    assert(vh.contains(h));
    lemma_props_hints_include(props, target.name, start, end, l.aliases, lines, props.len() as int, i);
    lemma_aliases_hints_include(l.aliases, start, end, lines, l.aliases.len() as int, a);
    let ah = aliases_hints(l.aliases, start, end, lines, l.aliases.len() as int);
    let nh = node_hints(l.root, start, end, l.aliases, lines);
    lemma_hints_included_add(ah, nh);
    assert(spec_get_inlay_hints(doc, range) == ah + nh);
    assert(ah.contains(h));
}

/// An integer property with a unit of the root component, lying within the
/// range, gets its unit as a hint at the end of its value.
pub proof fn law_unit_hint_in_root(doc: Document, range: Range, i: int, n: u64, sp: Span, unit: Seq<char>)
    requires
        doc.layout is Some,
        ({
            let l = doc.layout->0@;
            let start = spec_position_to_offset(doc.lines@, range.start);
            let end = spec_position_to_offset(doc.lines@, range.end);
            &&& 0 <= i < l.root.properties.len()
            &&& start <= l.root.properties[i].span.start
            &&& l.root.properties[i].span.end <= end
            &&& l.root.properties[i].value == SpecPropertyValue::UInt(n, sp)
            &&& spec_unit_for_prop(real_alias_name(l.root.name, l.aliases), l.root.properties[i].key) == Some(unit)
        }),
    ensures
        spec_get_inlay_hints(doc, range).contains(hint_at(doc.lines@, sp.end, unit)),
{
    let l = doc.layout->0@;
    let lines = doc.lines@;
    let start = spec_position_to_offset(lines, range.start);
    let end = spec_position_to_offset(lines, range.end);
    let props = l.root.properties;
    let h = hint_at(lines, sp.end, unit);
    let vh = value_hints(props[i].value, props[i].key, l.root.name, l.aliases, lines);
    assert(vh == seq![h]);
    assert(vh[0] == h);
    assert(vh.contains(h));
    lemma_props_hints_include(props, l.root.name, start, end, l.aliases, lines, props.len() as int, i);
    let ph = props_hints(props, l.root.name, start, end, l.aliases, lines, props.len() as int);
    let ch = nodes_hints(l.root.children, start, end, l.aliases, lines, l.root.children.len() as int);
    lemma_hints_included_add(ph, ch);
    let ah = aliases_hints(l.aliases, start, end, lines, l.aliases.len() as int);
    let nh = node_hints(l.root, start, end, l.aliases, lines);
    assert(nh == ph + ch);
    lemma_hints_included_add(ah, nh);
    assert(spec_get_inlay_hints(doc, range) == ah + nh);
    assert(nh.contains(h));
}

proof fn lemma_nodes_hints_include(
    nodes: Seq<SpecNodeType>,
    start: usize,
    end: usize,
    aliases: Seq<SpecAliasDeclaration>,
    lines: Seq<usize>,
    n: int,
    c: int,
)
    requires
        0 <= c < n <= nodes.len(),
    ensures
        hints_included(node_hints(nodes[c], start, end, aliases, lines), nodes_hints(nodes, start, end, aliases, lines, n)),
    decreases n,
{
    let before = nodes_hints(nodes, start, end, aliases, lines, n - 1);
    let last = node_hints(nodes[n - 1], start, end, aliases, lines);
    lemma_hints_included_add(before, last);
    if c < n - 1 {
        lemma_nodes_hints_include(nodes, start, end, aliases, lines, n - 1, c);
        lemma_hints_included_trans(node_hints(nodes[c], start, end, aliases, lines), before, before + last);
    }
}

/// An integer value gets exactly the unit of its key, when the key has one;
/// a value `Name(...)` gets the hints of every property written inside it,
/// wherever the range lies, and `Spacing(n)` gets its note after `n`.
pub proof fn law_value_hints(
    value: SpecPropertyValue,
    key: Seq<char>,
    parent: Seq<char>,
    aliases: Seq<SpecAliasDeclaration>,
    lines: Seq<usize>,
)
    ensures
        value matches SpecPropertyValue::UInt(_, sp) ==> value_hints(value, key, parent, aliases, lines) == match spec_unit_for_prop(
            real_alias_name(parent, aliases),
            key,
        ) {
            Some(u) => seq![hint_at(lines, sp.end, u)],
            None => Seq::<SpecInlayHint>::empty(),
        },
        value is Literal ==> value_hints(value, key, parent, aliases, lines).len() == 0,
        value matches SpecPropertyValue::Type(tv) ==> (tv.inner matches SpecTypeValueInner::Properties(props) ==> forall|i: int|
            0 <= i < props.len() ==> hints_included(
                value_hints(#[trigger] props[i].value, props[i].key, tv.name, aliases, lines),
                value_hints(value, key, parent, aliases, lines),
            )),
        value matches SpecPropertyValue::Type(tv) ==> (tv.inner matches SpecTypeValueInner::Value(b) ==> (*b matches SpecPropertyValue::UInt(
            _,
            sp,
        ) ==> (tv.name == "Spacing"@ ==> value_hints(value, key, parent, aliases, lines).contains(
            hint_at(lines, sp.end, "all sides"@),
        )))),
{
    if let SpecPropertyValue::Type(tv) = value {
        let inner = type_value_inner_hints(tv.inner, tv.name, 0, usize::MAX, aliases, lines);
        let tail = match tv.inner {
            SpecTypeValueInner::Value(v) => match *v {
                SpecPropertyValue::UInt(_, span) => match spec_constructor_hint(tv.name) {
                    Some(h) => seq![hint_at(lines, span.end, h)],
                    None => Seq::empty(),
                },
                _ => Seq::empty(),
            },
            _ => Seq::empty(),
        };
        let all = value_hints(value, key, parent, aliases, lines);
        assert(all == inner + tail);
        lemma_hints_included_add(inner, tail);
        if let SpecTypeValueInner::Properties(props) = tv.inner {
            assert forall|i: int| 0 <= i < props.len() implies hints_included(
                value_hints(#[trigger] props[i].value, props[i].key, tv.name, aliases, lines),
                all,
            ) by {
                lemma_props_hints_include(props, tv.name, 0, usize::MAX, aliases, lines, props.len() as int, i);
                lemma_hints_included_trans(
                    value_hints(props[i].value, props[i].key, tv.name, aliases, lines),
                    inner,
                    all,
                );
            }
        }
        if let SpecTypeValueInner::Value(b) = tv.inner {
            if let SpecPropertyValue::UInt(_, sp) = *b {
                if tv.name == "Spacing"@ {
                    assert(tail[0] == hint_at(lines, sp.end, "all sides"@));
                    assert(tail.contains(tail[0]));
                }
            }
        }
    }
}

/// A component's hints hold those of each of its properties within the
/// range and all hints of each of its children.
pub proof fn law_component_hints(
    node: SpecNodeType,
    start: usize,
    end: usize,
    aliases: Seq<SpecAliasDeclaration>,
    lines: Seq<usize>,
)
    ensures
        forall|i: int|
            0 <= i < node.properties.len() && start <= node.properties[i].span.start && node.properties[i].span.end
                <= end ==> hints_included(
                value_hints(#[trigger] node.properties[i].value, node.properties[i].key, node.name, aliases, lines),
                node_hints(node, start, end, aliases, lines),
            ),
        forall|c: int|
            0 <= c < node.children.len() ==> hints_included(
                node_hints(#[trigger] node.children[c], start, end, aliases, lines),
                node_hints(node, start, end, aliases, lines),
            ),
{
    let np = node.properties.len() as int;
    let nc = node.children.len() as int;
    let ph = props_hints(node.properties, node.name, start, end, aliases, lines, np);
    let ch = nodes_hints(node.children, start, end, aliases, lines, nc);
    let all = node_hints(node, start, end, aliases, lines);
    assert(all == ph + ch);
    lemma_hints_included_add(ph, ch);
    assert forall|i: int|
        0 <= i < np && start <= node.properties[i].span.start && node.properties[i].span.end <= end implies hints_included(
        value_hints(#[trigger] node.properties[i].value, node.properties[i].key, node.name, aliases, lines),
        all,
    ) by {
        lemma_props_hints_include(node.properties, node.name, start, end, aliases, lines, np, i);
        lemma_hints_included_trans(
            value_hints(node.properties[i].value, node.properties[i].key, node.name, aliases, lines),
            ph,
            all,
        );
    }
    assert forall|c: int| 0 <= c < nc implies hints_included(
        node_hints(#[trigger] node.children[c], start, end, aliases, lines),
        all,
    ) by {
        lemma_nodes_hints_include(node.children, start, end, aliases, lines, nc, c);
        lemma_hints_included_trans(node_hints(node.children[c], start, end, aliases, lines), ch, all);
    }
}

} // verus!
