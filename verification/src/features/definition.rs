//! Go to the declaration of the alias under the cursor.
use vstd::prelude::*;
use crate::ast::{
    find_alias, first_alias_index, group_ast_model, lemma_first_alias_index, spec_is_alias, Layout,
    NodeType, PropertyValue, Span, SpecAliasDeclaration, SpecLayout, SpecNodeType, SpecProperty, SpecPropertyValue,
    SpecTypeValue, SpecTypeValueInner, TypeValue, TypeValueInner,
};
use crate::document::{
    position_fits, spec_position_to_offset, spec_span_to_range, Document,
};
use crate::protocol::{Location, Position, Range};

verus! {

broadcast use group_ast_model;

/// The alias named by the first type name, in `tv` or in the values of its
/// properties, whose span holds the offset.
pub open spec fn alias_in_type_value(tv: SpecTypeValue, aliases: Seq<SpecAliasDeclaration>, offset: usize) -> Option<
    Seq<char>,
>
    decreases tv, 0int,
{
    if tv.name_span.spec_contains(offset) && spec_is_alias(aliases, tv.name) {
        Some(tv.name)
    } else {
        match tv.inner {
            SpecTypeValueInner::Properties(props) => alias_in_props_from(props, aliases, offset, 0),
            _ => None,
        }
    }
}

pub open spec fn alias_in_props_from(
    props: Seq<SpecProperty>,
    aliases: Seq<SpecAliasDeclaration>,
    offset: usize,
    k: int,
) -> Option<Seq<char>>
    decreases props, props.len() - k,
{
    if k < 0 || k >= props.len() {
        None
    } else {
        match props[k].value {
            SpecPropertyValue::Type(tv) => match alias_in_type_value(tv, aliases, offset) {
                Some(n) => Some(n),
                None => alias_in_props_from(props, aliases, offset, k + 1),
            },
            _ => alias_in_props_from(props, aliases, offset, k + 1),
        }
    }
}

/// The alias named under the cursor inside a component.
pub open spec fn alias_in_node(node: SpecNodeType, aliases: Seq<SpecAliasDeclaration>, offset: usize) -> Option<
    Seq<char>,
>
    decreases node, 0int,
{
    if !node.span.spec_contains(offset) {
        None
    } else if node.name_span.spec_contains(offset) && spec_is_alias(aliases, node.name) {
        Some(node.name)
    } else {
        match alias_in_props_from(node.properties, aliases, offset, 0) {
            Some(n) => Some(n),
            None => alias_in_children_from(node.children, aliases, offset, 0),
        }
    }
}

pub open spec fn alias_in_children_from(
    children: Seq<SpecNodeType>,
    aliases: Seq<SpecAliasDeclaration>,
    offset: usize,
    k: int,
) -> Option<Seq<char>>
    decreases children, children.len() - k,
{
    if k < 0 || k >= children.len() {
        None
    } else {
        match alias_in_node(children[k], aliases, offset) {
            Some(n) => Some(n),
            None => alias_in_children_from(children, aliases, offset, k + 1),
        }
    }
}

pub open spec fn alias_in_declarations_from(aliases: Seq<SpecAliasDeclaration>, offset: usize, k: int) -> Option<
    Seq<char>,
>
    decreases aliases.len() - k,
{
    if k < 0 || k >= aliases.len() {
        None
    } else if aliases[k].name_span.spec_contains(offset) {
        Some(aliases[k].name)
    } else if aliases[k].target.span.spec_contains(offset) && alias_in_type_value(
        aliases[k].target,
        aliases,
        offset,
    ) is Some {
        alias_in_type_value(aliases[k].target, aliases, offset)
    } else {
        alias_in_declarations_from(aliases, offset, k + 1)
    }
}

/// The alias named at `offset`: in a declaration, else in the root component.
pub open spec fn spec_find_alias_usage_at(layout: SpecLayout, offset: usize) -> Option<Seq<char>> {
    match alias_in_declarations_from(layout.aliases, offset, 0) {
        Some(n) => Some(n),
        None => alias_in_node(layout.root, layout.aliases, offset),
    }
}

/// Where the alias named at `pos` is declared.
pub open spec fn spec_goto_definition(doc: Document, pos: Position) -> Option<Range> {
    match doc.layout {
        None => None,
        Some(layout) => {
            let l = layout@;
            match spec_find_alias_usage_at(l, spec_position_to_offset(doc.lines@, pos)) {
                None => None,
                Some(name) => match first_alias_index(l.aliases, name) {
                    Some(i) => Some(spec_span_to_range(doc.lines@, l.aliases[i].name_span)),
                    None => None,
                },
            }
        },
    }
}

#[verifier::loop_isolation(false)]
fn find_alias_in_type_value<'a>(tv: &'a TypeValue, layout: &'a Layout, offset: usize) -> (r: Option<&'a str>)
    ensures
        match r {
            Some(n) => alias_in_type_value(tv@, layout@.aliases, offset) == Some(n@),
            None => alias_in_type_value(tv@, layout@.aliases, offset) is None,
        },
    decreases tv,
{
    if tv.name_span.contains(offset) && layout.is_alias(tv.name.as_str()) {
        return Some(tv.name.as_str());
    }
    if let TypeValueInner::Properties(props) = &tv.inner {
        let ghost m = crate::ast::model_properties(props@);
        let mut i: usize = 0;
        while i < props.len()
            invariant
                i <= props@.len(),
                m.len() == props@.len(),
                alias_in_props_from(m, layout@.aliases, offset, 0) == alias_in_props_from(
                    m,
                    layout@.aliases,
                    offset,
                    i as int,
                ),
            decreases props.len() - i,
        {
            assert(m[i as int] == props@[i as int]@);
            if let PropertyValue::Type(inner_tv) = &props[i].value {
                if let Some(name) = find_alias_in_type_value(inner_tv, layout, offset) {
                    return Some(name);
                }
            }
            i = i + 1;
        }
    }
    None
}

#[verifier::loop_isolation(false)]
fn find_alias_in_node<'a>(node: &'a NodeType, layout: &'a Layout, offset: usize) -> (r: Option<&'a str>)
    ensures
        match r {
            Some(n) => alias_in_node(node@, layout@.aliases, offset) == Some(n@),
            None => alias_in_node(node@, layout@.aliases, offset) is None,
        },
    decreases node,
{
    if !node.span.contains(offset) {
        return None;
    }
    if node.name_span.contains(offset) && layout.is_alias(node.name.as_str()) {
        return Some(node.name.as_str());
    }
    let ghost m = crate::ast::model_properties(node.properties@);
    let mut i: usize = 0;
    while i < node.properties.len()
        invariant
            i <= node.properties@.len(),
            m.len() == node.properties@.len(),
            alias_in_props_from(m, layout@.aliases, offset, 0) == alias_in_props_from(
                m,
                layout@.aliases,
                offset,
                i as int,
            ),
        decreases node.properties.len() - i,
    {
        assert(m[i as int] == node.properties@[i as int]@);
        if let PropertyValue::Type(tv) = &node.properties[i].value {
            if let Some(name) = find_alias_in_type_value(tv, layout, offset) {
                return Some(name);
            }
        }
        i = i + 1;
    }
    let ghost cm = crate::ast::model_nodes(node.children@);
    let mut k: usize = 0;
    while k < node.children.len()
        invariant
            k <= node.children@.len(),
            cm.len() == node.children@.len(),
            alias_in_props_from(m, layout@.aliases, offset, 0) is None,
            alias_in_children_from(cm, layout@.aliases, offset, 0) == alias_in_children_from(
                cm,
                layout@.aliases,
                offset,
                k as int,
            ),
        decreases node.children.len() - k,
    {
        assert(cm[k as int] == node.children@[k as int]@);
        if let Some(name) = find_alias_in_node(&node.children[k], layout, offset) {
            return Some(name);
        }
        k = k + 1;
    }
    None
}

#[verifier::loop_isolation(false)]
fn find_alias_usage_at<'a>(layout: &'a Layout, offset: usize) -> (r: Option<&'a str>)
    ensures
        match r {
            Some(n) => spec_find_alias_usage_at(layout@, offset) == Some(n@),
            None => spec_find_alias_usage_at(layout@, offset) is None,
        },
{
    let ghost am = layout@.aliases;
    let mut i: usize = 0;
    while i < layout.aliases.len()
        invariant
            i <= layout.aliases@.len(),
            am.len() == layout.aliases@.len(),
            alias_in_declarations_from(am, offset, 0) == alias_in_declarations_from(am, offset, i as int),
        decreases layout.aliases.len() - i,
    {
        let alias = &layout.aliases[i];
        assert(am[i as int] == alias@);
        if alias.name_span.contains(offset) {
            return Some(alias.name.as_str());
        }
        if alias.target.span.contains(offset) {
            if let Some(name) = find_alias_in_type_value(&alias.target, layout, offset) {
                return Some(name);
            }
        }
        i = i + 1;
    }
    find_alias_in_node(&layout.root, layout, offset)
}

/// The declaration of the alias named at `pos`, in the document at `uri`.
pub fn goto_definition(doc: &Document, pos: Position, uri: &str) -> (r: Option<Location>)
    requires
        doc.wf(),
        position_fits(doc.lines@, pos),
    ensures
        match r {
            Some(loc) => loc.uri@ == uri@ && spec_goto_definition(*doc, pos) == Some(loc.range),
            None => spec_goto_definition(*doc, pos) is None,
        },
{
    let offset = doc.position_to_offset(pos);
    let layout = match &doc.layout {
        None => return None,
        Some(l) => l,
    };
    let alias_name = match find_alias_usage_at(layout, offset) {
        None => return None,
        Some(n) => n,
    };
    let decl = match find_alias(layout.aliases.as_slice(), alias_name) {
        None => return None,
        Some(d) => d,
    };
    proof {
        let i = first_alias_index(layout@.aliases, alias_name@)->0;
        assert(layout@.aliases[i].name_span == decl.name_span);
    }
    Some(Location { uri: String::from_str(uri), range: decl.name_span.to_range(doc) })
}

proof fn lemma_alias_in_type_value_is_alias(tv: SpecTypeValue, aliases: Seq<SpecAliasDeclaration>, offset: usize)
    ensures
        alias_in_type_value(tv, aliases, offset) matches Some(n) ==> spec_is_alias(aliases, n),
    decreases tv, 0int,
{
    if let SpecTypeValueInner::Properties(props) = tv.inner {
        lemma_alias_in_props_is_alias(props, aliases, offset, 0);
    }
}

proof fn lemma_alias_in_props_is_alias(
    props: Seq<SpecProperty>,
    aliases: Seq<SpecAliasDeclaration>,
    offset: usize,
    k: int,
)
    ensures
        alias_in_props_from(props, aliases, offset, k) matches Some(n) ==> spec_is_alias(aliases, n),
    decreases props, props.len() - k,
{
    if 0 <= k < props.len() {
        if let SpecPropertyValue::Type(tv) = props[k].value {
            lemma_alias_in_type_value_is_alias(tv, aliases, offset);
        }
        lemma_alias_in_props_is_alias(props, aliases, offset, k + 1);
    }
}

proof fn lemma_alias_in_node_is_alias(node: SpecNodeType, aliases: Seq<SpecAliasDeclaration>, offset: usize)
    ensures
        alias_in_node(node, aliases, offset) matches Some(n) ==> spec_is_alias(aliases, n),
    decreases node, 0int,
{
    lemma_alias_in_props_is_alias(node.properties, aliases, offset, 0);
    lemma_alias_in_children_is_alias(node.children, aliases, offset, 0);
}

proof fn lemma_alias_in_children_is_alias(
    children: Seq<SpecNodeType>,
    aliases: Seq<SpecAliasDeclaration>,
    offset: usize,
    k: int,
)
    ensures
        alias_in_children_from(children, aliases, offset, k) matches Some(n) ==> spec_is_alias(aliases, n),
    decreases children, children.len() - k,
{
    if 0 <= k < children.len() {
        lemma_alias_in_node_is_alias(children[k], aliases, offset);
        lemma_alias_in_children_is_alias(children, aliases, offset, k + 1);
    }
}

proof fn lemma_alias_in_declarations_is_alias(aliases: Seq<SpecAliasDeclaration>, offset: usize, k: int)
    ensures
        alias_in_declarations_from(aliases, offset, k) matches Some(n) ==> spec_is_alias(aliases, n),
    decreases aliases.len() - k,
{
    if 0 <= k < aliases.len() {
        assert(aliases[k].name == aliases[k].name);
        lemma_alias_in_type_value_is_alias(aliases[k].target, aliases, offset);
        lemma_alias_in_declarations_is_alias(aliases, offset, k + 1);
    }
}

proof fn lemma_alias_in_props_some(
    props: Seq<SpecProperty>,
    aliases: Seq<SpecAliasDeclaration>,
    offset: usize,
    j: int,
    i: int,
    tv: SpecTypeValue,
)
    requires
        0 <= j <= i < props.len(),
        props[i].value == SpecPropertyValue::Type(tv),
        alias_in_type_value(tv, aliases, offset) is Some,
    ensures
        alias_in_props_from(props, aliases, offset, j) is Some,
    decreases i - j,
{
    if j < i {
        lemma_alias_in_props_some(props, aliases, offset, j + 1, i, tv);
    }
}

/// Inside a component, a cursor on an alias used as the type of one of its
/// property values always finds an alias, and whatever is found is a
/// declared alias.
pub proof fn law_alias_found_in_property_value(
    node: SpecNodeType,
    aliases: Seq<SpecAliasDeclaration>,
    offset: usize,
    k: int,
    tv: SpecTypeValue,
)
    requires
        node.span.spec_contains(offset),
        0 <= k < node.properties.len(),
        node.properties[k].value == SpecPropertyValue::Type(tv),
        tv.name_span.spec_contains(offset),
        spec_is_alias(aliases, tv.name),
    ensures
        alias_in_node(node, aliases, offset) is Some,
        alias_in_node(node, aliases, offset) matches Some(n) ==> spec_is_alias(aliases, n),
{
    lemma_alias_in_props_some(node.properties, aliases, offset, 0, k, tv);
    lemma_alias_in_node_is_alias(node, aliases, offset);
}

/// A cursor on an alias used as the type of a property value of the root
/// component always leads to a definition: the name of a declaration, found
/// among the document's alias declarations.
pub proof fn law_definition_of_alias_in_root_value(doc: Document, pos: Position, k: int, tv: SpecTypeValue)
    requires
        doc.layout is Some,
        ({
            let l = doc.layout->0@;
            let offset = spec_position_to_offset(doc.lines@, pos);
            &&& l.root.span.spec_contains(offset)
            &&& 0 <= k < l.root.properties.len()
            &&& l.root.properties[k].value == SpecPropertyValue::Type(tv)
            &&& tv.name_span.spec_contains(offset)
            &&& spec_is_alias(l.aliases, tv.name)
        }),
    ensures
        spec_goto_definition(doc, pos) is Some,
        spec_goto_definition(doc, pos) matches Some(r) ==> exists|i: int|
            0 <= i < doc.layout->0@.aliases.len() && r == spec_span_to_range(
                doc.lines@,
                #[trigger] doc.layout->0@.aliases[i].name_span,
            ),
{
    let l = doc.layout->0@;
    let offset = spec_position_to_offset(doc.lines@, pos);
    law_alias_found_in_property_value(l.root, l.aliases, offset, k, tv);
    lemma_alias_in_declarations_is_alias(l.aliases, offset, 0);
    let name = spec_find_alias_usage_at(l, offset)->0;
    assert(spec_find_alias_usage_at(l, offset) is Some);
    lemma_first_alias_index(l.aliases, name);
    let i = first_alias_index(l.aliases, name)->0;
    assert(spec_goto_definition(doc, pos) == Some(spec_span_to_range(doc.lines@, l.aliases[i].name_span)));
}

proof fn lemma_alias_in_children_some(
    children: Seq<SpecNodeType>,
    aliases: Seq<SpecAliasDeclaration>,
    offset: usize,
    j: int,
    c: int,
)
    requires
        0 <= j <= c < children.len(),
        alias_in_node(children[c], aliases, offset) is Some,
    ensures
        alias_in_children_from(children, aliases, offset, j) is Some,
    decreases c - j,
{
    if j < c {
        lemma_alias_in_children_some(children, aliases, offset, j + 1, c);
    }
}

/// An alias found inside a child is found inside the component that holds
/// the cursor, and a component's own name is found when it is an alias.
pub proof fn law_alias_found_in_child(node: SpecNodeType, aliases: Seq<SpecAliasDeclaration>, offset: usize)
    requires
        node.span.spec_contains(offset),
    ensures
        node.name_span.spec_contains(offset) && spec_is_alias(aliases, node.name) ==> alias_in_node(node, aliases, offset)
            == Some(node.name),
        forall|c: int|
            0 <= c < node.children.len() && alias_in_node(#[trigger] node.children[c], aliases, offset) is Some
                ==> alias_in_node(node, aliases, offset) is Some,
{
    assert forall|c: int|
        0 <= c < node.children.len() && alias_in_node(#[trigger] node.children[c], aliases, offset) is Some implies alias_in_node(
        node,
        aliases,
        offset,
    ) is Some by {
        lemma_alias_in_children_some(node.children, aliases, offset, 0, c);
    }
}

} // verus!
