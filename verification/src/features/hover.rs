//! Hover documentation for the name, key or value under the cursor.
use vstd::prelude::*;
use crate::ast::{
    first_alias_index, group_ast_model, model_aliases, AliasDeclaration, Layout, NodeType,
    Property, PropertyValue, Span, SpecAliasDeclaration, SpecLayout, SpecNodeType, SpecProperty,
    SpecPropertyValue, SpecTypeValue, SpecTypeValueInner, TypeValue, TypeValueInner, find_alias,
};
use crate::document::{
    position_fits, spec_position_to_offset, Document,
};
use crate::features::diagnostics::value_kind_diags;
use crate::protocol::{Hover, Position};
use crate::schema::{
    lookup, spec_find_prop, spec_lookup, SpecPropDef, SpecTypeDef, SpecValueKind, ValueKind,
};
use crate::text::{decimal, decimal_string, join, join_strings, join_strs, strings_view, strs_contain};
use crate::utils::{real_alias_name, resolve_real_alias_name};

verus! {

broadcast use group_ast_model;

// ----------------------------------------------------------------------
// Texts
// ----------------------------------------------------------------------

pub open spec fn spec_hover_value_kind_hint(kind: SpecValueKind) -> Seq<char> {
    match kind {
        SpecValueKind::Enum(variants) => "`"@ + join(variants, "` | `"@) + "` (enum)"@,
        SpecValueKind::Type(name) => "`"@ + name + "(...)`"@,
        SpecValueKind::UInt => "unsigned integer"@,
        SpecValueKind::Literal => "literal string"@,
    }
}

pub open spec fn prop_line(p: SpecPropDef) -> Seq<char> {
    "- `"@ + p.name + "` — "@ + p.description
}

pub open spec fn alias_text(name: Seq<char>, target: Seq<char>) -> Seq<char> {
    "**alias** `"@ + name + "` = `"@ + target + "(...)`"@
}

/// The documentation of a type name: the built-in type, else the alias,
/// else a note that it is unknown.
pub open spec fn spec_hover_for_type_name(name: Seq<char>, aliases: Seq<SpecAliasDeclaration>) -> Seq<
    char,
> {
    match spec_lookup(name) {
        Some(def) => {
            let lines = def.props.map_values(|p: SpecPropDef| prop_line(p));
            let body = if lines.len() == 0 {
                def.description
            } else {
                def.description + "\n\n**Properties:**\n"@ + join(lines, "\n"@)
            };
            "**`"@ + name + "`**\n\n"@ + body
        },
        None => match first_alias_index(aliases, name) {
            Some(i) => alias_text(name, aliases[i].target.name),
            None => "`"@ + name + "` — unknown type"@,
        },
    }
}

/// The documentation of property `key` of `parent`.
pub open spec fn spec_hover_for_prop_key(
    key: Seq<char>,
    parent: Seq<char>,
    aliases: Seq<SpecAliasDeclaration>,
) -> Seq<char> {
    let resolved = real_alias_name(parent, aliases);
    match spec_lookup(resolved) {
        Some(def) => match spec_find_prop(def, key) {
            Some(p) => "**`"@ + key + "`** — "@ + p.description + "\n\n*Value:* "@
                + spec_hover_value_kind_hint(p.value),
            None => "`"@ + key + "` — unknown property on `"@ + parent + "`"@,
        },
        None => "`"@ + key + "` — unknown property on `"@ + parent + "`"@,
    }
}

/// The documentation of the word `lit` given for property `key` of `parent`.
pub open spec fn spec_hover_for_literal(
    lit: Seq<char>,
    key: Seq<char>,
    parent: Seq<char>,
    aliases: Seq<SpecAliasDeclaration>,
) -> Seq<char> {
    let resolved = real_alias_name(parent, aliases);
    match spec_lookup(resolved) {
        Some(def) => match spec_find_prop(def, key) {
            Some(p) => match p.value {
                SpecValueKind::Enum(vs) => {
                    let all = join(vs, "`, `"@);
                    if vs.contains(lit) {
                        "`"@ + lit + "` ✓\n\nAllowed values: `"@ + all + "`"@
                    } else {
                        "`"@ + lit + "` ✗ — not a valid value\n\nAllowed: `"@ + all + "`"@
                    }
                },
                _ => "`"@ + lit + "`"@,
            },
            None => "`"@ + lit + "`"@,
        },
        None => "`"@ + lit + "`"@,
    }
}

pub open spec fn uint_text(n: u64) -> Seq<char> {
    "`"@ + decimal(n as nat) + "` — unsigned integer"@
}

// ----------------------------------------------------------------------
// What is under the cursor
// ----------------------------------------------------------------------

/// The hover of the first property, from `k` on, that has one.
pub open spec fn props_hover_from(
    props: Seq<SpecProperty>,
    parent: Seq<char>,
    offset: usize,
    aliases: Seq<SpecAliasDeclaration>,
    k: int,
) -> Option<Seq<char>>
    decreases props, props.len() - k,
{
    if k < 0 || k >= props.len() {
        None
    } else {
        match property_hover(props[k], offset, parent, aliases) {
            Some(h) => Some(h),
            None => props_hover_from(props, parent, offset, aliases, k + 1),
        }
    }
}

pub open spec fn property_hover(
    prop: SpecProperty,
    offset: usize,
    parent: Seq<char>,
    aliases: Seq<SpecAliasDeclaration>,
) -> Option<Seq<char>>
    decreases prop, 0int,
{
    if prop.key_span.spec_contains(offset) {
        Some(spec_hover_for_prop_key(prop.key, parent, aliases))
    } else {
        property_value_hover(prop.value, offset, prop.key, parent, aliases)
    }
}

pub open spec fn property_value_hover(
    value: SpecPropertyValue,
    offset: usize,
    key: Seq<char>,
    parent: Seq<char>,
    aliases: Seq<SpecAliasDeclaration>,
) -> Option<Seq<char>>
    decreases value, 0int,
{
    match value {
        SpecPropertyValue::Type(tv) => type_value_hover(tv, offset, aliases),
        SpecPropertyValue::Literal(lit, span) => if span.spec_contains(offset) {
            Some(spec_hover_for_literal(lit, key, parent, aliases))
        } else {
            None
        },
        SpecPropertyValue::UInt(n, span) => if span.spec_contains(offset) {
            Some(uint_text(n))
        } else {
            None
        },
    }
}

pub open spec fn type_value_hover(tv: SpecTypeValue, offset: usize, aliases: Seq<SpecAliasDeclaration>) -> Option<
    Seq<char>,
>
    decreases tv, 0int,
{
    if tv.name_span.spec_contains(offset) {
        Some(spec_hover_for_type_name(tv.name, aliases))
    } else {
        match tv.inner {
            SpecTypeValueInner::Properties(props) => props_hover_from(props, tv.name, offset, aliases, 0),
            _ => None,
        }
    }
}

pub open spec fn node_hover(node: SpecNodeType, offset: usize, aliases: Seq<SpecAliasDeclaration>) -> Option<
    Seq<char>,
>
    decreases node, 0int,
{
    if node.name_span.spec_contains(offset) {
        Some(spec_hover_for_type_name(node.name, aliases))
    } else {
        match props_hover_from(node.properties, node.name, offset, aliases, 0) {
            Some(h) => Some(h),
            None => children_hover_from(node.children, offset, aliases, 0),
        }
    }
}

pub open spec fn children_hover_from(
    children: Seq<SpecNodeType>,
    offset: usize,
    aliases: Seq<SpecAliasDeclaration>,
    k: int,
) -> Option<Seq<char>>
    decreases children, children.len() - k,
{
    if k < 0 || k >= children.len() {
        None
    } else {
        match node_hover(children[k], offset, aliases) {
            Some(h) => Some(h),
            None => children_hover_from(children, offset, aliases, k + 1),
        }
    }
}

/// The hover of an alias declaration: its name, else something inside its
/// target (where other aliases are not looked at).
pub open spec fn alias_hover(alias: SpecAliasDeclaration, offset: usize) -> Option<Seq<char>> {
    if alias.name_span.spec_contains(offset) {
        let base = match spec_lookup(alias.target.name) {
            Some(t) => t.description,
            None => "User-defined alias"@,
        };
        Some(alias_text(alias.name, alias.target.name) + "\n\n"@ + base)
    } else {
        type_value_hover(alias.target, offset, Seq::empty())
    }
}

pub open spec fn aliases_hover_from(aliases: Seq<SpecAliasDeclaration>, offset: usize, k: int) -> Option<
    Seq<char>,
>
    decreases aliases.len() - k,
{
    if k < 0 || k >= aliases.len() {
        None
    } else {
        match alias_hover(aliases[k], offset) {
            Some(h) => Some(h),
            None => aliases_hover_from(aliases, offset, k + 1),
        }
    }
}

/// The hover at `offset`: alias declarations first, then the root component.
pub open spec fn spec_hover_in_layout(layout: SpecLayout, offset: usize) -> Option<Seq<char>> {
    match aliases_hover_from(layout.aliases, offset, 0) {
        Some(h) => Some(h),
        None => node_hover(layout.root, offset, layout.aliases),
    }
}

/// The hover at `pos`.
pub open spec fn spec_get_hover(doc: Document, pos: Position) -> Option<Seq<char>> {
    match doc.layout {
        None => None,
        Some(layout) => spec_hover_in_layout(layout@, spec_position_to_offset(doc.lines@, pos)),
    }
}

pub open spec fn hover_view(h: Option<Hover>) -> Option<Seq<char>> {
    match h {
        Some(x) => Some(x.contents@),
        None => None,
    }
}

// ----------------------------------------------------------------------
// Building the texts
// ----------------------------------------------------------------------

fn make_hover(text: String) -> (r: Hover)
    ensures
        r.contents@ == text@,
{
    Hover { contents: text }
}

fn span_contains(span: &Span, offset: usize) -> (r: bool)
    ensures
        r == span.spec_contains(offset),
{
    offset >= span.start && offset < span.end
}

/// Follows aliases from `name` to the built-in type it stands for.
fn resolve_real_name<'a>(name: &'a str, aliases: &'a [AliasDeclaration]) -> (r: &'a str)
    ensures
        r@ == real_alias_name(name@, model_aliases(aliases@)),
{
    resolve_real_alias_name(name, aliases)
}

fn value_kind_hint(kind: &ValueKind) -> (r: String)
    ensures
        r@ == spec_hover_value_kind_hint(kind@),
{
    match kind {
        ValueKind::Enum(variants) => {
            let mut s = String::from_str("`");
            let joined = join_strs(variants, "` | `");
            s.append(joined.as_str());
            s.append("` (enum)");
            s
        },
        ValueKind::Type(name) => {
            let mut s = String::from_str("`");
            s.append(name);
            s.append("(...)`");
            s
        },
        ValueKind::UInt => String::from_str("unsigned integer"),
        ValueKind::Literal => String::from_str("literal string"),
    }
}

fn alias_text_string(name: &str, target: &str) -> (r: String)
    ensures
        r@ == alias_text(name@, target@),
{
    let mut s = String::from_str("**alias** `");
    s.append(name);
    s.append("` = `");
    s.append(target);
    s.append("(...)`");
    s
}

fn hover_for_type_name(name: &str, aliases: &[AliasDeclaration]) -> (r: Hover)
    ensures
        r.contents@ == spec_hover_for_type_name(name@, model_aliases(aliases@)),
{
    if let Some(def) = lookup(name) {
        let ghost lm = def@.props.map_values(|p: SpecPropDef| prop_line(p));
        let mut lines: Vec<String> = Vec::new();
        let mut i: usize = 0;
        while i < def.props.len()
            invariant
                i <= def.props@.len(),
                lm == def@.props.map_values(|p: SpecPropDef| prop_line(p)),
                lm.len() == def.props@.len(),
                strings_view(lines@) == lm.take(i as int),
            decreases def.props.len() - i,
        {
            let p = &def.props[i];
            assert(def@.props[i as int] == p@);
            let mut line = String::from_str("- `");
            line.append(p.name);
            line.append("` — ");
            line.append(p.description);
            let ghost before = lines@;
            assert(line@ == lm[i as int]);
            lines.push(line);
            assert(strings_view(lines@) =~= strings_view(before).push(lm[i as int]));
            assert(strings_view(lines@) =~= lm.take(i + 1));
            i = i + 1;
        }
        assert(lm.take(def.props@.len() as int) =~= lm);
        let body = if lines.len() == 0 {
            String::from_str(def.description)
        } else {
            let mut b = String::from_str(def.description);
            b.append("\n\n**Properties:**\n");
            let joined = join_strings(&lines, "\n");
            b.append(joined.as_str());
            b
        };
        let mut text = String::from_str("**`");
        text.append(name);
        text.append("`**\n\n");
        text.append(body.as_str());
        return make_hover(text);
    }
    if let Some(alias) = find_alias(aliases, name) {
        proof {
            let i = first_alias_index(model_aliases(aliases@), name@)->0;
            assert(model_aliases(aliases@)[i].target.name == alias.target.name@);
        }
        return make_hover(alias_text_string(name, alias.target.name.as_str()));
    }
    let mut text = String::from_str("`");
    text.append(name);
    text.append("` — unknown type");
    make_hover(text)
}

fn hover_for_prop_key(key: &str, parent_name: &str, aliases: &[AliasDeclaration]) -> (r: Hover)
    ensures
        r.contents@ == spec_hover_for_prop_key(key@, parent_name@, model_aliases(aliases@)),
{
    let real_name = resolve_real_name(parent_name, aliases);
    if let Some(def) = lookup(real_name) {
        if let Some(prop) = def.find_prop(key) {
            let mut text = String::from_str("**`");
            text.append(key);
            text.append("`** — ");
            text.append(prop.description);
            text.append("\n\n*Value:* ");
            let hint = value_kind_hint(&prop.value);
            text.append(hint.as_str());
            return make_hover(text);
        }
    }
    let mut text = String::from_str("`");
    text.append(key);
    text.append("` — unknown property on `");
    text.append(parent_name);
    text.append("`");
    make_hover(text)
}

fn hover_for_literal(lit: &str, prop_key: &str, parent_name: &str, aliases: &[AliasDeclaration]) -> (r:
    Hover)
    ensures
        r.contents@ == spec_hover_for_literal(lit@, prop_key@, parent_name@, model_aliases(aliases@)),
{
    let real_name = resolve_real_name(parent_name, aliases);
    if let Some(def) = lookup(real_name) {
        if let Some(prop) = def.find_prop(prop_key) {
            if let ValueKind::Enum(variants) = &prop.value {
                let valid = strs_contain(variants, lit);
                let all = join_strs(variants, "`, `");
                if valid {
                    let mut text = String::from_str("`");
                    text.append(lit);
                    text.append("` ✓\n\nAllowed values: `");
                    text.append(all.as_str());
                    text.append("`");
                    return make_hover(text);
                } else {
                    let mut text = String::from_str("`");
                    text.append(lit);
                    text.append("` ✗ — not a valid value\n\nAllowed: `");
                    text.append(all.as_str());
                    text.append("`");
                    return make_hover(text);
                }
            }
        }
    }
    let mut text = String::from_str("`");
    text.append(lit);
    text.append("`");
    make_hover(text)
}

// ----------------------------------------------------------------------
// Finding what is under the cursor
// ----------------------------------------------------------------------

fn hover_in_property_value(
    value: &PropertyValue,
    offset: usize,
    prop_key: &str,
    parent_name: &str,
    aliases: &[AliasDeclaration],
) -> (r: Option<Hover>)
    ensures
        hover_view(r) == property_value_hover(value@, offset, prop_key@, parent_name@, model_aliases(aliases@)),
    decreases value,
{
    match value {
        PropertyValue::Type(tv) => hover_in_type_value(tv, offset, aliases),
        PropertyValue::Literal(lit, span) => {
            if span_contains(span, offset) {
                return Some(hover_for_literal(lit.as_str(), prop_key, parent_name, aliases));
            }
            None
        },
        PropertyValue::UInt(n, span) => {
            if span_contains(span, offset) {
                let mut text = String::from_str("`");
                let digits = decimal_string(*n);
                text.append(digits.as_str());
                text.append("` — unsigned integer");
                return Some(make_hover(text));
            }
            None
        },
    }
}

fn hover_in_property(prop: &Property, offset: usize, parent_name: &str, aliases: &[AliasDeclaration]) -> (r:
    Option<Hover>)
    ensures
        hover_view(r) == property_hover(prop@, offset, parent_name@, model_aliases(aliases@)),
    decreases prop,
{
    if span_contains(&prop.key_span, offset) {
        return Some(hover_for_prop_key(prop.key.as_str(), parent_name, aliases));
    }
    hover_in_property_value(&prop.value, offset, prop.key.as_str(), parent_name, aliases)
}

#[verifier::loop_isolation(false)]
fn hover_in_type_value(tv: &TypeValue, offset: usize, aliases: &[AliasDeclaration]) -> (r: Option<Hover>)
    ensures
        hover_view(r) == type_value_hover(tv@, offset, model_aliases(aliases@)),
    decreases tv,
{
    if span_contains(&tv.name_span, offset) {
        return Some(hover_for_type_name(tv.name.as_str(), aliases));
    }
    if let TypeValueInner::Properties(props) = &tv.inner {
        let ghost m = crate::ast::model_properties(props@);
        let ghost am = model_aliases(aliases@);
        let mut i: usize = 0;
        while i < props.len()
            invariant
                i <= props@.len(),
                m.len() == props@.len(),
                props_hover_from(m, tv.name@, offset, am, 0) == props_hover_from(m, tv.name@, offset, am, i as int),
            decreases props.len() - i,
        {
            assert(m[i as int] == props@[i as int]@);
            if let Some(h) = hover_in_property(&props[i], offset, tv.name.as_str(), aliases) {
                return Some(h);
            }
            i = i + 1;
        }
    }
    None
}

#[verifier::loop_isolation(false)]
fn hover_in_node(node: &NodeType, offset: usize, aliases: &[AliasDeclaration]) -> (r: Option<Hover>)
    ensures
        hover_view(r) == node_hover(node@, offset, model_aliases(aliases@)),
    decreases node,
{
    if span_contains(&node.name_span, offset) {
        return Some(hover_for_type_name(node.name.as_str(), aliases));
    }
    let ghost pm = crate::ast::model_properties(node.properties@);
    let ghost am = model_aliases(aliases@);
    let mut i: usize = 0;
    while i < node.properties.len()
        invariant
            i <= node.properties@.len(),
            pm.len() == node.properties@.len(),
            props_hover_from(pm, node.name@, offset, am, 0) == props_hover_from(
                pm,
                node.name@,
                offset,
                am,
                i as int,
            ),
        decreases node.properties.len() - i,
    {
        assert(pm[i as int] == node.properties@[i as int]@);
        if let Some(h) = hover_in_property(&node.properties[i], offset, node.name.as_str(), aliases) {
            return Some(h);
        }
        i = i + 1;
    }
    let ghost cm = crate::ast::model_nodes(node.children@);
    let mut k: usize = 0;
    while k < node.children.len()
        invariant
            k <= node.children@.len(),
            cm.len() == node.children@.len(),
            props_hover_from(pm, node.name@, offset, am, 0) is None,
            children_hover_from(cm, offset, am, 0) == children_hover_from(cm, offset, am, k as int),
        decreases node.children.len() - k,
    {
        assert(cm[k as int] == node.children@[k as int]@);
        if let Some(h) = hover_in_node(&node.children[k], offset, aliases) {
            return Some(h);
        }
        k = k + 1;
    }
    None
}

fn hover_in_alias(alias: &AliasDeclaration, offset: usize) -> (r: Option<Hover>)
    ensures
        hover_view(r) == alias_hover(alias@, offset),
{
    if span_contains(&alias.name_span, offset) {
        let target_type = lookup(alias.target.name.as_str());
        let mut text = alias_text_string(alias.name.as_str(), alias.target.name.as_str());
        text.append("\n\n");
        match target_type {
            Some(t) => text.append(t.description),
            None => text.append("User-defined alias"),
        }
        return Some(make_hover(text));
    }
    let no_aliases: Vec<AliasDeclaration> = Vec::new();
    proof {
        assert(model_aliases(no_aliases@) =~= Seq::<SpecAliasDeclaration>::empty());
    }
    hover_in_type_value(&alias.target, offset, no_aliases.as_slice())
}

#[verifier::loop_isolation(false)]
fn hover_in_layout(layout: &Layout, offset: usize) -> (r: Option<Hover>)
    ensures
        hover_view(r) == spec_hover_in_layout(layout@, offset),
{
    let ghost am = layout@.aliases;
    let mut i: usize = 0;
    while i < layout.aliases.len()
        invariant
            i <= layout.aliases@.len(),
            am.len() == layout.aliases@.len(),
            aliases_hover_from(am, offset, 0) == aliases_hover_from(am, offset, i as int),
        decreases layout.aliases.len() - i,
    {
        assert(am[i as int] == layout.aliases@[i as int]@);
        if let Some(h) = hover_in_alias(&layout.aliases[i], offset) {
            return Some(h);
        }
        i = i + 1;
    }
    hover_in_node(&layout.root, offset, layout.aliases.as_slice())
}

/// The hover documentation at `pos`.
pub fn get_hover(doc: &Document, pos: Position) -> (r: Option<Hover>)
    requires
        doc.wf(),
        position_fits(doc.lines@, pos),
    ensures
        hover_view(r) == spec_get_hover(*doc, pos),
{
    let offset = doc.position_to_offset(pos);
    match &doc.layout {
        None => None,
        Some(layout) => hover_in_layout(layout, offset),
    }
}

/// On an enumerated property, the hover marks a word as valid exactly when
/// the value check finds nothing wrong with it, and as invalid otherwise.
pub proof fn law_hover_mark_agrees_with_check(
    lit: Seq<char>,
    span: Span,
    key: Seq<char>,
    parent: Seq<char>,
    aliases: Seq<SpecAliasDeclaration>,
    lines: Seq<usize>,
    def: SpecTypeDef,
    p: SpecPropDef,
)
    requires
        spec_lookup(real_alias_name(parent, aliases)) == Some(def),
        spec_find_prop(def, key) == Some(p),
        p.value is Enum,
    ensures
        ({
            let vs = p.value->Enum_0;
            let checked = value_kind_diags(
                SpecPropertyValue::Literal(lit, span),
                p.value,
                key,
                real_alias_name(parent, aliases),
                aliases,
                lines,
            );
            &&& checked.len() == 0 <==> vs.contains(lit)
            &&& spec_hover_for_literal(lit, key, parent, aliases) == if checked.len() == 0 {
                "`"@ + lit + "` ✓\n\nAllowed values: `"@ + join(vs, "`, `"@) + "`"@
            } else {
                "`"@ + lit + "` ✗ — not a valid value\n\nAllowed: `"@ + join(vs, "`, `"@) + "`"@
            }
        }),
{
}

proof fn lemma_props_hover_some(
    props: Seq<SpecProperty>,
    parent: Seq<char>,
    offset: usize,
    aliases: Seq<SpecAliasDeclaration>,
    j: int,
    i: int,
)
    requires
        0 <= j <= i < props.len(),
        property_hover(props[i], offset, parent, aliases) is Some,
    ensures
        props_hover_from(props, parent, offset, aliases, j) is Some,
        (forall|m: int| j <= m < i ==> property_hover(#[trigger] props[m], offset, parent, aliases) is None)
            ==> props_hover_from(props, parent, offset, aliases, j) == property_hover(props[i], offset, parent, aliases),
    decreases i - j,
{
    if j < i {
        lemma_props_hover_some(props, parent, offset, aliases, j + 1, i);
    }
}

/// Inside a value `Name(k = v, ...)`, a cursor on one of its keys gets a
/// hover: the documentation of that key on the type `Name` stands for, when
/// no earlier property of the value has one.
pub proof fn law_hover_on_nested_key(
    tv: SpecTypeValue,
    offset: usize,
    aliases: Seq<SpecAliasDeclaration>,
    props: Seq<SpecProperty>,
    i: int,
)
    requires
        !tv.name_span.spec_contains(offset),
        tv.inner == SpecTypeValueInner::Properties(props),
        0 <= i < props.len(),
        props[i].key_span.spec_contains(offset),
    ensures
        type_value_hover(tv, offset, aliases) is Some,
        (forall|m: int| 0 <= m < i ==> property_hover(#[trigger] props[m], offset, tv.name, aliases) is None)
            ==> (spec_lookup(real_alias_name(tv.name, aliases)) matches Some(def) ==> (spec_find_prop(
            def,
            props[i].key,
        ) matches Some(pd) ==> type_value_hover(tv, offset, aliases) == Some(
            "**`"@ + props[i].key + "`** — "@ + pd.description + "\n\n*Value:* "@ + spec_hover_value_kind_hint(pd.value),
        ))),
{
    lemma_props_hover_some(props, tv.name, offset, aliases, 0, i);
}

/// A cursor on a key inside a value `Name(...)` given to a property of the
/// root component always gets a hover.
pub proof fn law_hover_on_key_in_root_value(
    l: SpecLayout,
    offset: usize,
    k: int,
    tv: SpecTypeValue,
    props: Seq<SpecProperty>,
    i: int,
)
    requires
        0 <= k < l.root.properties.len(),
        l.root.properties[k].value == SpecPropertyValue::Type(tv),
        !tv.name_span.spec_contains(offset),
        tv.inner == SpecTypeValueInner::Properties(props),
        0 <= i < props.len(),
        props[i].key_span.spec_contains(offset),
    ensures
        spec_hover_in_layout(l, offset) is Some,
{
    law_hover_on_nested_key(tv, offset, l.aliases, props, i);
    lemma_props_hover_some(l.root.properties, l.root.name, offset, l.aliases, 0, k);
}

proof fn lemma_children_hover_some(
    children: Seq<SpecNodeType>,
    offset: usize,
    aliases: Seq<SpecAliasDeclaration>,
    j: int,
    c: int,
)
    requires
        0 <= j <= c < children.len(),
        node_hover(children[c], offset, aliases) is Some,
    ensures
        children_hover_from(children, offset, aliases, j) is Some,
    decreases c - j,
{
    if j < c {
        lemma_children_hover_some(children, offset, aliases, j + 1, c);
    }
}

/// A cursor on a component's name shows the documentation of that name; a
/// cursor on one of its keys, or on anything inside a child that has a
/// hover, always gets a hover.
pub proof fn law_component_hover(node: SpecNodeType, offset: usize, aliases: Seq<SpecAliasDeclaration>)
    ensures
        node.name_span.spec_contains(offset) ==> node_hover(node, offset, aliases) == Some(
            spec_hover_for_type_name(node.name, aliases),
        ),
        forall|k: int|
            0 <= k < node.properties.len() && (#[trigger] node.properties[k]).key_span.spec_contains(offset)
                ==> node_hover(node, offset, aliases) is Some,
        forall|c: int|
            0 <= c < node.children.len() && node_hover(#[trigger] node.children[c], offset, aliases) is Some
                ==> node_hover(node, offset, aliases) is Some,
{
    assert forall|k: int|
        0 <= k < node.properties.len() && (#[trigger] node.properties[k]).key_span.spec_contains(offset) implies node_hover(
        node,
        offset,
        aliases,
    ) is Some by {
        lemma_props_hover_some(node.properties, node.name, offset, aliases, 0, k);
    }
    assert forall|c: int|
        0 <= c < node.children.len() && node_hover(#[trigger] node.children[c], offset, aliases) is Some implies node_hover(
        node,
        offset,
        aliases,
    ) is Some by {
        lemma_children_hover_some(node.children, offset, aliases, 0, c);
    }
}

/// Inside a value `Name(k = v, ...)`, a cursor on a number or a word given
/// to one of its keys always gets a hover.
pub proof fn law_hover_on_nested_value(
    tv: SpecTypeValue,
    offset: usize,
    aliases: Seq<SpecAliasDeclaration>,
    props: Seq<SpecProperty>,
    i: int,
    sp: Span,
)
    requires
        !tv.name_span.spec_contains(offset),
        tv.inner == SpecTypeValueInner::Properties(props),
        0 <= i < props.len(),
        (props[i].value matches SpecPropertyValue::UInt(_, s) && s == sp) || (props[i].value matches SpecPropertyValue::Literal(
            _,
            s,
        ) && s == sp),
        sp.spec_contains(offset),
    ensures
        type_value_hover(tv, offset, aliases) is Some,
{
    lemma_props_hover_some(props, tv.name, offset, aliases, 0, i);
}

} // verus!
