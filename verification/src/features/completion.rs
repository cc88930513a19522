//! Completion proposals at the cursor.
use vstd::prelude::*;
use crate::ast::{
    group_ast_model, AliasDeclaration, Layout, NodeType, Property, PropertyValue,
    SpecAliasDeclaration, SpecLayout, SpecNodeType, SpecProperty, SpecPropertyValue,
    SpecTypeValue, SpecTypeValueInner, TypeValueInner,
};
use crate::document::{
    position_fits, spec_offset_to_position, spec_position_to_offset, Document,
};
use crate::parser::{
    alias_placed, is_word_byte, law_parse_layout_placed, spec_parse, word_end, SpecParseError,
};
use crate::protocol::{
    completion_items_view, CompletionItem, CompletionItemKind, Position, Range,
    SpecCompletionItem, SpecTextEdit, TextEdit,
};
use crate::schema::{
    lookup, schema_types, spec_find_prop, spec_lookup, type_defs_view, types, PropDef,
    SpecPropDef, SpecTypeDef, SpecValueKind, TypeDef, ValueKind,
};
use crate::text::{bytes_of, join, join_strs, strs_view};
use crate::utils::{real_alias_name, resolve_real_alias_name, spec_value_kind_hint, value_kind_hint};

verus! {

broadcast use group_ast_model;

/// The characters that make an editor ask for completions.
pub fn completion_trigger_chars() -> (r: Vec<String>)
    ensures
        r@.map_values(|s: String| s@) == seq!["("@, ","@, " "@, "="@],
{
    let mut v: Vec<String> = Vec::new();
    v.push(String::from_str("("));
    v.push(String::from_str(","));
    v.push(String::from_str(" "));
    v.push(String::from_str("="));
    assert(v@.map_values(|s: String| s@) =~= seq!["("@, ","@, " "@, "="@]);
    v
}

/// What the cursor is on.
pub enum Context<'a> {
    /// On or just after a component or type name: complete type names.
    TypeName,
    /// A property list: complete the keys of `parent`.
    PropKey { parent: &'a str },
    /// The value of `key` of `parent`: complete its values.
    PropValue { parent: &'a str, key: &'a str },
}

pub enum SpecContext {
    TypeName,
    PropKey { parent: Seq<char> },
    PropValue { parent: Seq<char>, key: Seq<char> },
}

impl<'a> View for Context<'a> {
    type V = SpecContext;

    open spec fn view(&self) -> SpecContext {
        match *self {
            Context::TypeName => SpecContext::TypeName,
            Context::PropKey { parent } => SpecContext::PropKey { parent: parent@ },
            Context::PropValue { parent, key } => SpecContext::PropValue { parent: parent@, key: key@ },
        }
    }
}

pub open spec fn option_context_view(c: Option<Context>) -> Option<SpecContext> {
    match c {
        Some(x) => Some(x@),
        None => None,
    }
}

// ----------------------------------------------------------------------
// Where the cursor is
// ----------------------------------------------------------------------

/// The context inside the property list of `props` (of `ty_name`), from
/// property `k` on: the first property whose span holds the offset.
pub open spec fn props_context_from(
    props: Seq<SpecProperty>,
    ty_name: Seq<char>,
    offset: usize,
    k: int,
) -> Option<SpecContext>
    decreases props.len() - k,
{
    if k < 0 || k >= props.len() {
        None
    } else if props[k].span.spec_contains(offset) {
        if props[k].key_span.spec_contains(offset) {
            Some(SpecContext::PropKey { parent: ty_name })
        } else {
            Some(SpecContext::PropValue { parent: ty_name, key: props[k].key })
        }
    } else {
        props_context_from(props, ty_name, offset, k + 1)
    }
}

/// The context inside the parentheses of a value `ty_name(...)`.
pub open spec fn spec_context_in_type_value_inner(
    ty_name: Seq<char>,
    inner: SpecTypeValueInner,
    offset: usize,
) -> Option<SpecContext> {
    match inner {
        SpecTypeValueInner::Properties(props) => match props_context_from(props, ty_name, offset, 0) {
            Some(c) => Some(c),
            None => Some(SpecContext::PropKey { parent: ty_name }),
        },
        _ => None,
    }
}

/// The context given by the first property of a component, from `k` on,
/// whose span holds the offset.
pub open spec fn node_props_context_from(
    props: Seq<SpecProperty>,
    node_name: Seq<char>,
    offset: usize,
    k: int,
) -> Option<SpecContext>
    decreases props.len() - k,
{
    if k < 0 || k >= props.len() {
        None
    } else if props[k].span.spec_contains(offset) {
        if props[k].key_span.spec_contains(offset) {
            Some(SpecContext::PropKey { parent: node_name })
        } else {
            match props[k].value {
                SpecPropertyValue::Type(tv) => match spec_context_in_type_value_inner(
                    tv.name,
                    tv.inner,
                    offset,
                ) {
                    Some(c) => Some(c),
                    None => Some(SpecContext::PropValue { parent: node_name, key: props[k].key }),
                },
                _ => Some(SpecContext::PropValue { parent: node_name, key: props[k].key }),
            }
        }
    } else {
        node_props_context_from(props, node_name, offset, k + 1)
    }
}

/// The context inside a component: that of the first child whose span
/// holds the offset, else that of the first property whose span holds it,
/// else its name when the cursor is on it or just after it, else its property
/// list.
pub open spec fn spec_context_in_node(node: SpecNodeType, offset: usize) -> Option<SpecContext>
    decreases node, 0int,
{
    if !node.span.spec_contains(offset) {
        None
    } else {
        match children_context_from(node.children, offset, 0) {
            Some(c) => c,
            None => match node_props_context_from(node.properties, node.name, offset, 0) {
                Some(c) => Some(c),
                None => if node.name_span.start <= offset <= node.name_span.end {
                    Some(SpecContext::TypeName)
                } else {
                    Some(SpecContext::PropKey { parent: node.name })
                },
            },
        }
    }
}

/// `Some` with the context of the first child from `k` on whose span holds
/// the offset; `None` when there is no such child.
pub open spec fn children_context_from(children: Seq<SpecNodeType>, offset: usize, k: int) -> Option<
    Option<SpecContext>,
>
    decreases children, children.len() - k,
{
    if k < 0 || k >= children.len() {
        None
    } else if children[k].span.spec_contains(offset) {
        Some(spec_context_in_node(children[k], offset))
    } else {
        children_context_from(children, offset, k + 1)
    }
}

/// The context inside an alias declaration.
pub open spec fn alias_context(alias: SpecAliasDeclaration, offset: usize) -> Option<SpecContext> {
    if alias.target.span.spec_contains(offset) {
        match spec_context_in_type_value_inner(alias.target.name, alias.target.inner, offset) {
            Some(c) => Some(c),
            None => if alias.target.name_span.spec_contains(offset) {
                Some(SpecContext::TypeName)
            } else {
                None
            },
        }
    } else {
        None
    }
}

pub open spec fn aliases_context_from(aliases: Seq<SpecAliasDeclaration>, offset: usize, k: int) -> Option<
    SpecContext,
>
    decreases aliases.len() - k,
{
    if k < 0 || k >= aliases.len() {
        None
    } else {
        match alias_context(aliases[k], offset) {
            Some(c) => Some(c),
            None => aliases_context_from(aliases, offset, k + 1),
        }
    }
}

/// What the cursor at `offset` is on.
pub open spec fn spec_find_context(layout: SpecLayout, offset: usize) -> Option<SpecContext> {
    match aliases_context_from(layout.aliases, offset, 0) {
        Some(c) => Some(c),
        None => spec_context_in_node(layout.root, offset),
    }
}

// ----------------------------------------------------------------------
// The proposals
// ----------------------------------------------------------------------

pub open spec fn snippet_call(name: Seq<char>) -> Seq<char> {
    name + "(\n  $0\n)"@
}

pub open spec fn type_name_item(t: SpecTypeDef) -> SpecCompletionItem {
    SpecCompletionItem {
        label: t.name,
        kind: CompletionItemKind::Class,
        detail: Some(t.description),
        documentation: None,
        insert_text: Some(snippet_call(t.name)),
        snippet: true,
        text_edit: None,
    }
}

pub open spec fn alias_name_item(a: SpecAliasDeclaration) -> SpecCompletionItem {
    SpecCompletionItem {
        label: a.name,
        kind: CompletionItemKind::Class,
        detail: Some("alias for "@ + a.target.name + "()"@),
        documentation: None,
        insert_text: Some(snippet_call(a.name)),
        snippet: true,
        text_edit: None,
    }
}

/// Every built-in type, then every alias.
pub open spec fn spec_complete_type_names(layout: SpecLayout) -> Seq<SpecCompletionItem> {
    schema_types().map_values(|t: SpecTypeDef| type_name_item(t)) + layout.aliases.map_values(
        |a: SpecAliasDeclaration| alias_name_item(a),
    )
}

pub open spec fn prop_key_snippet(p: SpecPropDef) -> Seq<char> {
    match p.value {
        SpecValueKind::Type(t) => p.name + " = "@ + snippet_call(t),
        SpecValueKind::Enum(vs) => p.name + " = ${1|"@ + join(vs, ","@) + "|}"@,
        _ => p.name + " = $0"@,
    }
}

pub open spec fn prop_key_item(p: SpecPropDef) -> SpecCompletionItem {
    SpecCompletionItem {
        label: p.name,
        kind: CompletionItemKind::Field,
        detail: Some(p.description),
        documentation: Some(p.description + "\n\n*Value:* "@ + spec_value_kind_hint(p.value)),
        insert_text: Some(prop_key_snippet(p)),
        snippet: true,
        text_edit: None,
    }
}

/// The keys of the built-in type `ty_name`.
pub open spec fn spec_complete_prop_keys(ty_name: Seq<char>) -> Seq<SpecCompletionItem> {
    match spec_lookup(ty_name) {
        None => Seq::empty(),
        Some(def) => def.props.map_values(|p: SpecPropDef| prop_key_item(p)),
    }
}

/// The start of the run of word bytes that ends at `i`.
pub open spec fn word_start(b: Seq<u8>, i: int) -> int
    decreases i,
{
    if 0 < i <= b.len() && is_word_byte(b[i - 1]) {
        word_start(b, i - 1)
    } else {
        i
    }
}

/// The range of the word around `offset`.
pub open spec fn spec_current_word_range(doc: Document, offset: usize) -> Range {
    Range {
        start: spec_offset_to_position(doc.lines@, word_start(doc.text(), offset as int) as usize),
        end: spec_offset_to_position(doc.lines@, word_end(doc.text(), offset as int) as usize),
    }
}

pub open spec fn enum_value_item(v: Seq<char>, range: Range) -> SpecCompletionItem {
    SpecCompletionItem {
        label: v,
        kind: CompletionItemKind::EnumMember,
        detail: None,
        documentation: None,
        insert_text: None,
        snippet: false,
        text_edit: Some(SpecTextEdit { range, new_text: v }),
    }
}

/// The values of property `key` of the built-in type `ty_name`.
pub open spec fn spec_complete_prop_value(
    ty_name: Seq<char>,
    key: Seq<char>,
    doc: Document,
    offset: usize,
) -> Seq<SpecCompletionItem> {
    match spec_lookup(ty_name) {
        None => Seq::empty(),
        Some(def) => match spec_find_prop(def, key) {
            None => Seq::empty(),
            Some(pd) => match pd.value {
                SpecValueKind::Enum(vs) => vs.map_values(
                    |v: Seq<char>| enum_value_item(v, spec_current_word_range(doc, offset)),
                ),
                SpecValueKind::Type(t) => seq![
                    SpecCompletionItem {
                        label: t,
                        kind: CompletionItemKind::Class,
                        detail: None,
                        documentation: None,
                        insert_text: Some(snippet_call(t)),
                        snippet: true,
                        text_edit: None,
                    },
                ],
                SpecValueKind::UInt => seq![
                    SpecCompletionItem {
                        label: "0"@,
                        kind: CompletionItemKind::Value,
                        detail: None,
                        documentation: None,
                        insert_text: Some("$0"@),
                        snippet: true,
                        text_edit: None,
                    },
                ],
                SpecValueKind::Literal => Seq::empty(),
            },
        },
    }
}

pub open spec fn spec_build_completions(
    ctx: SpecContext,
    layout: SpecLayout,
    doc: Document,
    offset: usize,
) -> Seq<SpecCompletionItem> {
    match ctx {
        SpecContext::TypeName => spec_complete_type_names(layout),
        SpecContext::PropKey { parent } => spec_complete_prop_keys(
            real_alias_name(parent, layout.aliases),
        ),
        SpecContext::PropValue { parent, key } => spec_complete_prop_value(
            real_alias_name(parent, layout.aliases),
            key,
            doc,
            offset,
        ),
    }
}

/// The completion proposals at `pos`.
pub open spec fn spec_get_completions(doc: Document, pos: Position) -> Seq<SpecCompletionItem> {
    let offset = spec_position_to_offset(doc.lines@, pos);
    match doc.layout {
        None => Seq::empty(),
        Some(layout) => match spec_find_context(layout@, offset) {
            None => Seq::empty(),
            Some(ctx) => spec_build_completions(ctx, layout@, doc, offset),
        },
    }
}

// ----------------------------------------------------------------------
// Finding the context
// ----------------------------------------------------------------------

#[verifier::loop_isolation(false)]
fn context_in_type_value_inner<'a>(ty_name: &'a str, inner: &'a TypeValueInner, offset: usize) -> (r:
    Option<Context<'a>>)
    ensures
        option_context_view(r) == spec_context_in_type_value_inner(ty_name@, inner@, offset),
{
    if let TypeValueInner::Properties(props) = inner {
        let ghost m = crate::ast::model_properties(props@);
        let mut i: usize = 0;
        while i < props.len()
            invariant
                i <= props@.len(),
                m == crate::ast::model_properties(props@),
                m.len() == props@.len(),
                props_context_from(m, ty_name@, offset, 0) == props_context_from(m, ty_name@, offset, i as int),
            decreases props.len() - i,
        {
            let prop = &props[i];
            assert(m[i as int] == prop@);
            if prop.span.contains(offset) {
                if prop.key_span.contains(offset) {
                    return Some(Context::PropKey { parent: ty_name });
                }
                return Some(Context::PropValue { parent: ty_name, key: prop.key.as_str() });
            }
            i = i + 1;
        }
        return Some(Context::PropKey { parent: ty_name });
    }
    None
}

#[verifier::loop_isolation(false)]
fn context_in_node<'a>(node: &'a NodeType, offset: usize) -> (r: Option<Context<'a>>)
    ensures
        option_context_view(r) == spec_context_in_node(node@, offset),
    decreases node,
{
    if !node.span.contains(offset) {
        return None;
    }
    let ghost cm = crate::ast::model_nodes(node.children@);
    let mut i: usize = 0;
    while i < node.children.len()
        invariant
            i <= node.children@.len(),
            cm == crate::ast::model_nodes(node.children@),
            cm.len() == node.children@.len(),
            children_context_from(cm, offset, 0) == children_context_from(cm, offset, i as int),
        decreases node.children.len() - i,
    {
        let child = &node.children[i];
        assert(cm[i as int] == child@);
        if child.span.contains(offset) {
            return context_in_node(child, offset);
        }
        i = i + 1;
    }
    let ghost pm = crate::ast::model_properties(node.properties@);
    let mut k: usize = 0;
    while k < node.properties.len()
        invariant
            k <= node.properties@.len(),
            pm == crate::ast::model_properties(node.properties@),
            pm.len() == node.properties@.len(),
            children_context_from(cm, offset, 0) is None,
            node_props_context_from(pm, node.name@, offset, 0) == node_props_context_from(
                pm,
                node.name@,
                offset,
                k as int,
            ),
        decreases node.properties.len() - k,
    {
        let prop = &node.properties[k];
        assert(pm[k as int] == prop@);
        if prop.span.contains(offset) {
            if prop.key_span.contains(offset) {
                return Some(Context::PropKey { parent: node.name.as_str() });
            }
            return match &prop.value {
                PropertyValue::Type(tv) => {
                    if let Some(ctx) = context_in_type_value_inner(tv.name.as_str(), &tv.inner, offset) {
                        return Some(ctx);
                    }
                    Some(Context::PropValue { parent: node.name.as_str(), key: prop.key.as_str() })
                },
                _ => Some(Context::PropValue { parent: node.name.as_str(), key: prop.key.as_str() }),
            };
        }
        k = k + 1;
    }
    if node.name_span.start <= offset && offset <= node.name_span.end {
        return Some(Context::TypeName);
    }
    Some(Context::PropKey { parent: node.name.as_str() })
}

#[verifier::loop_isolation(false)]
fn find_context<'a>(layout: &'a Layout, offset: usize) -> (r: Option<Context<'a>>)
    ensures
        option_context_view(r) == spec_find_context(layout@, offset),
{
    let ghost am = layout@.aliases;
    let mut i: usize = 0;
    while i < layout.aliases.len()
        invariant
            i <= layout.aliases@.len(),
            am == layout@.aliases,
            am.len() == layout.aliases@.len(),
            aliases_context_from(am, offset, 0) == aliases_context_from(am, offset, i as int),
        decreases layout.aliases.len() - i,
    {
        let alias = &layout.aliases[i];
        assert(am[i as int] == alias@);
        if alias.target.span.contains(offset) {
            if let Some(ctx) = context_in_type_value_inner(alias.target.name.as_str(), &alias.target.inner, offset) {
                return Some(ctx);
            }
            if alias.target.name_span.contains(offset) {
                return Some(Context::TypeName);
            }
        }
        i = i + 1;
    }
    context_in_node(&layout.root, offset)
}

// ----------------------------------------------------------------------
// Building the proposals
// ----------------------------------------------------------------------

fn snippet_call_string(name: &str) -> (r: String)
    ensures
        r@ == snippet_call(name@),
{
    let mut s = String::from_str(name);
    s.append("(\n  $0\n)");
    s
}

fn push_item(items: &mut Vec<CompletionItem>, item: CompletionItem)
    ensures
        completion_items_view(final(items)@) == completion_items_view(old(items)@).push(item@),
{
    items.push(item);
    proof {
        assert(completion_items_view(items@) =~= completion_items_view(old(items)@).push(item@));
    }
}

fn complete_type_names(layout: &Layout) -> (r: Vec<CompletionItem>)
    ensures
        completion_items_view(r@) == spec_complete_type_names(layout@),
{
    let ts = types();
    let ghost tm = schema_types().map_values(|t: SpecTypeDef| type_name_item(t));
    let mut items: Vec<CompletionItem> = Vec::new();
    let mut i: usize = 0;
    while i < ts.len()
        invariant
            i <= ts@.len(),
            type_defs_view(ts@) == schema_types(),
            tm == schema_types().map_values(|t: SpecTypeDef| type_name_item(t)),
            completion_items_view(items@) == tm.take(i as int),
        decreases ts.len() - i,
    {
        let t = &ts[i];
        assert(schema_types()[i as int] == t@);
        let item = CompletionItem {
            label: String::from_str(t.name),
            kind: CompletionItemKind::Class,
            detail: Some(String::from_str(t.description)),
            documentation: None,
            insert_text: Some(snippet_call_string(t.name)),
            snippet: true,
            text_edit: None,
        };
        push_item(&mut items, item);
        assert(tm.take(i + 1) =~= tm.take(i as int).push(tm[i as int]));
        i = i + 1;
    }
    assert(tm.take(ts@.len() as int) =~= tm);
    let ghost am = layout@.aliases.map_values(|a: SpecAliasDeclaration| alias_name_item(a));
    let mut k: usize = 0;
    while k < layout.aliases.len()
        invariant
            k <= layout.aliases@.len(),
            am == layout@.aliases.map_values(|a: SpecAliasDeclaration| alias_name_item(a)),
            am.len() == layout.aliases@.len(),
            completion_items_view(items@) == tm + am.take(k as int),
        decreases layout.aliases.len() - k,
    {
        let alias = &layout.aliases[k];
        assert(layout@.aliases[k as int] == alias@);
        let mut detail = String::from_str("alias for ");
        detail.append(alias.target.name.as_str());
        detail.append("()");
        let item = CompletionItem {
            label: alias.name.clone(),
            kind: CompletionItemKind::Class,
            detail: Some(detail),
            documentation: None,
            insert_text: Some(snippet_call_string(alias.name.as_str())),
            snippet: true,
            text_edit: None,
        };
        push_item(&mut items, item);
        assert(am.take(k + 1) =~= am.take(k as int).push(am[k as int]));
        assert(tm + am.take(k + 1) =~= (tm + am.take(k as int)).push(am[k as int]));
        k = k + 1;
    }
    assert(am.take(layout.aliases@.len() as int) =~= am);
    items
}

fn prop_key_snippet_string(p: &PropDef) -> (r: String)
    ensures
        r@ == prop_key_snippet(p@),
{
    let mut s = String::from_str(p.name);
    match &p.value {
        ValueKind::Type(t) => {
            s.append(" = ");
            let call = snippet_call_string(t);
            s.append(call.as_str());
        },
        ValueKind::Enum(variants) => {
            s.append(" = ${1|");
            let choices = join_strs(variants, ",");
            s.append(choices.as_str());
            s.append("|}");
        },
        _ => {
            s.append(" = $0");
        },
    }
    s
}

fn complete_prop_keys(ty_name: &str, layout: &Layout) -> (r: Vec<CompletionItem>)
    ensures
        completion_items_view(r@) == spec_complete_prop_keys(ty_name@),
{
    let def = match lookup(ty_name) {
        None => return Vec::new(),
        Some(d) => d,
    };
    let ghost pm = def@.props.map_values(|p: SpecPropDef| prop_key_item(p));
    let mut items: Vec<CompletionItem> = Vec::new();
    let mut i: usize = 0;
    while i < def.props.len()
        invariant
            i <= def.props@.len(),
            pm == def@.props.map_values(|p: SpecPropDef| prop_key_item(p)),
            pm.len() == def.props@.len(),
            completion_items_view(items@) == pm.take(i as int),
        decreases def.props.len() - i,
    {
        let p = &def.props[i];
        assert(def@.props[i as int] == p@);
        let mut documentation = String::from_str(p.description);
        documentation.append("\n\n*Value:* ");
        let hint = value_kind_hint(&p.value);
        documentation.append(hint.as_str());
        let item = CompletionItem {
            label: String::from_str(p.name),
            kind: CompletionItemKind::Field,
            detail: Some(String::from_str(p.description)),
            documentation: Some(documentation),
            insert_text: Some(prop_key_snippet_string(p)),
            snippet: true,
            text_edit: None,
        };
        push_item(&mut items, item);
        assert(pm.take(i + 1) =~= pm.take(i as int).push(pm[i as int]));
        i = i + 1;
    }
    assert(pm.take(def.props@.len() as int) =~= pm);
    items
}

fn current_word_range(doc: &Document, pos: Position) -> (r: Range)
    requires
        doc.wf(),
        position_fits(doc.lines@, pos),
        spec_position_to_offset(doc.lines@, pos) <= doc.text().len(),
    ensures
        r == spec_current_word_range(*doc, spec_position_to_offset(doc.lines@, pos)),
{
    let offset = doc.position_to_offset(pos);
    let src = doc.source.as_str().as_bytes();
    let mut start = offset;
    while start > 0 && crate::parser::word_byte(src[start - 1])
        invariant
            start <= offset <= src@.len(),
            src@ == doc.text(),
            word_start(src@, offset as int) == word_start(src@, start as int),
        decreases start,
    {
        start = start - 1;
    }
    let mut end = offset;
    while end < src.len() && crate::parser::word_byte(src[end])
        invariant
            offset <= end <= src@.len(),
            src@ == doc.text(),
            word_end(src@, offset as int) == word_end(src@, end as int),
        decreases src.len() - end,
    {
        end = end + 1;
    }
    Range { start: doc.offset_to_position(start), end: doc.offset_to_position(end) }
}

fn complete_prop_value(ty_name: &str, key: &str, layout: &Layout, doc: &Document, pos: Position) -> (r: Vec<
    CompletionItem,
>)
    requires
        doc.wf(),
        position_fits(doc.lines@, pos),
        (spec_lookup(ty_name@) matches Some(def) && spec_find_prop(def, key@) matches Some(pd) && pd.value is Enum
            && pd.value->Enum_0.len() > 0) ==> spec_position_to_offset(doc.lines@, pos) <= doc.text().len(),
    ensures
        completion_items_view(r@) == spec_complete_prop_value(
            ty_name@,
            key@,
            *doc,
            spec_position_to_offset(doc.lines@, pos),
        ),
{
    let def = match lookup(ty_name) {
        None => return Vec::new(),
        Some(d) => d,
    };
    let prop = match def.find_prop(key) {
        None => return Vec::new(),
        Some(p) => p,
    };
    let mut items: Vec<CompletionItem> = Vec::new();
    match &prop.value {
        ValueKind::Enum(variants) => {
            if variants.len() == 0 {
                assert(completion_items_view(items@) =~= spec_complete_prop_value(
                    ty_name@,
                    key@,
                    *doc,
                    spec_position_to_offset(doc.lines@, pos),
                ));
                return items;
            }
            let range = current_word_range(doc, pos);
            let ghost vm = strs_view(variants@).map_values(|v: Seq<char>| enum_value_item(v, range));
            let mut i: usize = 0;
            while i < variants.len()
                invariant
                    i <= variants@.len(),
                    vm == strs_view(variants@).map_values(|v: Seq<char>| enum_value_item(v, range)),
                    vm.len() == variants@.len(),
                    completion_items_view(items@) == vm.take(i as int),
                decreases variants.len() - i,
            {
                let v = variants[i];
                let item = CompletionItem {
                    label: String::from_str(v),
                    kind: CompletionItemKind::EnumMember,
                    detail: None,
                    documentation: None,
                    insert_text: None,
                    snippet: false,
                    text_edit: Some(TextEdit { range, new_text: String::from_str(v) }),
                };
                push_item(&mut items, item);
                assert(vm.take(i + 1) =~= vm.take(i as int).push(vm[i as int]));
                i = i + 1;
            }
            assert(vm.take(variants@.len() as int) =~= vm);
        },
        ValueKind::Type(t) => {
            let item = CompletionItem {
                label: String::from_str(t),
                kind: CompletionItemKind::Class,
                detail: None,
                documentation: None,
                insert_text: Some(snippet_call_string(t)),
                snippet: true,
                text_edit: None,
            };
            push_item(&mut items, item);
        },
        ValueKind::UInt => {
            let item = CompletionItem {
                label: String::from_str("0"),
                kind: CompletionItemKind::Value,
                detail: None,
                documentation: None,
                insert_text: Some(String::from_str("$0")),
                snippet: true,
                text_edit: None,
            };
            push_item(&mut items, item);
        },
        ValueKind::Literal => {},
    }
    proof {
        assert(completion_items_view(items@) =~= spec_complete_prop_value(
            ty_name@,
            key@,
            *doc,
            spec_position_to_offset(doc.lines@, pos),
        ));
    }
    items
}

fn build_completions(ctx: Context, layout: &Layout, doc: &Document, pos: Position) -> (r: Vec<
    CompletionItem,
>)
    requires
        doc.wf(),
        position_fits(doc.lines@, pos),
        (ctx@ matches SpecContext::PropValue { parent, key } && spec_lookup(
            real_alias_name(parent, layout@.aliases),
        ) matches Some(def) && spec_find_prop(def, key) matches Some(pd) && pd.value is Enum
            && pd.value->Enum_0.len() > 0) ==> spec_position_to_offset(doc.lines@, pos) <= doc.text().len(),
    ensures
        completion_items_view(r@) == spec_build_completions(
            ctx@,
            layout@,
            *doc,
            spec_position_to_offset(doc.lines@, pos),
        ),
{
    match ctx {
        Context::TypeName => complete_type_names(layout),
        Context::PropKey { parent } => {
            let resolved = resolve_real_alias_name(parent, layout.aliases.as_slice());
            complete_prop_keys(resolved, layout)
        },
        Context::PropValue { parent, key } => {
            let resolved = resolve_real_alias_name(parent, layout.aliases.as_slice());
            complete_prop_value(resolved, key, layout, doc, pos)
        },
    }
}

/// The completion proposals at `pos`.
pub fn get_completions(doc: &Document, pos: Position) -> (r: Vec<CompletionItem>)
    requires
        doc.wf(),
        position_fits(doc.lines@, pos),
    ensures
        completion_items_view(r@) == spec_get_completions(*doc, pos),
{
    let offset = doc.position_to_offset(pos);
    let layout = match &doc.layout {
        None => {
            let v: Vec<CompletionItem> = Vec::new();
            assert(completion_items_view(v@) =~= Seq::<SpecCompletionItem>::empty());
            return v;
        },
        Some(l) => l,
    };
    proof {
        if offset >= doc.text().len() {
            law_no_context_past_end(*doc, offset);
        }
    }
    match find_context(layout, offset) {
        Some(ctx) => build_completions(ctx, layout, doc, pos),
        None => {
            let v: Vec<CompletionItem> = Vec::new();
            assert(completion_items_view(v@) =~= Seq::<SpecCompletionItem>::empty());
            v
        },
    }
}

proof fn lemma_no_alias_context_past_end(aliases: Seq<SpecAliasDeclaration>, offset: usize, b: Seq<u8>, k: int)
    requires
        forall|i: int| 0 <= i < aliases.len() ==> alias_placed(#[trigger] aliases[i], b),
        offset >= b.len(),
    ensures
        aliases_context_from(aliases, offset, k) is None,
    decreases aliases.len() - k,
{
    if 0 <= k < aliases.len() {
        assert(alias_placed(aliases[k], b));
        lemma_no_alias_context_past_end(aliases, offset, b, k + 1);
    }
}

/// Past the end of a document's text the cursor is on nothing that could be
/// completed.
pub proof fn law_no_context_past_end(doc: Document, offset: usize)
    requires
        doc.wf(),
        offset >= doc.text().len(),
    ensures
        doc.layout matches Some(l) ==> spec_find_context(l@, offset) is None,
{
    let b = doc.text();
    law_parse_layout_placed(b);
    if let Some(l) = doc.layout {
        assert(spec_parse(b) == Ok::<SpecLayout, SpecParseError>(l@));
        lemma_no_alias_context_past_end(l@.aliases, offset, b, 0);
    }
}

proof fn lemma_children_context_first(children: Seq<SpecNodeType>, offset: usize, k: int, i: int)
    requires
        0 <= k <= i < children.len(),
        children[i].span.spec_contains(offset),
        forall|j: int| k <= j < i ==> !(#[trigger] children[j]).span.spec_contains(offset),
    ensures
        children_context_from(children, offset, k) == Some(spec_context_in_node(children[i], offset)),
    decreases i - k,
{
    if k < i {
        lemma_children_context_first(children, offset, k + 1, i);
    }
}

/// The innermost component decides: when the cursor is in a component and
/// in a child of it, the first such child gives the context, and the
/// component's own properties are not consulted.
pub proof fn law_context_innermost(node: SpecNodeType, offset: usize, i: int)
    requires
        node.span.spec_contains(offset),
        0 <= i < node.children.len(),
        node.children[i].span.spec_contains(offset),
        forall|j: int| 0 <= j < i ==> !(#[trigger] node.children[j]).span.spec_contains(offset),
    ensures
        spec_context_in_node(node, offset) == spec_context_in_node(node.children[i], offset),
{
    lemma_children_context_first(node.children, offset, 0, i);
}

proof fn lemma_no_child_context(children: Seq<SpecNodeType>, offset: usize, k: int)
    requires
        0 <= k,
        forall|c: int| 0 <= c < children.len() ==> !(#[trigger] children[c]).span.spec_contains(offset),
    ensures
        children_context_from(children, offset, k) is None,
    decreases children.len() - k,
{
    if k < children.len() {
        lemma_no_child_context(children, offset, k + 1);
    }
}

proof fn lemma_node_props_context_first(props: Seq<SpecProperty>, name: Seq<char>, offset: usize, j: int, k: int)
    requires
        0 <= j <= k < props.len(),
        props[k].span.spec_contains(offset),
        forall|m: int| j <= m < k ==> !(#[trigger] props[m]).span.spec_contains(offset),
    ensures
        node_props_context_from(props, name, offset, j) == node_props_context_from(props, name, offset, k),
    decreases k - j,
{
    if j < k {
        lemma_node_props_context_first(props, name, offset, j + 1, k);
    }
}

proof fn lemma_props_context_first(props: Seq<SpecProperty>, name: Seq<char>, offset: usize, j: int, k: int)
    requires
        0 <= j <= k <= props.len(),
        forall|m: int| j <= m < k ==> !(#[trigger] props[m]).span.spec_contains(offset),
    ensures
        props_context_from(props, name, offset, j) == props_context_from(props, name, offset, k),
    decreases k - j,
{
    if j < k {
        lemma_props_context_first(props, name, offset, j + 1, k);
    }
}

/// Inside the parentheses of a value `Name(k = v, ...)` given to a
/// component's property, the context belongs to `Name`: on one of its keys
/// the keys of `Name` are completed, on one of its values the values of that
/// key of `Name`, and elsewhere inside it the keys of `Name`.
pub proof fn law_context_in_nested_value(
    node: SpecNodeType,
    offset: usize,
    k: int,
    tv: SpecTypeValue,
    props: Seq<SpecProperty>,
)
    requires
        node.span.spec_contains(offset),
        forall|c: int| 0 <= c < node.children.len() ==> !(#[trigger] node.children[c]).span.spec_contains(offset),
        0 <= k < node.properties.len(),
        node.properties[k].span.spec_contains(offset),
        forall|j: int| 0 <= j < k ==> !(#[trigger] node.properties[j]).span.spec_contains(offset),
        !node.properties[k].key_span.spec_contains(offset),
        node.properties[k].value == SpecPropertyValue::Type(tv),
        tv.inner == SpecTypeValueInner::Properties(props),
    ensures
        forall|m: int|
            0 <= m < props.len() && (#[trigger] props[m]).span.spec_contains(offset) && (forall|j: int|
                0 <= j < m ==> !props[j].span.spec_contains(offset)) ==> spec_context_in_node(node, offset) == if props[m].key_span.spec_contains(offset) {
                Some(SpecContext::PropKey { parent: tv.name })
            } else {
                Some(SpecContext::PropValue { parent: tv.name, key: props[m].key })
            },
        (forall|m: int| 0 <= m < props.len() ==> !(#[trigger] props[m]).span.spec_contains(offset)) ==> spec_context_in_node(
            node,
            offset,
        ) == Some(SpecContext::PropKey { parent: tv.name }),
{
    lemma_no_child_context(node.children, offset, 0);
    lemma_node_props_context_first(node.properties, node.name, offset, 0, k);
    assert forall|m: int|
        0 <= m < props.len() && (#[trigger] props[m]).span.spec_contains(offset) && (forall|j: int|
            0 <= j < m ==> !props[j].span.spec_contains(offset)) implies spec_context_in_node(node, offset) == if props[m].key_span.spec_contains(offset) {
            Some(SpecContext::PropKey { parent: tv.name })
        } else {
            Some(SpecContext::PropValue { parent: tv.name, key: props[m].key })
        } by {
        lemma_props_context_first(props, tv.name, offset, 0, m);
    }
    if forall|m: int| 0 <= m < props.len() ==> !(#[trigger] props[m]).span.spec_contains(offset) {
        lemma_props_context_first(props, tv.name, offset, 0, props.len() as int);
    }
}

proof fn lemma_no_alias_context(aliases: Seq<SpecAliasDeclaration>, offset: usize, k: int)
    requires
        0 <= k,
        forall|a: int| 0 <= a < aliases.len() ==> !(#[trigger] aliases[a]).target.span.spec_contains(offset),
    ensures
        aliases_context_from(aliases, offset, k) is None,
    decreases aliases.len() - k,
{
    if k < aliases.len() {
        lemma_no_alias_context(aliases, offset, k + 1);
    }
}

/// Outside every alias declaration's target, the context is that of the
/// root component.
pub proof fn law_context_outside_aliases(l: SpecLayout, offset: usize)
    requires
        forall|a: int| 0 <= a < l.aliases.len() ==> !(#[trigger] l.aliases[a]).target.span.spec_contains(offset),
    ensures
        spec_find_context(l, offset) == spec_context_in_node(l.root, offset),
{
    lemma_no_alias_context(l.aliases, offset, 0);
}

/// The type whose keys or values a context completes.
pub open spec fn context_parent(c: SpecContext) -> Option<Seq<char>> {
    match c {
        SpecContext::TypeName => None,
        SpecContext::PropKey { parent } => Some(parent),
        SpecContext::PropValue { parent, .. } => Some(parent),
    }
}

proof fn lemma_alias_context_first(aliases: Seq<SpecAliasDeclaration>, offset: usize, j: int, a: int)
    requires
        0 <= j <= a < aliases.len(),
        forall|b: int| j <= b < a ==> !(#[trigger] aliases[b]).target.span.spec_contains(offset),
    ensures
        aliases_context_from(aliases, offset, j) == match alias_context(aliases[a], offset) {
            Some(c) => Some(c),
            None => aliases_context_from(aliases, offset, a + 1),
        },
    decreases a - j,
{
    if j < a {
        lemma_alias_context_first(aliases, offset, j + 1, a);
    }
}

proof fn lemma_props_context_parent(props: Seq<SpecProperty>, name: Seq<char>, offset: usize, k: int)
    ensures
        props_context_from(props, name, offset, k) matches Some(c) ==> context_parent(c) == Some(name),
    decreases props.len() - k,
{
    if 0 <= k < props.len() {
        lemma_props_context_parent(props, name, offset, k + 1);
    }
}

/// Inside the parentheses of an alias declaration's target `Name(k = v, ...)`
/// (the first target that holds the cursor), the context belongs to `Name`:
/// its keys or the values of one of its keys are completed.
pub proof fn law_context_in_alias_target(l: SpecLayout, offset: usize, a: int, props: Seq<SpecProperty>)
    requires
        0 <= a < l.aliases.len(),
        l.aliases[a].target.span.spec_contains(offset),
        forall|b: int| 0 <= b < a ==> !(#[trigger] l.aliases[b]).target.span.spec_contains(offset),
        l.aliases[a].target.inner == SpecTypeValueInner::Properties(props),
    ensures
        spec_find_context(l, offset) matches Some(c) && context_parent(c) == Some(l.aliases[a].target.name),
{
    lemma_alias_context_first(l.aliases, offset, 0, a);
    lemma_props_context_parent(props, l.aliases[a].target.name, offset, 0);
}

/// What is proposed in each context: on a type name, every built-in type
/// and then every alias; in a property list, the keys of the type the
/// parent stands for, in its order; on a value, the variants of an
/// enumerated key (each replacing the word around the cursor), the type of a
/// key that takes a type, and a number for an integer key.
pub proof fn law_proposals(ctx: SpecContext, l: SpecLayout, doc: Document, offset: usize)
    ensures
        ({
            let items = spec_build_completions(ctx, l, doc, offset);
            &&& ctx is TypeName ==> {
                &&& items.len() == schema_types().len() + l.aliases.len()
                &&& forall|i: int| 0 <= i < schema_types().len() ==> (#[trigger] items[i]).label == schema_types()[i].name
                &&& forall|i: int|
                    0 <= i < l.aliases.len() ==> (#[trigger] items[schema_types().len() + i]).label == l.aliases[i].name
                &&& forall|i: int| 0 <= i < items.len() ==> (#[trigger] items[i]).kind == CompletionItemKind::Class
            }
            &&& ctx matches SpecContext::PropKey { parent } ==> (spec_lookup(real_alias_name(parent, l.aliases)) matches Some(
                def,
            ) ==> {
                &&& items.len() == def.props.len()
                &&& forall|i: int|
                    0 <= i < items.len() ==> (#[trigger] items[i]).label == def.props[i].name && items[i].kind
                        == CompletionItemKind::Field
            })
            &&& ctx matches SpecContext::PropValue { parent, key } ==> (spec_lookup(real_alias_name(parent, l.aliases)) matches Some(
                def,
            ) ==> (spec_find_prop(def, key) matches Some(pd) ==> {
                &&& pd.value matches SpecValueKind::Enum(vs) ==> (items.len() == vs.len() && forall|i: int|
                    0 <= i < items.len() ==> (#[trigger] items[i]).label == vs[i] && items[i].kind
                        == CompletionItemKind::EnumMember && items[i].text_edit == Some(
                        SpecTextEdit { range: spec_current_word_range(doc, offset), new_text: vs[i] },
                    ))
                &&& pd.value matches SpecValueKind::Type(t) ==> (items.len() == 1 && items[0].label == t)
                &&& pd.value is UInt ==> (items.len() == 1 && items[0].label == "0"@)
            }))
        }),
{
}

} // verus!
