//! Renaming an alias: its declaration and every use of its name.
use vstd::prelude::*;
use crate::ast::{
    group_ast_model, spec_is_alias, Layout, NodeType, PropertyValue, Span, SpecAliasDeclaration,
    SpecLayout, SpecNodeType, SpecProperty, SpecPropertyValue, SpecTypeValue, SpecTypeValueInner,
    TypeValue, TypeValueInner,
};
use crate::document::{
    position_fits, spec_position_to_offset, spec_span_to_range, Document,
};
use crate::protocol::{
    text_edits_view, Position, PrepareRenameResponse, Range, SpecTextEdit, TextEdit, WorkspaceEdit,
};
use crate::text::str_eq;

verus! {

broadcast use group_ast_model;

// ----------------------------------------------------------------------
// Which name is under the cursor
// ----------------------------------------------------------------------

/// The first alias use, in `tv` or in the values of its properties, whose
/// name span holds the offset: the name and its span.
pub open spec fn usage_in_type_value(tv: SpecTypeValue, aliases: Seq<SpecAliasDeclaration>, offset: usize) -> Option<
    (Seq<char>, Span),
>
    decreases tv, 0int,
{
    if tv.name_span.spec_contains(offset) && spec_is_alias(aliases, tv.name) {
        Some((tv.name, tv.name_span))
    } else {
        match tv.inner {
            SpecTypeValueInner::Properties(props) => usage_in_props_from(props, aliases, offset, 0),
            _ => None,
        }
    }
}

pub open spec fn usage_in_props_from(
    props: Seq<SpecProperty>,
    aliases: Seq<SpecAliasDeclaration>,
    offset: usize,
    k: int,
) -> Option<(Seq<char>, Span)>
    decreases props, props.len() - k,
{
    if k < 0 || k >= props.len() {
        None
    } else {
        match props[k].value {
            SpecPropertyValue::Type(tv) => match usage_in_type_value(tv, aliases, offset) {
                Some(r) => Some(r),
                None => usage_in_props_from(props, aliases, offset, k + 1),
            },
            _ => usage_in_props_from(props, aliases, offset, k + 1),
        }
    }
}

/// The alias use under the cursor inside a component. A component name under
/// the cursor that is no alias stops the search: built-in names are not renamed.
pub open spec fn usage_in_node(node: SpecNodeType, aliases: Seq<SpecAliasDeclaration>, offset: usize) -> Option<
    (Seq<char>, Span),
>
    decreases node, 0int,
{
    if !node.span.spec_contains(offset) {
        None
    } else if node.name_span.spec_contains(offset) {
        if spec_is_alias(aliases, node.name) {
            Some((node.name, node.name_span))
        } else {
            None
        }
    } else {
        match usage_in_props_from(node.properties, aliases, offset, 0) {
            Some(r) => Some(r),
            None => usage_in_children_from(node.children, aliases, offset, 0),
        }
    }
}

pub open spec fn usage_in_children_from(
    children: Seq<SpecNodeType>,
    aliases: Seq<SpecAliasDeclaration>,
    offset: usize,
    k: int,
) -> Option<(Seq<char>, Span)>
    decreases children, children.len() - k,
{
    if k < 0 || k >= children.len() {
        None
    } else {
        match usage_in_node(children[k], aliases, offset) {
            Some(r) => Some(r),
            None => usage_in_children_from(children, aliases, offset, k + 1),
        }
    }
}

/// The name under the cursor among the declarations from the `k`-th on: a
/// declared name, or an alias used in a declaration's target.
pub open spec fn usage_in_declarations_from(aliases: Seq<SpecAliasDeclaration>, offset: usize, k: int) -> Option<
    (Seq<char>, Span),
>
    decreases aliases.len() - k,
{
    if k < 0 || k >= aliases.len() {
        None
    } else if aliases[k].name_span.spec_contains(offset) {
        Some((aliases[k].name, aliases[k].name_span))
    } else {
        match usage_in_type_value(aliases[k].target, aliases, offset) {
            Some(r) => Some(r),
            None => usage_in_declarations_from(aliases, offset, k + 1),
        }
    }
}

/// The renameable name at `offset` and its span.
pub open spec fn spec_find_alias_name_at(layout: SpecLayout, offset: usize) -> Option<(Seq<char>, Span)> {
    match usage_in_declarations_from(layout.aliases, offset, 0) {
        Some(r) => Some(r),
        None => usage_in_node(layout.root, layout.aliases, offset),
    }
}

// ----------------------------------------------------------------------
// The edits
// ----------------------------------------------------------------------

pub open spec fn edit_for(lines: Seq<usize>, span: Span, new_name: Seq<char>) -> SpecTextEdit {
    SpecTextEdit { range: spec_span_to_range(lines, span), new_text: new_name }
}

/// An edit for each of the first `n` declarations named `old`, in order.
pub open spec fn declaration_edits(
    aliases: Seq<SpecAliasDeclaration>,
    old: Seq<char>,
    new_name: Seq<char>,
    lines: Seq<usize>,
    n: int,
) -> Seq<SpecTextEdit>
    decreases n,
{
    if n <= 0 {
        Seq::empty()
    } else {
        let before = declaration_edits(aliases, old, new_name, lines, n - 1);
        if aliases[n - 1].name == old {
            before.push(edit_for(lines, aliases[n - 1].name_span, new_name))
        } else {
            before
        }
    }
}

/// An edit for each type name `old` in `tv` and in its nested values, in
/// document order.
pub open spec fn type_value_edits(tv: SpecTypeValue, old: Seq<char>, new_name: Seq<char>, lines: Seq<usize>) -> Seq<
    SpecTextEdit,
>
    decreases tv, 0int,
{
    let own = if tv.name == old {
        seq![edit_for(lines, tv.name_span, new_name)]
    } else {
        Seq::empty()
    };
    match tv.inner {
        SpecTypeValueInner::Properties(props) => own + props_edits(
            props,
            old,
            new_name,
            lines,
            props.len() as int,
        ),
        _ => own,
    }
}

/// The edits in the values of the first `n` properties.
pub open spec fn props_edits(
    props: Seq<SpecProperty>,
    old: Seq<char>,
    new_name: Seq<char>,
    lines: Seq<usize>,
    n: int,
) -> Seq<SpecTextEdit>
    decreases props, n,
{
    if n <= 0 || n > props.len() {
        Seq::empty()
    } else {
        let before = props_edits(props, old, new_name, lines, n - 1);
        match props[n - 1].value {
            SpecPropertyValue::Type(tv) => before + type_value_edits(tv, old, new_name, lines),
            _ => before,
        }
    }
}

/// The edits in a component: its name, its property values, its children.
pub open spec fn node_edits(node: SpecNodeType, old: Seq<char>, new_name: Seq<char>, lines: Seq<usize>) -> Seq<
    SpecTextEdit,
>
    decreases node, 0int,
{
    let own = if node.name == old {
        seq![edit_for(lines, node.name_span, new_name)]
    } else {
        Seq::empty()
    };
    own + props_edits(node.properties, old, new_name, lines, node.properties.len() as int)
        + children_edits(node.children, old, new_name, lines, node.children.len() as int)
}

/// The edits in the first `n` children.
pub open spec fn children_edits(
    children: Seq<SpecNodeType>,
    old: Seq<char>,
    new_name: Seq<char>,
    lines: Seq<usize>,
    n: int,
) -> Seq<SpecTextEdit>
    decreases children, n,
{
    if n <= 0 || n > children.len() {
        Seq::empty()
    } else {
        children_edits(children, old, new_name, lines, n - 1) + node_edits(
            children[n - 1],
            old,
            new_name,
            lines,
        )
    }
}

/// The edits in the targets of the first `n` declarations.
pub open spec fn target_edits(
    aliases: Seq<SpecAliasDeclaration>,
    old: Seq<char>,
    new_name: Seq<char>,
    lines: Seq<usize>,
    n: int,
) -> Seq<SpecTextEdit>
    decreases n,
{
    if n <= 0 {
        Seq::empty()
    } else {
        target_edits(aliases, old, new_name, lines, n - 1) + type_value_edits(
            aliases[n - 1].target,
            old,
            new_name,
            lines,
        )
    }
}

/// Every edit that renames `old` to `new_name`: the declarations, then the
/// uses in the root component, then the uses in the declarations' targets.
pub open spec fn rename_all_edits(layout: SpecLayout, old: Seq<char>, new_name: Seq<char>, lines: Seq<usize>) -> Seq<
    SpecTextEdit,
> {
    declaration_edits(layout.aliases, old, new_name, lines, layout.aliases.len() as int) + node_edits(
        layout.root,
        old,
        new_name,
        lines,
    ) + target_edits(layout.aliases, old, new_name, lines, layout.aliases.len() as int)
}

/// What `prepare_rename` answers: the range and the text of the name under
/// the cursor.
pub open spec fn spec_prepare_rename(doc: Document, pos: Position) -> Option<(Range, Seq<char>)> {
    match doc.layout {
        None => None,
        Some(layout) => match spec_find_alias_name_at(layout@, spec_position_to_offset(doc.lines@, pos)) {
            None => None,
            Some((name, span)) => Some((spec_span_to_range(doc.lines@, span), name)),
        },
    }
}

/// The edits of a rename at `pos`, when there is a name to rename there and
/// at least one edit.
pub open spec fn spec_rename_edits(doc: Document, pos: Position, new_name: Seq<char>) -> Option<Seq<SpecTextEdit>> {
    match doc.layout {
        None => None,
        Some(layout) => match spec_find_alias_name_at(layout@, spec_position_to_offset(doc.lines@, pos)) {
            None => None,
            Some((old, _)) => {
                let edits = rename_all_edits(layout@, old, new_name, doc.lines@);
                if edits.len() == 0 {
                    None
                } else {
                    Some(edits)
                }
            },
        },
    }
}

// ----------------------------------------------------------------------
// Finding the name
// ----------------------------------------------------------------------

#[verifier::loop_isolation(false)]
fn find_alias_usage_in_type_value<'a>(tv: &'a TypeValue, layout: &'a Layout, offset: usize) -> (r: Option<(&'a str, Span)>)
    ensures
        match r {
            Some((n, s)) => usage_in_type_value(tv@, layout@.aliases, offset) == Some((n@, s)),
            None => usage_in_type_value(tv@, layout@.aliases, offset) is None,
        },
    decreases tv,
{
    if tv.name_span.contains(offset) && layout.is_alias(tv.name.as_str()) {
        return Some((tv.name.as_str(), tv.name_span));
    }
    if let TypeValueInner::Properties(props) = &tv.inner {
        let ghost m = crate::ast::model_properties(props@);
        let mut i: usize = 0;
        while i < props.len()
            invariant
                i <= props@.len(),
                m.len() == props@.len(),
                usage_in_props_from(m, layout@.aliases, offset, 0) == usage_in_props_from(
                    m,
                    layout@.aliases,
                    offset,
                    i as int,
                ),
            decreases props.len() - i,
        {
            assert(m[i as int] == props@[i as int]@);
            if let PropertyValue::Type(inner_tv) = &props[i].value {
                if let Some(found) = find_alias_usage_in_type_value(inner_tv, layout, offset) {
                    return Some(found);
                }
            }
            i = i + 1;
        }
    }
    None
}

#[verifier::loop_isolation(false)]
fn find_alias_usage_in_node<'a>(node: &'a NodeType, layout: &'a Layout, offset: usize) -> (r: Option<(&'a str, Span)>)
    ensures
        match r {
            Some((n, s)) => usage_in_node(node@, layout@.aliases, offset) == Some((n@, s)),
            None => usage_in_node(node@, layout@.aliases, offset) is None,
        },
    decreases node,
{
    if !node.span.contains(offset) {
        return None;
    }
    if node.name_span.contains(offset) {
        if layout.is_alias(node.name.as_str()) {
            return Some((node.name.as_str(), node.name_span));
        } else {
            return None;
        }
    }
    let ghost m = crate::ast::model_properties(node.properties@);
    let mut i: usize = 0;
    while i < node.properties.len()
        invariant
            i <= node.properties@.len(),
            m.len() == node.properties@.len(),
            usage_in_props_from(m, layout@.aliases, offset, 0) == usage_in_props_from(
                m,
                layout@.aliases,
                offset,
                i as int,
            ),
        decreases node.properties.len() - i,
    {
        assert(m[i as int] == node.properties@[i as int]@);
        if let PropertyValue::Type(tv) = &node.properties[i].value {
            if let Some(found) = find_alias_usage_in_type_value(tv, layout, offset) {
                return Some(found);
            }
        }
        i = i + 1;
    }
    let ghost cm = crate::ast::model_nodes(node.children@);
    let mut k: usize = 0;
    while k < node.children.len()
        invariant
            k <= node.children@.len(),
            cm.len() == node.children@.len(),
            usage_in_props_from(m, layout@.aliases, offset, 0) is None,
            usage_in_children_from(cm, layout@.aliases, offset, 0) == usage_in_children_from(
                cm,
                layout@.aliases,
                offset,
                k as int,
            ),
        decreases node.children.len() - k,
    {
        assert(cm[k as int] == node.children@[k as int]@);
        if let Some(found) = find_alias_usage_in_node(&node.children[k], layout, offset) {
            return Some(found);
        }
        k = k + 1;
    }
    None
}

#[verifier::loop_isolation(false)]
fn find_alias_name_at<'a>(layout: &'a Layout, offset: usize) -> (r: Option<(&'a str, Span)>)
    ensures
        match r {
            Some((n, s)) => spec_find_alias_name_at(layout@, offset) == Some((n@, s)),
            None => spec_find_alias_name_at(layout@, offset) is None,
        },
{
    let ghost am = layout@.aliases;
    let mut i: usize = 0;
    while i < layout.aliases.len()
        invariant
            i <= layout.aliases@.len(),
            am.len() == layout.aliases@.len(),
            usage_in_declarations_from(am, offset, 0) == usage_in_declarations_from(am, offset, i as int),
        decreases layout.aliases.len() - i,
    {
        let alias = &layout.aliases[i];
        assert(am[i as int] == alias@);
        if alias.name_span.contains(offset) {
            return Some((alias.name.as_str(), alias.name_span));
        }
        if let Some(found) = find_alias_usage_in_type_value(&alias.target, layout, offset) {
            return Some(found);
        }
        i = i + 1;
    }
    find_alias_usage_in_node(&layout.root, layout, offset)
}

/// The range and the current text of the alias name at `pos`, when there is one.
pub fn prepare_rename(doc: &Document, pos: Position) -> (r: Option<PrepareRenameResponse>)
    requires
        doc.wf(),
        position_fits(doc.lines@, pos),
    ensures
        match r {
            Some(p) => spec_prepare_rename(*doc, pos) == Some((p.range, p.placeholder@)),
            None => spec_prepare_rename(*doc, pos) is None,
        },
{
    let offset = doc.position_to_offset(pos);
    let layout = match &doc.layout {
        None => return None,
        Some(l) => l,
    };
    match find_alias_name_at(layout, offset) {
        None => None,
        Some((name, span)) => Some(
            PrepareRenameResponse { range: span.to_range(doc), placeholder: String::from_str(name) },
        ),
    }
}

// ----------------------------------------------------------------------
// Collecting the edits
// ----------------------------------------------------------------------

proof fn lemma_view_push(v: Seq<TextEdit>, e: TextEdit)
    ensures
        text_edits_view(v.push(e)) == text_edits_view(v).push(e@),
{
    assert(text_edits_view(v.push(e)) =~= text_edits_view(v).push(e@));
}

fn push_edit(edits: &mut Vec<TextEdit>, span: Span, new_name: &str, doc: &Document)
    requires
        doc.wf(),
    ensures
        text_edits_view(final(edits)@) == text_edits_view(old(edits)@).push(
            edit_for(doc.lines@, span, new_name@),
        ),
{
    let e = TextEdit { range: span.to_range(doc), new_text: String::from_str(new_name) };
    proof { lemma_view_push(edits@, e); }
    edits.push(e);
}

#[verifier::loop_isolation(false)]
fn collect_usages_in_type_value_name(
    tv: &TypeValue,
    old_name: &str,
    new_name: &str,
    doc: &Document,
    edits: &mut Vec<TextEdit>,
)
    requires
        doc.wf(),
    ensures
        text_edits_view(final(edits)@) == text_edits_view(old(edits)@) + type_value_edits(
            tv@,
            old_name@,
            new_name@,
            doc.lines@,
        ),
    decreases tv,
{
    let ghost start = text_edits_view(edits@);
    if str_eq(tv.name.as_str(), old_name) {
        push_edit(edits, tv.name_span, new_name, doc);
    }
    let ghost own = if tv@.name == old_name@ {
        seq![edit_for(doc.lines@, tv.name_span, new_name@)]
    } else {
        Seq::empty()
    };
    assert(text_edits_view(edits@) == start + own);
    if let TypeValueInner::Properties(props) = &tv.inner {
        let ghost m = crate::ast::model_properties(props@);
        let mut i: usize = 0;
        assert(start + own =~= start + own + props_edits(m, old_name@, new_name@, doc.lines@, 0));
        while i < props.len()
            invariant
                i <= props@.len(),
                m.len() == props@.len(),
                doc.wf(),
                text_edits_view(edits@) == start + own + props_edits(
                    m,
                    old_name@,
                    new_name@,
                    doc.lines@,
                    i as int,
                ),
            decreases props.len() - i,
        {
            assert(m[i as int] == props@[i as int]@);
            if let PropertyValue::Type(inner_tv) = &props[i].value {
                collect_usages_in_type_value_name(inner_tv, old_name, new_name, doc, edits);
                assert(text_edits_view(edits@) =~= start + own + props_edits(
                    m,
                    old_name@,
                    new_name@,
                    doc.lines@,
                    i + 1,
                ));
            }
            i = i + 1;
        }
    }
}

#[verifier::loop_isolation(false)]
fn collect_usages_in_node(
    node: &NodeType,
    old_name: &str,
    new_name: &str,
    doc: &Document,
    edits: &mut Vec<TextEdit>,
)
    requires
        doc.wf(),
    ensures
        text_edits_view(final(edits)@) == text_edits_view(old(edits)@) + node_edits(
            node@,
            old_name@,
            new_name@,
            doc.lines@,
        ),
    decreases node,
{
    let ghost start = text_edits_view(edits@);
    if str_eq(node.name.as_str(), old_name) {
        push_edit(edits, node.name_span, new_name, doc);
    }
    let ghost own = if node@.name == old_name@ {
        seq![edit_for(doc.lines@, node.name_span, new_name@)]
    } else {
        Seq::empty()
    };
    let ghost m = crate::ast::model_properties(node.properties@);
    assert(text_edits_view(edits@) =~= start + own + props_edits(m, old_name@, new_name@, doc.lines@, 0));
    let mut i: usize = 0;
    while i < node.properties.len()
        invariant
            i <= node.properties@.len(),
            m.len() == node.properties@.len(),
            doc.wf(),
            text_edits_view(edits@) == start + own + props_edits(
                m,
                old_name@,
                new_name@,
                doc.lines@,
                i as int,
            ),
        decreases node.properties.len() - i,
    {
        assert(m[i as int] == node.properties@[i as int]@);
        if let PropertyValue::Type(tv) = &node.properties[i].value {
            collect_usages_in_type_value_name(tv, old_name, new_name, doc, edits);
            assert(text_edits_view(edits@) =~= start + own + props_edits(
                m,
                old_name@,
                new_name@,
                doc.lines@,
                i + 1,
            ));
        }
        i = i + 1;
    }
    let ghost mid = start + own + props_edits(m, old_name@, new_name@, doc.lines@, m.len() as int);
    let ghost cm = crate::ast::model_nodes(node.children@);
    assert(text_edits_view(edits@) =~= mid + children_edits(cm, old_name@, new_name@, doc.lines@, 0));
    let mut k: usize = 0;
    while k < node.children.len()
        invariant
            k <= node.children@.len(),
            cm.len() == node.children@.len(),
            doc.wf(),
            text_edits_view(edits@) == mid + children_edits(
                cm,
                old_name@,
                new_name@,
                doc.lines@,
                k as int,
            ),
        decreases node.children.len() - k,
    {
        assert(cm[k as int] == node.children@[k as int]@);
        collect_usages_in_node(&node.children[k], old_name, new_name, doc, edits);
        assert(text_edits_view(edits@) =~= mid + children_edits(
            cm,
            old_name@,
            new_name@,
            doc.lines@,
            k + 1,
        ));
        k = k + 1;
    }
    assert(text_edits_view(edits@) =~= start + node_edits(node@, old_name@, new_name@, doc.lines@));
}

/// The edits of a rename at `pos`, when there is a name to rename there.
#[verifier::loop_isolation(false)]
fn rename_edits(doc: &Document, pos: Position, new_name: &str) -> (r: Option<Vec<TextEdit>>)
    requires
        doc.wf(),
        position_fits(doc.lines@, pos),
    ensures
        match r {
            Some(edits) => spec_rename_edits(*doc, pos, new_name@) == Some(text_edits_view(edits@)),
            None => spec_rename_edits(*doc, pos, new_name@) is None,
        },
{
    let offset = doc.position_to_offset(pos);
    let layout = match &doc.layout {
        None => return None,
        Some(l) => l,
    };
    let old_name = match find_alias_name_at(layout, offset) {
        None => return None,
        Some((n, _)) => n,
    };
    let ghost am = layout@.aliases;
    let ghost lines = doc.lines@;
    let mut edits: Vec<TextEdit> = Vec::new();
    assert(text_edits_view(edits@) =~= declaration_edits(am, old_name@, new_name@, lines, 0));
    let mut i: usize = 0;
    while i < layout.aliases.len()
        invariant
            i <= layout.aliases@.len(),
            am.len() == layout.aliases@.len(),
            doc.wf(),
            text_edits_view(edits@) == declaration_edits(am, old_name@, new_name@, lines, i as int),
        decreases layout.aliases.len() - i,
    {
        let alias = &layout.aliases[i];
        assert(am[i as int] == alias@);
        if str_eq(alias.name.as_str(), old_name) {
            push_edit(&mut edits, alias.name_span, new_name, doc);
        }
        i = i + 1;
    }
    let ghost decls = text_edits_view(edits@);
    collect_usages_in_node(&layout.root, old_name, new_name, doc, &mut edits);
    let ghost uses = text_edits_view(edits@);
    assert(uses =~= uses + target_edits(am, old_name@, new_name@, lines, 0));
    let mut j: usize = 0;
    while j < layout.aliases.len()
        invariant
            j <= layout.aliases@.len(),
            am.len() == layout.aliases@.len(),
            doc.wf(),
            text_edits_view(edits@) == uses + target_edits(am, old_name@, new_name@, lines, j as int),
        decreases layout.aliases.len() - j,
    {
        let alias = &layout.aliases[j];
        assert(am[j as int] == alias@);
        collect_usages_in_type_value_name(&alias.target, old_name, new_name, doc, &mut edits);
        assert(text_edits_view(edits@) =~= uses + target_edits(
            am,
            old_name@,
            new_name@,
            lines,
            j + 1,
        ));
        j = j + 1;
    }
    assert(text_edits_view(edits@) =~= rename_all_edits(layout@, old_name@, new_name@, lines));
    if edits.len() == 0 {
        return None;
    }
    Some(edits)
}

/// Whether a text parses as a URL.
pub uninterp spec fn url_parses(uri: Seq<char>) -> bool;

/// Calls `Url::parse` (the `url` crate's, as `tower_lsp::lsp_types` exports
/// it) on `uri` and tells whether it succeeded. The contract says no more
/// than that the answer is `url_parses` of the text: which texts are URLs is
/// the WHATWG URL standard that the crate follows, and is not restated here.
#[verifier::external_body]
fn uri_parses(uri: &str) -> (r: bool)
    ensures
        r == url_parses(uri@),
{
    tower_lsp::lsp_types::Url::parse(uri).is_ok()
}

/// A rename at `pos` to `new_name` in the document at `uri`, given whether
/// `uri` is a URL: `None` when there is nothing to rename or `uri` is not one.
pub fn rename_with(doc: &Document, pos: Position, new_name: String, uri: String, uri_is_url: bool) -> (r: Option<
    WorkspaceEdit,
>)
    requires
        doc.wf(),
        position_fits(doc.lines@, pos),
    ensures
        match r {
            Some(we) => {
                &&& uri_is_url
                &&& we.uri@ == uri@
                &&& spec_rename_edits(*doc, pos, new_name@) == Some(text_edits_view(we.edits@))
            },
            None => !uri_is_url || spec_rename_edits(*doc, pos, new_name@) is None,
        },
{
    let edits = match rename_edits(doc, pos, new_name.as_str()) {
        None => return None,
        Some(e) => e,
    };
    if !uri_is_url {
        return None;
    }
    Some(WorkspaceEdit { uri, edits })
}

/// Renames the alias at `pos` to `new_name`: its declarations and every use,
/// as edits of the document at `uri`. `None` when there is nothing to rename
/// at `pos`, or when `uri` does not parse as a URL.
pub fn rename(doc: &Document, pos: Position, new_name: String, uri: String) -> (r: Option<WorkspaceEdit>)
    requires
        doc.wf(),
        position_fits(doc.lines@, pos),
    ensures
        match r {
            Some(we) => {
                &&& url_parses(uri@)
                &&& we.uri@ == uri@
                &&& spec_rename_edits(*doc, pos, new_name@) == Some(text_edits_view(we.edits@))
            },
            None => !url_parses(uri@) || spec_rename_edits(*doc, pos, new_name@) is None,
        },
{
    let valid = uri_parses(uri.as_str());
    rename_with(doc, pos, new_name, uri, valid)
}

// ----------------------------------------------------------------------
// Laws
// ----------------------------------------------------------------------

proof fn lemma_type_value_usage_is_alias(tv: SpecTypeValue, aliases: Seq<SpecAliasDeclaration>, offset: usize)
    ensures
        usage_in_type_value(tv, aliases, offset) matches Some((n, _)) ==> spec_is_alias(aliases, n),
    decreases tv, 0int,
{
    if !(tv.name_span.spec_contains(offset) && spec_is_alias(aliases, tv.name)) {
        if let SpecTypeValueInner::Properties(props) = tv.inner {
            lemma_props_usage_is_alias(props, aliases, offset, 0);
        }
    }
}

proof fn lemma_props_usage_is_alias(
    props: Seq<SpecProperty>,
    aliases: Seq<SpecAliasDeclaration>,
    offset: usize,
    k: int,
)
    ensures
        usage_in_props_from(props, aliases, offset, k) matches Some((n, _)) ==> spec_is_alias(aliases, n),
    decreases props, props.len() - k,
{
    if 0 <= k < props.len() {
        if let SpecPropertyValue::Type(tv) = props[k].value {
            lemma_type_value_usage_is_alias(tv, aliases, offset);
        }
        lemma_props_usage_is_alias(props, aliases, offset, k + 1);
    }
}

proof fn lemma_node_usage_is_alias(node: SpecNodeType, aliases: Seq<SpecAliasDeclaration>, offset: usize)
    ensures
        usage_in_node(node, aliases, offset) matches Some((n, _)) ==> spec_is_alias(aliases, n),
    decreases node, 0int,
{
    lemma_props_usage_is_alias(node.properties, aliases, offset, 0);
    lemma_children_usage_is_alias(node.children, aliases, offset, 0);
}

proof fn lemma_children_usage_is_alias(
    children: Seq<SpecNodeType>,
    aliases: Seq<SpecAliasDeclaration>,
    offset: usize,
    k: int,
)
    ensures
        usage_in_children_from(children, aliases, offset, k) matches Some((n, _)) ==> spec_is_alias(aliases, n),
    decreases children, children.len() - k,
{
    if 0 <= k < children.len() {
        lemma_node_usage_is_alias(children[k], aliases, offset);
        lemma_children_usage_is_alias(children, aliases, offset, k + 1);
    }
}

proof fn lemma_declarations_usage_is_alias(aliases: Seq<SpecAliasDeclaration>, offset: usize, k: int)
    ensures
        usage_in_declarations_from(aliases, offset, k) matches Some((n, _)) ==> spec_is_alias(aliases, n),
    decreases aliases.len() - k,
{
    if 0 <= k < aliases.len() {
        assert(aliases[k].name == aliases[k].name);
        lemma_type_value_usage_is_alias(aliases[k].target, aliases, offset);
        lemma_declarations_usage_is_alias(aliases, offset, k + 1);
    }
}

/// The declarations of `old` among the first `n` each get an edit.
proof fn lemma_declaration_edits_cover(
    aliases: Seq<SpecAliasDeclaration>,
    old: Seq<char>,
    new_name: Seq<char>,
    lines: Seq<usize>,
    n: int,
)
    requires
        n <= aliases.len(),
    ensures
        forall|i: int|
            0 <= i < n && aliases[i].name == old ==> declaration_edits(aliases, old, new_name, lines, n).contains(
                edit_for(lines, #[trigger] aliases[i].name_span, new_name),
            ),
    decreases n,
{
    if n > 0 {
        lemma_declaration_edits_cover(aliases, old, new_name, lines, n - 1);
        let before = declaration_edits(aliases, old, new_name, lines, n - 1);
        let now = declaration_edits(aliases, old, new_name, lines, n);
        assert forall|i: int| 0 <= i < n && aliases[i].name == old implies now.contains(
            edit_for(lines, #[trigger] aliases[i].name_span, new_name),
        ) by {
            let e = edit_for(lines, aliases[i].name_span, new_name);
            if i < n - 1 {
                let j = choose|j: int| 0 <= j < before.len() && before[j] == e;
                if aliases[n - 1].name == old {
                    assert(now[j] == e);
                }
            } else {
                assert(now[now.len() - 1] == e);
            }
        }
    }
}

/// Every edit in `es` writes `t`.
pub open spec fn all_write(es: Seq<SpecTextEdit>, t: Seq<char>) -> bool {
    forall|i: int| 0 <= i < es.len() ==> #[trigger] es[i].new_text == t
}

proof fn lemma_all_write_add(a: Seq<SpecTextEdit>, b: Seq<SpecTextEdit>, t: Seq<char>)
    requires
        all_write(a, t),
        all_write(b, t),
    ensures
        all_write(a + b, t),
{
    assert forall|i: int| 0 <= i < (a + b).len() implies #[trigger] (a + b)[i].new_text == t by {
        if i < a.len() {
            assert((a + b)[i] == a[i]);
        } else {
            assert((a + b)[i] == b[i - a.len()]);
        }
    }
}

proof fn lemma_type_value_edits_write(tv: SpecTypeValue, old: Seq<char>, new_name: Seq<char>, lines: Seq<usize>)
    ensures
        all_write(type_value_edits(tv, old, new_name, lines), new_name),
    decreases tv, 0int,
{
    let own = if tv.name == old {
        seq![edit_for(lines, tv.name_span, new_name)]
    } else {
        Seq::empty()
    };
    assert(all_write(own, new_name));
    if let SpecTypeValueInner::Properties(props) = tv.inner {
        lemma_props_edits_write(props, old, new_name, lines, props.len() as int);
        lemma_all_write_add(own, props_edits(props, old, new_name, lines, props.len() as int), new_name);
    }
}

proof fn lemma_props_edits_write(
    props: Seq<SpecProperty>,
    old: Seq<char>,
    new_name: Seq<char>,
    lines: Seq<usize>,
    n: int,
)
    ensures
        all_write(props_edits(props, old, new_name, lines, n), new_name),
    decreases props, n,
{
    if 0 < n <= props.len() {
        lemma_props_edits_write(props, old, new_name, lines, n - 1);
        if let SpecPropertyValue::Type(tv) = props[n - 1].value {
            lemma_type_value_edits_write(tv, old, new_name, lines);
            lemma_all_write_add(
                props_edits(props, old, new_name, lines, n - 1),
                type_value_edits(tv, old, new_name, lines),
                new_name,
            );
        }
    }
}

proof fn lemma_node_edits_write(node: SpecNodeType, old: Seq<char>, new_name: Seq<char>, lines: Seq<usize>)
    ensures
        all_write(node_edits(node, old, new_name, lines), new_name),
    decreases node, 0int,
{
    let own = if node.name == old {
        seq![edit_for(lines, node.name_span, new_name)]
    } else {
        Seq::empty()
    };
    assert(all_write(own, new_name));
    let pe = props_edits(node.properties, old, new_name, lines, node.properties.len() as int);
    let ce = children_edits(node.children, old, new_name, lines, node.children.len() as int);
    lemma_props_edits_write(node.properties, old, new_name, lines, node.properties.len() as int);
    lemma_children_edits_write(node.children, old, new_name, lines, node.children.len() as int);
    lemma_all_write_add(own, pe, new_name);
    lemma_all_write_add(own + pe, ce, new_name);
}

proof fn lemma_children_edits_write(
    children: Seq<SpecNodeType>,
    old: Seq<char>,
    new_name: Seq<char>,
    lines: Seq<usize>,
    n: int,
)
    ensures
        all_write(children_edits(children, old, new_name, lines, n), new_name),
    decreases children, n,
{
    if 0 < n <= children.len() {
        lemma_children_edits_write(children, old, new_name, lines, n - 1);
        lemma_node_edits_write(children[n - 1], old, new_name, lines);
        lemma_all_write_add(
            children_edits(children, old, new_name, lines, n - 1),
            node_edits(children[n - 1], old, new_name, lines),
            new_name,
        );
    }
}

proof fn lemma_rename_all_edits_write(layout: SpecLayout, old: Seq<char>, new_name: Seq<char>, lines: Seq<usize>)
    ensures
        all_write(rename_all_edits(layout, old, new_name, lines), new_name),
{
    let aliases = layout.aliases;
    let n = aliases.len() as int;
    let de = declaration_edits(aliases, old, new_name, lines, n);
    let ne = node_edits(layout.root, old, new_name, lines);
    let te = target_edits(aliases, old, new_name, lines, n);
    lemma_declaration_edits_write(aliases, old, new_name, lines, n);
    lemma_node_edits_write(layout.root, old, new_name, lines);
    lemma_target_edits_write(aliases, old, new_name, lines, n);
    lemma_all_write_add(de, ne, new_name);
    lemma_all_write_add(de + ne, te, new_name);
}

proof fn lemma_declaration_edits_write(
    aliases: Seq<SpecAliasDeclaration>,
    old: Seq<char>,
    new_name: Seq<char>,
    lines: Seq<usize>,
    n: int,
)
    ensures
        all_write(declaration_edits(aliases, old, new_name, lines, n), new_name),
    decreases n,
{
    if n > 0 {
        lemma_declaration_edits_write(aliases, old, new_name, lines, n - 1);
    }
}

proof fn lemma_target_edits_write(
    aliases: Seq<SpecAliasDeclaration>,
    old: Seq<char>,
    new_name: Seq<char>,
    lines: Seq<usize>,
    n: int,
)
    ensures
        all_write(target_edits(aliases, old, new_name, lines, n), new_name),
    decreases n,
{
    if n > 0 {
        lemma_target_edits_write(aliases, old, new_name, lines, n - 1);
        lemma_type_value_edits_write(aliases[n - 1].target, old, new_name, lines);
        lemma_all_write_add(
            target_edits(aliases, old, new_name, lines, n - 1),
            type_value_edits(aliases[n - 1].target, old, new_name, lines),
            new_name,
        );
    }
}

/// A rename is offered exactly where `prepare_rename` finds a name. Its
/// edits all write the new name, and they cover every declaration of the
/// name that `prepare_rename` shows.
pub proof fn law_rename_where_prepared(doc: Document, pos: Position, new_name: Seq<char>)
    ensures
        spec_rename_edits(doc, pos, new_name) is Some <==> spec_prepare_rename(doc, pos) is Some,
        spec_rename_edits(doc, pos, new_name) matches Some(edits) ==> all_write(edits, new_name),
        spec_prepare_rename(doc, pos) matches Some((_, old)) ==> forall|i: int|
            0 <= i < doc.layout->0@.aliases.len() && doc.layout->0@.aliases[i].name == old
                ==> spec_rename_edits(doc, pos, new_name)->0.contains(
                edit_for(doc.lines@, #[trigger] doc.layout->0@.aliases[i].name_span, new_name),
            ),
{
    if let Some(layout) = doc.layout {
        let l = layout@;
        let offset = spec_position_to_offset(doc.lines@, pos);
        lemma_declarations_usage_is_alias(l.aliases, offset, 0);
        lemma_node_usage_is_alias(l.root, l.aliases, offset);
        if let Some((old, _)) = spec_find_alias_name_at(l, offset) {
            let n = l.aliases.len() as int;
            let lines = doc.lines@;
            lemma_declaration_edits_cover(l.aliases, old, new_name, lines, n);
            lemma_rename_all_edits_write(l, old, new_name, lines);
            let de = declaration_edits(l.aliases, old, new_name, lines, n);
            let all = rename_all_edits(l, old, new_name, lines);
            assert(spec_is_alias(l.aliases, old));
            let w = choose|w: int| 0 <= w < l.aliases.len() && l.aliases[w].name == old;
            assert(de.contains(edit_for(lines, l.aliases[w].name_span, new_name)));
            assert(de.len() > 0);
            assert(all.len() > 0);
            assert forall|i: int|
                0 <= i < l.aliases.len() && l.aliases[i].name == old implies all.contains(
                edit_for(lines, #[trigger] l.aliases[i].name_span, new_name),
            ) by {
                let e = edit_for(lines, l.aliases[i].name_span, new_name);
                assert(de.contains(e));
                let j = choose|j: int| 0 <= j < de.len() && de[j] == e;
                assert(all[j] == e);
            }
        }
    }
}

proof fn lemma_contains_add(a: Seq<SpecTextEdit>, b: Seq<SpecTextEdit>, x: SpecTextEdit)
    requires
        a.contains(x) || b.contains(x),
    ensures
        (a + b).contains(x),
{
    if a.contains(x) {
        let j = choose|j: int| 0 <= j < a.len() && a[j] == x;
        assert((a + b)[j] == x);
    } else {
        let j = choose|j: int| 0 <= j < b.len() && b[j] == x;
        assert((a + b)[a.len() + j] == x);
    }
}

proof fn lemma_props_edits_grow(
    props: Seq<SpecProperty>,
    old: Seq<char>,
    new_name: Seq<char>,
    lines: Seq<usize>,
    j: int,
    m: int,
    x: SpecTextEdit,
)
    requires
        0 <= j <= m <= props.len(),
        props_edits(props, old, new_name, lines, j).contains(x),
    ensures
        props_edits(props, old, new_name, lines, m).contains(x),
    decreases m - j,
{
    if j < m {
        lemma_props_edits_grow(props, old, new_name, lines, j, m - 1, x);
        let before = props_edits(props, old, new_name, lines, m - 1);
        match props[m - 1].value {
            SpecPropertyValue::Type(tv) => lemma_contains_add(
                before,
                type_value_edits(tv, old, new_name, lines),
                x,
            ),
            _ => {},
        }
    }
}

proof fn lemma_children_edits_grow(
    children: Seq<SpecNodeType>,
    old: Seq<char>,
    new_name: Seq<char>,
    lines: Seq<usize>,
    j: int,
    m: int,
    x: SpecTextEdit,
)
    requires
        0 <= j <= m <= children.len(),
        children_edits(children, old, new_name, lines, j).contains(x),
    ensures
        children_edits(children, old, new_name, lines, m).contains(x),
    decreases m - j,
{
    if j < m {
        lemma_children_edits_grow(children, old, new_name, lines, j, m - 1, x);
        lemma_contains_add(
            children_edits(children, old, new_name, lines, m - 1),
            node_edits(children[m - 1], old, new_name, lines),
            x,
        );
    }
}

proof fn lemma_target_edits_grow(
    aliases: Seq<SpecAliasDeclaration>,
    old: Seq<char>,
    new_name: Seq<char>,
    lines: Seq<usize>,
    j: int,
    m: int,
    x: SpecTextEdit,
)
    requires
        0 <= j <= m <= aliases.len(),
        target_edits(aliases, old, new_name, lines, j).contains(x),
    ensures
        target_edits(aliases, old, new_name, lines, m).contains(x),
    decreases m - j,
{
    if j < m {
        lemma_target_edits_grow(aliases, old, new_name, lines, j, m - 1, x);
        lemma_contains_add(
            target_edits(aliases, old, new_name, lines, m - 1),
            type_value_edits(aliases[m - 1].target, old, new_name, lines),
            x,
        );
    }
}

proof fn lemma_type_value_usage_edited(
    tv: SpecTypeValue,
    aliases: Seq<SpecAliasDeclaration>,
    offset: usize,
    new_name: Seq<char>,
    lines: Seq<usize>,
)
    ensures
        usage_in_type_value(tv, aliases, offset) matches Some((n, s)) ==> type_value_edits(
            tv,
            n,
            new_name,
            lines,
        ).contains(edit_for(lines, s, new_name)),
    decreases tv, 0int,
{
    if let Some((n, s)) = usage_in_type_value(tv, aliases, offset) {
        let x = edit_for(lines, s, new_name);
        let own = if tv.name == n {
            seq![edit_for(lines, tv.name_span, new_name)]
        } else {
            Seq::empty()
        };
        if tv.name_span.spec_contains(offset) && spec_is_alias(aliases, tv.name) {
            assert(own[0] == x);
            if let SpecTypeValueInner::Properties(props) = tv.inner {
                lemma_contains_add(own, props_edits(props, n, new_name, lines, props.len() as int), x);
            }
        } else if let SpecTypeValueInner::Properties(props) = tv.inner {
            lemma_props_usage_edited(props, aliases, offset, 0, new_name, lines);
            lemma_contains_add(own, props_edits(props, n, new_name, lines, props.len() as int), x);
        }
    }
}

proof fn lemma_props_usage_edited(
    props: Seq<SpecProperty>,
    aliases: Seq<SpecAliasDeclaration>,
    offset: usize,
    k: int,
    new_name: Seq<char>,
    lines: Seq<usize>,
)
    requires
        0 <= k,
    ensures
        usage_in_props_from(props, aliases, offset, k) matches Some((n, s)) ==> props_edits(
            props,
            n,
            new_name,
            lines,
            props.len() as int,
        ).contains(edit_for(lines, s, new_name)),
    decreases props, props.len() - k,
{
    if k < props.len() {
        if let Some((n, s)) = usage_in_props_from(props, aliases, offset, k) {
            let x = edit_for(lines, s, new_name);
            let mut found_here = false;
            if let SpecPropertyValue::Type(tv) = props[k].value {
                lemma_type_value_usage_edited(tv, aliases, offset, new_name, lines);
                if usage_in_type_value(tv, aliases, offset) is Some {
                    found_here = true;
                    lemma_contains_add(
                        props_edits(props, n, new_name, lines, k),
                        type_value_edits(tv, n, new_name, lines),
                        x,
                    );
                    lemma_props_edits_grow(props, n, new_name, lines, k + 1, props.len() as int, x);
                }
            }
            if !found_here {
                lemma_props_usage_edited(props, aliases, offset, k + 1, new_name, lines);
            }
        }
    }
}

proof fn lemma_node_usage_edited(
    node: SpecNodeType,
    aliases: Seq<SpecAliasDeclaration>,
    offset: usize,
    new_name: Seq<char>,
    lines: Seq<usize>,
)
    ensures
        usage_in_node(node, aliases, offset) matches Some((n, s)) ==> node_edits(
            node,
            n,
            new_name,
            lines,
        ).contains(edit_for(lines, s, new_name)),
    decreases node, 0int,
{
    if let Some((n, s)) = usage_in_node(node, aliases, offset) {
        let x = edit_for(lines, s, new_name);
        let own = if node.name == n {
            seq![edit_for(lines, node.name_span, new_name)]
        } else {
            Seq::empty()
        };
        let pe = props_edits(node.properties, n, new_name, lines, node.properties.len() as int);
        let ce = children_edits(node.children, n, new_name, lines, node.children.len() as int);
        if node.name_span.spec_contains(offset) {
            assert(own[0] == x);
            lemma_contains_add(own, pe, x);
        } else {
            lemma_props_usage_edited(node.properties, aliases, offset, 0, new_name, lines);
            if usage_in_props_from(node.properties, aliases, offset, 0) is Some {
                lemma_contains_add(own, pe, x);
            } else {
                lemma_children_usage_edited(node.children, aliases, offset, 0, new_name, lines);
            }
        }
        lemma_contains_add(own + pe, ce, x);
    }
}

proof fn lemma_children_usage_edited(
    children: Seq<SpecNodeType>,
    aliases: Seq<SpecAliasDeclaration>,
    offset: usize,
    k: int,
    new_name: Seq<char>,
    lines: Seq<usize>,
)
    requires
        0 <= k,
    ensures
        usage_in_children_from(children, aliases, offset, k) matches Some((n, s)) ==> children_edits(
            children,
            n,
            new_name,
            lines,
            children.len() as int,
        ).contains(edit_for(lines, s, new_name)),
    decreases children, children.len() - k,
{
    if k < children.len() {
        if let Some((n, s)) = usage_in_children_from(children, aliases, offset, k) {
            let x = edit_for(lines, s, new_name);
            lemma_node_usage_edited(children[k], aliases, offset, new_name, lines);
            if usage_in_node(children[k], aliases, offset) is Some {
                lemma_contains_add(
                    children_edits(children, n, new_name, lines, k),
                    node_edits(children[k], n, new_name, lines),
                    x,
                );
                lemma_children_edits_grow(children, n, new_name, lines, k + 1, children.len() as int, x);
            } else {
                lemma_children_usage_edited(children, aliases, offset, k + 1, new_name, lines);
            }
        }
    }
}

proof fn lemma_declarations_usage_edited(
    aliases: Seq<SpecAliasDeclaration>,
    offset: usize,
    k: int,
    new_name: Seq<char>,
    lines: Seq<usize>,
)
    requires
        0 <= k,
    ensures
        usage_in_declarations_from(aliases, offset, k) matches Some((n, s)) ==> {
            ||| declaration_edits(aliases, n, new_name, lines, aliases.len() as int).contains(
                edit_for(lines, s, new_name),
            )
            ||| target_edits(aliases, n, new_name, lines, aliases.len() as int).contains(
                edit_for(lines, s, new_name),
            )
        },
    decreases aliases.len() - k,
{
    if k < aliases.len() {
        if let Some((n, s)) = usage_in_declarations_from(aliases, offset, k) {
            let x = edit_for(lines, s, new_name);
            if aliases[k].name_span.spec_contains(offset) {
                lemma_declaration_edits_cover(aliases, n, new_name, lines, aliases.len() as int);
                assert(aliases[k].name == n);
            } else if usage_in_type_value(aliases[k].target, aliases, offset) is Some {
                lemma_type_value_usage_edited(aliases[k].target, aliases, offset, new_name, lines);
                lemma_contains_add(
                    target_edits(aliases, n, new_name, lines, k),
                    type_value_edits(aliases[k].target, n, new_name, lines),
                    x,
                );
                lemma_target_edits_grow(aliases, n, new_name, lines, k + 1, aliases.len() as int, x);
            } else {
                lemma_declarations_usage_edited(aliases, offset, k + 1, new_name, lines);
            }
        }
    }
}

/// A rename renames the name under the cursor: the range that
/// `prepare_rename` shows is one of the rename's edits.
pub proof fn law_rename_covers_cursor(doc: Document, pos: Position, new_name: Seq<char>)
    ensures
        spec_prepare_rename(doc, pos) matches Some((range, _)) ==> spec_rename_edits(
            doc,
            pos,
            new_name,
        )->0.contains(SpecTextEdit { range, new_text: new_name }),
{
    law_rename_where_prepared(doc, pos, new_name);
    if let Some(layout) = doc.layout {
        let l = layout@;
        let lines = doc.lines@;
        let offset = spec_position_to_offset(lines, pos);
        if let Some((old, s)) = spec_find_alias_name_at(l, offset) {
            let x = edit_for(lines, s, new_name);
            let n = l.aliases.len() as int;
            let de = declaration_edits(l.aliases, old, new_name, lines, n);
            let ne = node_edits(l.root, old, new_name, lines);
            let te = target_edits(l.aliases, old, new_name, lines, n);
            if usage_in_declarations_from(l.aliases, offset, 0) is Some {
                lemma_declarations_usage_edited(l.aliases, offset, 0, new_name, lines);
                if de.contains(x) {
                    lemma_contains_add(de, ne, x);
                }
                lemma_contains_add(de + ne, te, x);
            } else {
                lemma_node_usage_edited(l.root, l.aliases, offset, new_name, lines);
                lemma_contains_add(de, ne, x);
                lemma_contains_add(de + ne, te, x);
            }
        }
    }
}

/// `s` is the name span of `tv`, or of a type value nested in its
/// properties, whose name is `name`.
pub open spec fn type_value_names(tv: SpecTypeValue, name: Seq<char>, s: Span) -> bool
    decreases tv, 0int,
{
    ||| tv.name == name && tv.name_span == s
    ||| match tv.inner {
        SpecTypeValueInner::Properties(ps) => props_names(ps, name, s, ps.len() as int),
        _ => false,
    }
}

/// `s` is such a name span in the values of the first `n` properties.
pub open spec fn props_names(ps: Seq<SpecProperty>, name: Seq<char>, s: Span, n: int) -> bool
    decreases ps, n,
{
    if n <= 0 || n > ps.len() {
        false
    } else {
        ||| props_names(ps, name, s, n - 1)
        ||| match ps[n - 1].value {
            SpecPropertyValue::Type(tv) => type_value_names(tv, name, s),
            _ => false,
        }
    }
}

/// `s` is the name span of `node`, of a component nested in it or of a type
/// value in their properties, whose name is `name`.
pub open spec fn node_names(node: SpecNodeType, name: Seq<char>, s: Span) -> bool
    decreases node, 0int,
{
    ||| node.name == name && node.name_span == s
    ||| props_names(node.properties, name, s, node.properties.len() as int)
    ||| children_names(node.children, name, s, node.children.len() as int)
}

pub open spec fn children_names(cs: Seq<SpecNodeType>, name: Seq<char>, s: Span, n: int) -> bool
    decreases cs, n,
{
    if n <= 0 || n > cs.len() {
        false
    } else {
        children_names(cs, name, s, n - 1) || node_names(cs[n - 1], name, s)
    }
}

/// `s` is the name span of one of the first `n` declarations named `name`,
/// or of a type value named `name` in one of their targets.
pub open spec fn declarations_names(aliases: Seq<SpecAliasDeclaration>, name: Seq<char>, s: Span, n: int) -> bool
    decreases n,
{
    if n <= 0 || n > aliases.len() {
        false
    } else {
        ||| declarations_names(aliases, name, s, n - 1)
        ||| aliases[n - 1].name == name && aliases[n - 1].name_span == s
        ||| type_value_names(aliases[n - 1].target, name, s)
    }
}

/// `s` is the name span of an alias declaration, a component or a type
/// value of the layout whose name is `name`.
pub open spec fn layout_names(l: SpecLayout, name: Seq<char>, s: Span) -> bool {
    declarations_names(l.aliases, name, s, l.aliases.len() as int) || node_names(l.root, name, s)
}

/// `e` writes `new_name` over a span that `ok` accepts.
pub open spec fn edit_at(e: SpecTextEdit, lines: Seq<usize>, new_name: Seq<char>, ok: spec_fn(Span) -> bool) -> bool {
    exists|s: Span| #[trigger] ok(s) && e == edit_for(lines, s, new_name)
}

/// Every edit of `es` writes `new_name` over a span that `ok` accepts.
pub open spec fn edits_at(es: Seq<SpecTextEdit>, lines: Seq<usize>, new_name: Seq<char>, ok: spec_fn(Span) -> bool) -> bool {
    forall|i: int| 0 <= i < es.len() ==> #[trigger] edit_at(es[i], lines, new_name, ok)
}

proof fn lemma_edits_at_add(
    a: Seq<SpecTextEdit>,
    b: Seq<SpecTextEdit>,
    lines: Seq<usize>,
    new_name: Seq<char>,
    ok: spec_fn(Span) -> bool,
)
    requires
        edits_at(a, lines, new_name, ok),
        edits_at(b, lines, new_name, ok),
    ensures
        edits_at(a + b, lines, new_name, ok),
{
    assert forall|i: int| 0 <= i < (a + b).len() implies #[trigger] edit_at((a + b)[i], lines, new_name, ok) by {
        if i < a.len() {
            assert((a + b)[i] == a[i]);
            assert(edit_at(a[i], lines, new_name, ok));
        } else {
            assert((a + b)[i] == b[i - a.len()]);
            assert(edit_at(b[i - a.len()], lines, new_name, ok));
        }
    }
}

proof fn lemma_edits_at_weaken(
    es: Seq<SpecTextEdit>,
    lines: Seq<usize>,
    new_name: Seq<char>,
    ok1: spec_fn(Span) -> bool,
    ok2: spec_fn(Span) -> bool,
)
    requires
        edits_at(es, lines, new_name, ok1),
        forall|s: Span| #[trigger] ok1(s) ==> ok2(s),
    ensures
        edits_at(es, lines, new_name, ok2),
{
    assert forall|i: int| 0 <= i < es.len() implies #[trigger] edit_at(es[i], lines, new_name, ok2) by {
        assert(edit_at(es[i], lines, new_name, ok1));
        let s = choose|s: Span| #[trigger] ok1(s) && es[i] == edit_for(lines, s, new_name);
        assert(ok2(s));
    }
}

proof fn lemma_own_edit_at(
    own_name: Seq<char>,
    old: Seq<char>,
    span: Span,
    lines: Seq<usize>,
    new_name: Seq<char>,
    ok: spec_fn(Span) -> bool,
)
    requires
        own_name == old ==> ok(span),
    ensures
        edits_at(
            if own_name == old {
                seq![edit_for(lines, span, new_name)]
            } else {
                Seq::empty()
            },
            lines,
            new_name,
            ok,
        ),
{
    if own_name == old {
        let es = seq![edit_for(lines, span, new_name)];
        assert forall|i: int| 0 <= i < es.len() implies #[trigger] edit_at(es[i], lines, new_name, ok) by {
            assert(ok(span) && es[i] == edit_for(lines, span, new_name));
        }
    }
}

proof fn lemma_type_value_edits_named(tv: SpecTypeValue, old: Seq<char>, new_name: Seq<char>, lines: Seq<usize>)
    ensures
        edits_at(type_value_edits(tv, old, new_name, lines), lines, new_name, |s: Span| type_value_names(tv, old, s)),
    decreases tv, 0int,
{
    let ok = |s: Span| type_value_names(tv, old, s);
    lemma_own_edit_at(tv.name, old, tv.name_span, lines, new_name, ok);
    if let SpecTypeValueInner::Properties(ps) = tv.inner {
        let n = ps.len() as int;
        lemma_props_edits_named(ps, old, new_name, lines, n);
        lemma_edits_at_weaken(
            props_edits(ps, old, new_name, lines, n),
            lines,
            new_name,
            |s: Span| props_names(ps, old, s, n),
            ok,
        );
        let own = if tv.name == old {
            seq![edit_for(lines, tv.name_span, new_name)]
        } else {
            Seq::empty()
        };
        lemma_edits_at_add(own, props_edits(ps, old, new_name, lines, n), lines, new_name, ok);
    }
}

proof fn lemma_props_edits_named(
    ps: Seq<SpecProperty>,
    old: Seq<char>,
    new_name: Seq<char>,
    lines: Seq<usize>,
    n: int,
)
    ensures
        edits_at(props_edits(ps, old, new_name, lines, n), lines, new_name, |s: Span| props_names(ps, old, s, n)),
    decreases ps, n,
{
    let ok = |s: Span| props_names(ps, old, s, n);
    if 0 < n <= ps.len() {
        lemma_props_edits_named(ps, old, new_name, lines, n - 1);
        let before = props_edits(ps, old, new_name, lines, n - 1);
        lemma_edits_at_weaken(before, lines, new_name, |s: Span| props_names(ps, old, s, n - 1), ok);
        if let SpecPropertyValue::Type(tv) = ps[n - 1].value {
            lemma_type_value_edits_named(tv, old, new_name, lines);
            let here = type_value_edits(tv, old, new_name, lines);
            lemma_edits_at_weaken(here, lines, new_name, |s: Span| type_value_names(tv, old, s), ok);
            lemma_edits_at_add(before, here, lines, new_name, ok);
        }
    }
}

proof fn lemma_node_edits_named(node: SpecNodeType, old: Seq<char>, new_name: Seq<char>, lines: Seq<usize>)
    ensures
        edits_at(node_edits(node, old, new_name, lines), lines, new_name, |s: Span| node_names(node, old, s)),
    decreases node, 0int,
{
    let ok = |s: Span| node_names(node, old, s);
    let np = node.properties.len() as int;
    let nc = node.children.len() as int;
    let own = if node.name == old {
        seq![edit_for(lines, node.name_span, new_name)]
    } else {
        Seq::empty()
    };
    let pe = props_edits(node.properties, old, new_name, lines, np);
    let ce = children_edits(node.children, old, new_name, lines, nc);
    lemma_own_edit_at(node.name, old, node.name_span, lines, new_name, ok);
    lemma_props_edits_named(node.properties, old, new_name, lines, np);
    lemma_edits_at_weaken(pe, lines, new_name, |s: Span| props_names(node.properties, old, s, np), ok);
    lemma_children_edits_named(node.children, old, new_name, lines, nc);
    lemma_edits_at_weaken(ce, lines, new_name, |s: Span| children_names(node.children, old, s, nc), ok);
    lemma_edits_at_add(own, pe, lines, new_name, ok);
    lemma_edits_at_add(own + pe, ce, lines, new_name, ok);
}

proof fn lemma_children_edits_named(
    cs: Seq<SpecNodeType>,
    old: Seq<char>,
    new_name: Seq<char>,
    lines: Seq<usize>,
    n: int,
)
    ensures
        edits_at(children_edits(cs, old, new_name, lines, n), lines, new_name, |s: Span| children_names(cs, old, s, n)),
    decreases cs, n,
{
    let ok = |s: Span| children_names(cs, old, s, n);
    if 0 < n <= cs.len() {
        lemma_children_edits_named(cs, old, new_name, lines, n - 1);
        let before = children_edits(cs, old, new_name, lines, n - 1);
        lemma_edits_at_weaken(before, lines, new_name, |s: Span| children_names(cs, old, s, n - 1), ok);
        lemma_node_edits_named(cs[n - 1], old, new_name, lines);
        let here = node_edits(cs[n - 1], old, new_name, lines);
        lemma_edits_at_weaken(here, lines, new_name, |s: Span| node_names(cs[n - 1], old, s), ok);
        lemma_edits_at_add(before, here, lines, new_name, ok);
    }
}

proof fn lemma_declaration_edits_named(
    aliases: Seq<SpecAliasDeclaration>,
    old: Seq<char>,
    new_name: Seq<char>,
    lines: Seq<usize>,
    n: int,
)
    requires
        n <= aliases.len(),
    ensures
        edits_at(
            declaration_edits(aliases, old, new_name, lines, n),
            lines,
            new_name,
            |s: Span| declarations_names(aliases, old, s, n),
        ),
    decreases n,
{
    let ok = |s: Span| declarations_names(aliases, old, s, n);
    if n > 0 {
        lemma_declaration_edits_named(aliases, old, new_name, lines, n - 1);
        let before = declaration_edits(aliases, old, new_name, lines, n - 1);
        lemma_edits_at_weaken(before, lines, new_name, |s: Span| declarations_names(aliases, old, s, n - 1), ok);
        lemma_own_edit_at(aliases[n - 1].name, old, aliases[n - 1].name_span, lines, new_name, ok);
        let own = if aliases[n - 1].name == old {
            seq![edit_for(lines, aliases[n - 1].name_span, new_name)]
        } else {
            Seq::empty()
        };
        lemma_edits_at_add(before, own, lines, new_name, ok);
        if aliases[n - 1].name == old {
            assert(before + own == before.push(edit_for(lines, aliases[n - 1].name_span, new_name)));
        } else {
            assert(before + own == before);
        }
    }
}

proof fn lemma_target_edits_named(
    aliases: Seq<SpecAliasDeclaration>,
    old: Seq<char>,
    new_name: Seq<char>,
    lines: Seq<usize>,
    n: int,
)
    requires
        n <= aliases.len(),
    ensures
        edits_at(
            target_edits(aliases, old, new_name, lines, n),
            lines,
            new_name,
            |s: Span| declarations_names(aliases, old, s, n),
        ),
    decreases n,
{
    let ok = |s: Span| declarations_names(aliases, old, s, n);
    if n > 0 {
        lemma_target_edits_named(aliases, old, new_name, lines, n - 1);
        let before = target_edits(aliases, old, new_name, lines, n - 1);
        lemma_edits_at_weaken(before, lines, new_name, |s: Span| declarations_names(aliases, old, s, n - 1), ok);
        lemma_type_value_edits_named(aliases[n - 1].target, old, new_name, lines);
        let here = type_value_edits(aliases[n - 1].target, old, new_name, lines);
        lemma_edits_at_weaken(here, lines, new_name, |s: Span| type_value_names(aliases[n - 1].target, old, s), ok);
        lemma_edits_at_add(before, here, lines, new_name, ok);
    }
}

/// Every edit of `edits` writes `new_name` over the name span of an alias
/// declaration, a component or a type value of `l` named `old`.
pub open spec fn edits_on_names(
    edits: Seq<SpecTextEdit>,
    l: SpecLayout,
    old: Seq<char>,
    lines: Seq<usize>,
    new_name: Seq<char>,
) -> bool {
    forall|i: int|
        0 <= i < edits.len() ==> exists|s: Span| layout_names(l, old, s) && #[trigger] edits[i] == edit_for(lines, s, new_name)
}

proof fn lemma_rename_all_edits_named(l: SpecLayout, old: Seq<char>, new_name: Seq<char>, lines: Seq<usize>)
    ensures
        edits_on_names(rename_all_edits(l, old, new_name, lines), l, old, lines, new_name),
{
    let n = l.aliases.len() as int;
    let ok = |s: Span| layout_names(l, old, s);
    let de = declaration_edits(l.aliases, old, new_name, lines, n);
    let ne = node_edits(l.root, old, new_name, lines);
    let te = target_edits(l.aliases, old, new_name, lines, n);
    lemma_declaration_edits_named(l.aliases, old, new_name, lines, n);
    lemma_edits_at_weaken(de, lines, new_name, |s: Span| declarations_names(l.aliases, old, s, n), ok);
    lemma_node_edits_named(l.root, old, new_name, lines);
    lemma_edits_at_weaken(ne, lines, new_name, |s: Span| node_names(l.root, old, s), ok);
    lemma_target_edits_named(l.aliases, old, new_name, lines, n);
    lemma_edits_at_weaken(te, lines, new_name, |s: Span| declarations_names(l.aliases, old, s, n), ok);
    lemma_edits_at_add(de, ne, lines, new_name, ok);
    lemma_edits_at_add(de + ne, te, lines, new_name, ok);
    let edits = rename_all_edits(l, old, new_name, lines);
    assert forall|i: int| 0 <= i < edits.len() implies exists|s: Span|
        layout_names(l, old, s) && #[trigger] edits[i] == edit_for(lines, s, new_name) by {
        assert(edit_at(edits[i], lines, new_name, ok));
        let s = choose|s: Span| #[trigger] ok(s) && edits[i] == edit_for(lines, s, new_name);
        assert(layout_names(l, old, s));
    }
}

/// Every edit of a rename writes the new name over the name span of an
/// alias declaration, a component or a type value that carries the name
/// `prepare_rename` shows.
#[verifier::spinoff_prover]
pub proof fn law_rename_edits_are_names(doc: Document, pos: Position, new_name: Seq<char>)
    ensures
        spec_prepare_rename(doc, pos) matches Some((_, old)) ==> edits_on_names(
            spec_rename_edits(doc, pos, new_name)->0,
            doc.layout->0@,
            old,
            doc.lines@,
            new_name,
        ),
{
    law_rename_where_prepared(doc, pos, new_name);
    if let Some(layout) = doc.layout {
        let l = layout@;
        let lines = doc.lines@;
        let offset = spec_position_to_offset(lines, pos);
        if let Some((old, span)) = spec_find_alias_name_at(l, offset) {
            lemma_rename_all_edits_named(l, old, new_name, lines);
            let edits = rename_all_edits(l, old, new_name, lines);
            assert(spec_prepare_rename(doc, pos) == Some((spec_span_to_range(lines, span), old)));
            assert(edits.len() > 0);
            assert(spec_rename_edits(doc, pos, new_name) == Some(edits));
        }
    }
}

} // verus!
