//! Syntax errors and semantic checks of a document.
use vstd::prelude::*;
use crate::ast::{
    group_ast_model, model_aliases, AliasDeclaration, Layout, NodeType, Property, PropertyValue,
    Span, SpecAliasDeclaration, SpecLayout, SpecNodeType, SpecProperty, SpecPropertyValue, SpecTypeValue,
    SpecTypeValueInner, TypeValue, TypeValueInner,
};
use crate::document::{
    errors_view, layout_view, parse_state, spec_offset_to_position, spec_span_to_range, Document,
};
use crate::parser::{spec_parse, SpecParseError};
use crate::protocol::{diagnostics_view, Diagnostic, DiagnosticSeverity, Position, Range, SpecDiagnostic};
use crate::schema::{lookup, spec_find_prop, spec_lookup, SpecTypeDef, SpecValueKind, ValueKind};
use crate::text::{join, join_strs, str_eq, strs_contain, strs_view};
use crate::utils::{real_alias_name, resolve_real_alias_name};

verus! {

broadcast use group_ast_model;

// ----------------------------------------------------------------------
// Messages
// ----------------------------------------------------------------------

pub open spec fn msg_unknown_type(name: Seq<char>) -> Seq<char> {
    "Unknown type `"@ + name + "`"@
}

pub open spec fn msg_unknown_component(name: Seq<char>) -> Seq<char> {
    "Unknown component `"@ + name + "`"@
}

pub open spec fn msg_duplicate_property(key: Seq<char>) -> Seq<char> {
    "Duplicate property `"@ + key + "`"@
}

pub open spec fn msg_unknown_property(key: Seq<char>, parent: Seq<char>) -> Seq<char> {
    "Unknown property `"@ + key + "` on `"@ + parent + "`"@
}

pub open spec fn msg_type_mismatch(expected: Seq<char>, key: Seq<char>, found: Seq<char>) -> Seq<
    char,
> {
    "Expected `"@ + expected + "` for `"@ + key + "`, found `"@ + found + "`"@
}

pub open spec fn msg_invalid_value(
    lit: Seq<char>,
    key: Seq<char>,
    parent: Seq<char>,
    variants: Seq<Seq<char>>,
) -> Seq<char> {
    "Invalid value `"@ + lit + "` for `"@ + key + "` on `"@ + parent + "`\nExpected one of: "@
        + join(variants, ", "@)
}

pub open spec fn msg_integer_found_type(key: Seq<char>, name: Seq<char>) -> Seq<char> {
    "Expected an integer for `"@ + key + "`, found a type `"@ + name + "`"@
}

pub open spec fn msg_type_found_integer(expected: Seq<char>, key: Seq<char>) -> Seq<char> {
    "Expected `"@ + expected + "(...)` for `"@ + key + "`, found an integer"@
}

pub open spec fn msg_enum_found_integer(variants: Seq<Seq<char>>, key: Seq<char>) -> Seq<char> {
    "Expected one of ["@ + join(variants, ", "@) + "] for `"@ + key + "`, found an integer"@
}

pub open spec fn msg_integer_found_literal(key: Seq<char>, lit: Seq<char>) -> Seq<char> {
    "Expected an integer for `"@ + key + "`, found `"@ + lit + "`"@
}

pub open spec fn msg_type_found_literal(expected: Seq<char>, key: Seq<char>, lit: Seq<char>) -> Seq<
    char,
> {
    "Expected `"@ + expected + "(...)` for `"@ + key + "`, found `"@ + lit + "`"@
}

pub open spec fn msg_no_positional(name: Seq<char>) -> Seq<char> {
    "`"@ + name + "` does not accept a positional value"@
}

// ----------------------------------------------------------------------
// What the checks report
// ----------------------------------------------------------------------

pub open spec fn spec_error(lines: Seq<usize>, span: Span, message: Seq<char>) -> SpecDiagnostic {
    SpecDiagnostic {
        range: spec_span_to_range(lines, span),
        severity: DiagnosticSeverity::Error,
        message,
    }
}

pub open spec fn spec_warning(lines: Seq<usize>, span: Span, message: Seq<char>) -> SpecDiagnostic {
    SpecDiagnostic {
        range: spec_span_to_range(lines, span),
        severity: DiagnosticSeverity::Warning,
        message,
    }
}

/// The diagnostics for `value` given for property `key` of `parent`, which
/// expects `expected`.
pub open spec fn value_kind_diags(
    value: SpecPropertyValue,
    expected: SpecValueKind,
    key: Seq<char>,
    parent: Seq<char>,
    aliases: Seq<SpecAliasDeclaration>,
    lines: Seq<usize>,
) -> Seq<SpecDiagnostic>
    decreases value, 0int,
{
    match value {
        SpecPropertyValue::UInt(_, span) => match expected {
            SpecValueKind::UInt => Seq::empty(),
            SpecValueKind::Type(t) => seq![spec_error(lines, span, msg_type_found_integer(t, key))],
            SpecValueKind::Enum(vs) => seq![spec_error(lines, span, msg_enum_found_integer(vs, key))],
            SpecValueKind::Literal => Seq::empty(),
        },
        SpecPropertyValue::Type(tv) => match expected {
            SpecValueKind::Type(t) => {
                if real_alias_name(tv.name, aliases) != real_alias_name(t, aliases) {
                    seq![spec_error(lines, tv.name_span, msg_type_mismatch(t, key, tv.name))]
                } else {
                    type_value_diags(tv, aliases, lines)
                }
            },
            SpecValueKind::UInt => seq![spec_error(lines, tv.span, msg_integer_found_type(key, tv.name))],
            _ => Seq::empty(),
        },
        SpecPropertyValue::Literal(lit, span) => match expected {
            SpecValueKind::Enum(vs) => if vs.contains(lit) {
                Seq::empty()
            } else {
                seq![spec_error(lines, span, msg_invalid_value(lit, key, parent, vs))]
            },
            SpecValueKind::Literal => Seq::empty(),
            SpecValueKind::UInt => seq![spec_error(lines, span, msg_integer_found_literal(key, lit))],
            SpecValueKind::Type(t) => seq![spec_error(lines, span, msg_type_found_literal(t, key, lit))],
        },
    }
}

/// The diagnostics for a value written `Name(...)`.
pub open spec fn type_value_diags(
    tv: SpecTypeValue,
    aliases: Seq<SpecAliasDeclaration>,
    lines: Seq<usize>,
) -> Seq<SpecDiagnostic>
    decreases tv, 0int,
{
    let resolved = real_alias_name(tv.name, aliases);
    match spec_lookup(resolved) {
        None => seq![spec_error(lines, tv.name_span, msg_unknown_type(tv.name))],
        Some(def) => match tv.inner {
            SpecTypeValueInner::Properties(props) => properties_diags(
                props,
                resolved,
                aliases,
                lines,
                props.len() as int,
            ),
            SpecTypeValueInner::Value(v) => match def.constructor {
                Some(k) => value_kind_diags(*v, k, tv.name, resolved, aliases, lines),
                None => seq![spec_error(lines, tv.span, msg_no_positional(tv.name))],
            },
            SpecTypeValueInner::Empty => Seq::empty(),
        },
    }
}

/// A warning when the key of `props[k]` was already used before it.
pub open spec fn duplicate_diags(props: Seq<SpecProperty>, k: int, lines: Seq<usize>) -> Seq<
    SpecDiagnostic,
> {
    if exists|j: int| 0 <= j < k && props[j].key == props[k].key {
        seq![spec_warning(lines, props[k].key_span, msg_duplicate_property(props[k].key))]
    } else {
        Seq::empty()
    }
}

/// The diagnostics for the first `n` properties of a component or value of
/// the built-in type `parent`.
pub open spec fn properties_diags(
    props: Seq<SpecProperty>,
    parent: Seq<char>,
    aliases: Seq<SpecAliasDeclaration>,
    lines: Seq<usize>,
    n: int,
) -> Seq<SpecDiagnostic>
    decreases props, n,
{
    if n <= 0 || n > props.len() {
        Seq::empty()
    } else {
        properties_diags(props, parent, aliases, lines, n - 1) + duplicate_diags(props, n - 1, lines)
            + property_diags(props[n - 1], parent, aliases, lines)
    }
}

/// The diagnostics for one property of the built-in type `parent`.
pub open spec fn property_diags(
    prop: SpecProperty,
    parent: Seq<char>,
    aliases: Seq<SpecAliasDeclaration>,
    lines: Seq<usize>,
) -> Seq<SpecDiagnostic>
    decreases prop, 0int,
{
    match spec_lookup(parent) {
        None => Seq::empty(),
        Some(def) => match spec_find_prop(def, prop.key) {
            None => seq![spec_error(lines, prop.key_span, msg_unknown_property(prop.key, parent))],
            Some(pd) => value_kind_diags(prop.value, pd.value, prop.key, parent, aliases, lines),
        },
    }
}

/// The diagnostics for an alias declaration.
pub open spec fn alias_diags(
    alias: SpecAliasDeclaration,
    aliases: Seq<SpecAliasDeclaration>,
    lines: Seq<usize>,
) -> Seq<SpecDiagnostic> {
    if spec_lookup(real_alias_name(alias.target.name, aliases)) is None {
        seq![spec_error(lines, alias.target.name_span, msg_unknown_type(alias.target.name))]
    } else {
        type_value_diags(alias.target, aliases, lines)
    }
}

/// The diagnostics for the first `n` alias declarations.
pub open spec fn aliases_diags(aliases: Seq<SpecAliasDeclaration>, lines: Seq<usize>, n: int) -> Seq<
    SpecDiagnostic,
>
    decreases n,
{
    if n <= 0 || n > aliases.len() {
        Seq::empty()
    } else {
        aliases_diags(aliases, lines, n - 1) + alias_diags(aliases[n - 1], aliases, lines)
    }
}

/// The diagnostics for a component and everything inside it.
pub open spec fn node_diags(
    node: SpecNodeType,
    aliases: Seq<SpecAliasDeclaration>,
    lines: Seq<usize>,
) -> Seq<SpecDiagnostic>
    decreases node, 0int,
{
    let resolved = real_alias_name(node.name, aliases);
    match spec_lookup(resolved) {
        None => seq![spec_error(lines, node.name_span, msg_unknown_component(node.name))]
            + nodes_diags(node.children, aliases, lines, node.children.len() as int),
        Some(_) => properties_diags(
            node.properties,
            resolved,
            aliases,
            lines,
            node.properties.len() as int,
        ) + nodes_diags(node.children, aliases, lines, node.children.len() as int),
    }
}

/// The diagnostics for the first `n` of the given components.
pub open spec fn nodes_diags(
    nodes: Seq<SpecNodeType>,
    aliases: Seq<SpecAliasDeclaration>,
    lines: Seq<usize>,
    n: int,
) -> Seq<SpecDiagnostic>
    decreases nodes, n,
{
    if n <= 0 || n > nodes.len() {
        Seq::empty()
    } else {
        nodes_diags(nodes, aliases, lines, n - 1) + node_diags(nodes[n - 1], aliases, lines)
    }
}

/// The diagnostic for a syntax error: one character wide at the error.
pub open spec fn syntax_error_diag(lines: Seq<usize>, e: SpecParseError) -> SpecDiagnostic {
    let pos = spec_offset_to_position(lines, e.offset);
    SpecDiagnostic {
        range: Range {
            start: pos,
            end: Position { line: pos.line, character: (pos.character + 1) as u32 },
        },
        severity: DiagnosticSeverity::Error,
        message: e.message,
    }
}

/// All diagnostics of a document: its syntax errors, then the findings of
/// the checks on the alias declarations and on the root component.
pub open spec fn spec_diagnostics(doc: Document) -> Seq<SpecDiagnostic> {
    let lines = doc.lines@;
    let errors = errors_view(doc.errors@);
    let syntax = errors.map_values(|e: SpecParseError| syntax_error_diag(lines, e));
    match layout_view(doc.layout) {
        None => syntax,
        Some(l) => syntax + aliases_diags(l.aliases, lines, l.aliases.len() as int) + node_diags(
            l.root,
            l.aliases,
            lines,
        ),
    }
}

/// A document that could not be read has its syntax error as its only
/// diagnostic; a document that was read has no syntax diagnostic, only the
/// findings of the semantic checks.
pub proof fn law_syntax_error_alone(doc: Document)
    requires
        layout_view(doc.layout) == parse_state(doc.text()).0,
        errors_view(doc.errors@) == parse_state(doc.text()).1,
    ensures
        spec_parse(doc.text()) matches Err(e) ==> spec_diagnostics(doc) == seq![
            syntax_error_diag(doc.lines@, e),
        ],
        doc.layout matches Some(l) ==> spec_diagnostics(doc) == aliases_diags(
            l@.aliases,
            doc.lines@,
            l@.aliases.len() as int,
        ) + node_diags(l@.root, l@.aliases, doc.lines@),
{
    let lines = doc.lines@;
    let errors = errors_view(doc.errors@);
    let syntax = errors.map_values(|e: SpecParseError| syntax_error_diag(lines, e));
    match spec_parse(doc.text()) {
        Err(e) => {
            assert(syntax =~= seq![syntax_error_diag(lines, e)]);
        },
        Ok(_) => {
            assert(syntax =~= Seq::<SpecDiagnostic>::empty());
            if let Some(l) = doc.layout {
                let rest = aliases_diags(l@.aliases, lines, l@.aliases.len() as int) + node_diags(
                    l@.root,
                    l@.aliases,
                    lines,
                );
                assert(syntax + rest =~= rest);
            }
        },
    }
}

/// A type value given where a type is expected is an error at its name when
/// the two resolve to different built-in types, and is otherwise checked as
/// a type value of its own.
pub proof fn law_type_value_for_type(
    tv: SpecTypeValue,
    expected: Seq<char>,
    key: Seq<char>,
    parent: Seq<char>,
    aliases: Seq<SpecAliasDeclaration>,
    lines: Seq<usize>,
)
    ensures
        value_kind_diags(SpecPropertyValue::Type(tv), SpecValueKind::Type(expected), key, parent, aliases, lines)
            == if real_alias_name(tv.name, aliases) != real_alias_name(expected, aliases) {
            seq![spec_error(lines, tv.name_span, msg_type_mismatch(expected, key, tv.name))]
        } else {
            type_value_diags(tv, aliases, lines)
        },
{
}

/// Every diagnostic of `a` is among those of `b`.
pub open spec fn diags_included(a: Seq<SpecDiagnostic>, b: Seq<SpecDiagnostic>) -> bool {
    forall|x: SpecDiagnostic| a.contains(x) ==> #[trigger] b.contains(x)
}

proof fn lemma_included_add(a: Seq<SpecDiagnostic>, b: Seq<SpecDiagnostic>)
    ensures
        diags_included(a, a + b),
        diags_included(b, a + b),
{
    assert forall|x: SpecDiagnostic| a.contains(x) implies #[trigger] (a + b).contains(x) by {
        let j = choose|j: int| 0 <= j < a.len() && a[j] == x;
        assert((a + b)[j] == x);
    }
    assert forall|x: SpecDiagnostic| b.contains(x) implies #[trigger] (a + b).contains(x) by {
        let j = choose|j: int| 0 <= j < b.len() && b[j] == x;
        assert((a + b)[a.len() + j] == x);
    }
}

proof fn lemma_included_trans(a: Seq<SpecDiagnostic>, b: Seq<SpecDiagnostic>, c: Seq<SpecDiagnostic>)
    requires
        diags_included(a, b),
        diags_included(b, c),
    ensures
        diags_included(a, c),
{
    assert forall|x: SpecDiagnostic| a.contains(x) implies #[trigger] c.contains(x) by {
        assert(b.contains(x));
    }
}

/// The first `n` properties' own findings are among the findings for them.
proof fn lemma_properties_diags_include(
    props: Seq<SpecProperty>,
    parent: Seq<char>,
    aliases: Seq<SpecAliasDeclaration>,
    lines: Seq<usize>,
    n: int,
    i: int,
)
    requires
        0 <= i < n <= props.len(),
    ensures
        diags_included(duplicate_diags(props, i, lines), properties_diags(props, parent, aliases, lines, n)),
        diags_included(property_diags(props[i], parent, aliases, lines), properties_diags(props, parent, aliases, lines, n)),
    decreases n,
{
    let before = properties_diags(props, parent, aliases, lines, n - 1);
    let dup = duplicate_diags(props, n - 1, lines);
    let own = property_diags(props[n - 1], parent, aliases, lines);
    let all = properties_diags(props, parent, aliases, lines, n);
    assert(all == before + dup + own);
    lemma_included_add(before + dup, own);
    lemma_included_add(before, dup);
    if i < n - 1 {
        lemma_properties_diags_include(props, parent, aliases, lines, n - 1, i);
        lemma_included_trans(duplicate_diags(props, i, lines), before, before + dup);
        lemma_included_trans(duplicate_diags(props, i, lines), before + dup, all);
        lemma_included_trans(property_diags(props[i], parent, aliases, lines), before, before + dup);
        lemma_included_trans(property_diags(props[i], parent, aliases, lines), before + dup, all);
    } else {
        lemma_included_trans(dup, before + dup, all);
    }
}

/// The properties written inside a value `Name(k = v, ...)` whose name
/// stands for a built-in type are checked against that type: a key the type
/// lacks is an error, a word where the type wants an integer is an error, a
/// key given twice is a warning, and every finding for each property is
/// among the value's findings.
pub proof fn law_type_value_checks_its_properties(
    tv: SpecTypeValue,
    aliases: Seq<SpecAliasDeclaration>,
    lines: Seq<usize>,
    def: SpecTypeDef,
    props: Seq<SpecProperty>,
    i: int,
)
    requires
        spec_lookup(real_alias_name(tv.name, aliases)) == Some(def),
        tv.inner == SpecTypeValueInner::Properties(props),
        0 <= i < props.len(),
    ensures
        diags_included(
            property_diags(props[i], real_alias_name(tv.name, aliases), aliases, lines),
            type_value_diags(tv, aliases, lines),
        ),
        spec_find_prop(def, props[i].key) is None ==> type_value_diags(tv, aliases, lines).contains(
            spec_error(lines, props[i].key_span, msg_unknown_property(props[i].key, real_alias_name(tv.name, aliases))),
        ),
        spec_find_prop(def, props[i].key) matches Some(pd) ==> (pd.value is UInt ==> (props[i].value matches SpecPropertyValue::Literal(
            lit,
            sp,
        ) ==> type_value_diags(tv, aliases, lines).contains(
            spec_error(lines, sp, msg_integer_found_literal(props[i].key, lit)),
        ))),
        (exists|j: int| 0 <= j < i && props[j].key == props[i].key) ==> type_value_diags(tv, aliases, lines).contains(
            spec_warning(lines, props[i].key_span, msg_duplicate_property(props[i].key)),
        ),
{
    let ty = real_alias_name(tv.name, aliases);
    lemma_properties_diags_include(props, ty, aliases, lines, props.len() as int, i);
    let all = type_value_diags(tv, aliases, lines);
    assert(all == properties_diags(props, ty, aliases, lines, props.len() as int));
    let own = property_diags(props[i], ty, aliases, lines);
    if spec_find_prop(def, props[i].key) is None {
        assert(own[0] == spec_error(lines, props[i].key_span, msg_unknown_property(props[i].key, ty)));
        assert(own.contains(own[0]));
    }
    if let Some(pd) = spec_find_prop(def, props[i].key) {
        if let SpecPropertyValue::Literal(lit, sp) = props[i].value {
            if pd.value is UInt {
                assert(own[0] == spec_error(lines, sp, msg_integer_found_literal(props[i].key, lit)));
                assert(own.contains(own[0]));
            }
        }
    }
    let dup = duplicate_diags(props, i, lines);
    if exists|j: int| 0 <= j < i && props[j].key == props[i].key {
        assert(dup.contains(dup[0]));
    }
}

/// A value `Name(...)` given to a property of the root component that
/// expects a type of the same built-in kind is checked in full: all its
/// findings are among the document's diagnostics.
pub proof fn law_root_type_values_checked(doc: Document, l: SpecLayout, k: int, tv: SpecTypeValue, t: Seq<char>)
    requires
        layout_view(doc.layout) == Some(l),
        0 <= k < l.root.properties.len(),
        l.root.properties[k].value == SpecPropertyValue::Type(tv),
        spec_lookup(real_alias_name(l.root.name, l.aliases)) matches Some(def) && spec_find_prop(
            def,
            l.root.properties[k].key,
        ) matches Some(pd) && pd.value == SpecValueKind::Type(t),
        real_alias_name(tv.name, l.aliases) == real_alias_name(t, l.aliases),
    ensures
        diags_included(type_value_diags(tv, l.aliases, doc.lines@), spec_diagnostics(doc)),
{
    let lines = doc.lines@;
    let root = l.root;
    let ty = real_alias_name(root.name, l.aliases);
    let np = root.properties.len() as int;
    lemma_properties_diags_include(root.properties, ty, l.aliases, lines, np, k);
    let pdiags = properties_diags(root.properties, ty, l.aliases, lines, np);
    let cdiags = nodes_diags(root.children, l.aliases, lines, root.children.len() as int);
    assert(property_diags(root.properties[k], ty, l.aliases, lines) == type_value_diags(tv, l.aliases, lines));
    lemma_included_add(pdiags, cdiags);
    assert(node_diags(root, l.aliases, lines) == pdiags + cdiags);
    lemma_included_trans(type_value_diags(tv, l.aliases, lines), pdiags, pdiags + cdiags);
    let errors = errors_view(doc.errors@);
    let syntax = errors.map_values(|e: SpecParseError| syntax_error_diag(lines, e));
    let ad = aliases_diags(l.aliases, lines, l.aliases.len() as int);
    assert(spec_diagnostics(doc) == syntax + ad + node_diags(root, l.aliases, lines));
    lemma_included_add(syntax + ad, node_diags(root, l.aliases, lines));
    lemma_included_trans(type_value_diags(tv, l.aliases, lines), node_diags(root, l.aliases, lines), spec_diagnostics(doc));
}

proof fn lemma_nodes_diags_include(
    nodes: Seq<SpecNodeType>,
    aliases: Seq<SpecAliasDeclaration>,
    lines: Seq<usize>,
    n: int,
    c: int,
)
    requires
        0 <= c < n <= nodes.len(),
    ensures
        diags_included(node_diags(nodes[c], aliases, lines), nodes_diags(nodes, aliases, lines, n)),
    decreases n,
{
    let before = nodes_diags(nodes, aliases, lines, n - 1);
    let last = node_diags(nodes[n - 1], aliases, lines);
    lemma_included_add(before, last);
    if c < n - 1 {
        lemma_nodes_diags_include(nodes, aliases, lines, n - 1, c);
        lemma_included_trans(node_diags(nodes[c], aliases, lines), before, before + last);
    }
}

proof fn lemma_aliases_diags_include(aliases: Seq<SpecAliasDeclaration>, lines: Seq<usize>, n: int, a: int)
    requires
        0 <= a < n <= aliases.len(),
    ensures
        diags_included(alias_diags(aliases[a], aliases, lines), aliases_diags(aliases, lines, n)),
    decreases n,
{
    let before = aliases_diags(aliases, lines, n - 1);
    let last = alias_diags(aliases[n - 1], aliases, lines);
    lemma_included_add(before, last);
    if a < n - 1 {
        lemma_aliases_diags_include(aliases, lines, n - 1, a);
        lemma_included_trans(alias_diags(aliases[a], aliases, lines), before, before + last);
    }
}

/// A component is checked in full: an unknown name is an error; with a
/// known name each of its properties is checked against the type it stands
/// for (a key given twice is a warning); and each child is checked in the
/// same way.
pub proof fn law_component_checked(node: SpecNodeType, aliases: Seq<SpecAliasDeclaration>, lines: Seq<usize>)
    ensures
        spec_lookup(real_alias_name(node.name, aliases)) is None ==> node_diags(node, aliases, lines).contains(
            spec_error(lines, node.name_span, msg_unknown_component(node.name)),
        ),
        spec_lookup(real_alias_name(node.name, aliases)) is Some ==> forall|k: int|
            0 <= k < node.properties.len() ==> diags_included(
                #[trigger] property_diags(node.properties[k], real_alias_name(node.name, aliases), aliases, lines),
                node_diags(node, aliases, lines),
            ) && diags_included(duplicate_diags(node.properties, k, lines), node_diags(node, aliases, lines)),
        forall|c: int|
            0 <= c < node.children.len() ==> diags_included(
                node_diags(#[trigger] node.children[c], aliases, lines),
                node_diags(node, aliases, lines),
            ),
{
    let ty = real_alias_name(node.name, aliases);
    let np = node.properties.len() as int;
    let nc = node.children.len() as int;
    let cd = nodes_diags(node.children, aliases, lines, nc);
    let all = node_diags(node, aliases, lines);
    match spec_lookup(ty) {
        None => {
            let head = seq![spec_error(lines, node.name_span, msg_unknown_component(node.name))];
            assert(all == head + cd);
            lemma_included_add(head, cd);
            assert(head.contains(head[0]));
            assert forall|c: int| 0 <= c < nc implies diags_included(
                node_diags(#[trigger] node.children[c], aliases, lines),
                all,
            ) by {
                lemma_nodes_diags_include(node.children, aliases, lines, nc, c);
                lemma_included_trans(node_diags(node.children[c], aliases, lines), cd, all);
            }
        },
        Some(_) => {
            let pd = properties_diags(node.properties, ty, aliases, lines, np);
            assert(all == pd + cd);
            lemma_included_add(pd, cd);
            assert forall|k: int| 0 <= k < np implies diags_included(
                #[trigger] property_diags(node.properties[k], ty, aliases, lines),
                all,
            ) && diags_included(duplicate_diags(node.properties, k, lines), all) by {
                lemma_properties_diags_include(node.properties, ty, aliases, lines, np, k);
                lemma_included_trans(property_diags(node.properties[k], ty, aliases, lines), pd, all);
                lemma_included_trans(duplicate_diags(node.properties, k, lines), pd, all);
            }
            assert forall|c: int| 0 <= c < nc implies diags_included(
                node_diags(#[trigger] node.children[c], aliases, lines),
                all,
            ) by {
                lemma_nodes_diags_include(node.children, aliases, lines, nc, c);
                lemma_included_trans(node_diags(node.children[c], aliases, lines), cd, all);
            }
        },
    }
}

/// A document that was read is checked in full: each alias declaration's
/// target (an error when it names no built-in type, else its findings) and
/// the root component.
pub proof fn law_document_checked(doc: Document, l: SpecLayout)
    requires
        layout_view(doc.layout) == Some(l),
    ensures
        diags_included(node_diags(l.root, l.aliases, doc.lines@), spec_diagnostics(doc)),
        forall|a: int|
            0 <= a < l.aliases.len() ==> diags_included(
                alias_diags(#[trigger] l.aliases[a], l.aliases, doc.lines@),
                spec_diagnostics(doc),
            ),
        forall|a: int|
            0 <= a < l.aliases.len() && spec_lookup(real_alias_name((#[trigger] l.aliases[a]).target.name, l.aliases))
                is None ==> spec_diagnostics(doc).contains(
                spec_error(doc.lines@, l.aliases[a].target.name_span, msg_unknown_type(l.aliases[a].target.name)),
            ),
        forall|a: int|
            0 <= a < l.aliases.len() && spec_lookup(real_alias_name((#[trigger] l.aliases[a]).target.name, l.aliases))
                is Some ==> diags_included(type_value_diags(l.aliases[a].target, l.aliases, doc.lines@), spec_diagnostics(doc)),
{
    let lines = doc.lines@;
    let errors = errors_view(doc.errors@);
    let syntax = errors.map_values(|e: SpecParseError| syntax_error_diag(lines, e));
    let n = l.aliases.len() as int;
    let ad = aliases_diags(l.aliases, lines, n);
    let nd = node_diags(l.root, l.aliases, lines);
    let all = spec_diagnostics(doc);
    assert(all == syntax + ad + nd);
    lemma_included_add(syntax + ad, nd);
    lemma_included_add(syntax, ad);
    lemma_included_trans(ad, syntax + ad, all);
    assert forall|a: int| 0 <= a < n implies diags_included(alias_diags(#[trigger] l.aliases[a], l.aliases, lines), all) by {
        lemma_aliases_diags_include(l.aliases, lines, n, a);
        lemma_included_trans(alias_diags(l.aliases[a], l.aliases, lines), ad, all);
    }
    assert forall|a: int|
        0 <= a < n && spec_lookup(real_alias_name((#[trigger] l.aliases[a]).target.name, l.aliases)) is None implies all.contains(
        spec_error(lines, l.aliases[a].target.name_span, msg_unknown_type(l.aliases[a].target.name)),
    ) by {
        let d = alias_diags(l.aliases[a], l.aliases, lines);
        assert(diags_included(d, all));
        assert(d.contains(d[0]));
    }
}

/// What each kind of value gets where a given kind is expected: nothing
/// when they agree, else one error over the value; an enumerated word is
/// accepted exactly when it is one of the variants.
pub proof fn law_value_checked(
    v: SpecPropertyValue,
    expected: SpecValueKind,
    key: Seq<char>,
    parent: Seq<char>,
    aliases: Seq<SpecAliasDeclaration>,
    lines: Seq<usize>,
)
    ensures
        ({
            let d = value_kind_diags(v, expected, key, parent, aliases, lines);
            &&& (v is UInt && expected is UInt) ==> d.len() == 0
            &&& (v is Literal && expected is Literal) ==> d.len() == 0
            &&& v matches SpecPropertyValue::Literal(lit, sp) ==> (expected matches SpecValueKind::Enum(vs) ==> (
                (d.len() == 0 <==> vs.contains(lit)) && (!vs.contains(lit) ==> d == seq![
                    spec_error(lines, sp, msg_invalid_value(lit, key, parent, vs)),
                ])))
            &&& v matches SpecPropertyValue::Literal(lit, sp) ==> (expected is UInt ==> d == seq![
                spec_error(lines, sp, msg_integer_found_literal(key, lit)),
            ])
            &&& v matches SpecPropertyValue::Literal(lit, sp) ==> (expected matches SpecValueKind::Type(t) ==> d == seq![
                spec_error(lines, sp, msg_type_found_literal(t, key, lit)),
            ])
            &&& v matches SpecPropertyValue::UInt(_, sp) ==> (expected matches SpecValueKind::Type(t) ==> d == seq![
                spec_error(lines, sp, msg_type_found_integer(t, key)),
            ])
            &&& v matches SpecPropertyValue::UInt(_, sp) ==> (expected matches SpecValueKind::Enum(vs) ==> d == seq![
                spec_error(lines, sp, msg_enum_found_integer(vs, key)),
            ])
            &&& v matches SpecPropertyValue::Type(tv) ==> (expected is UInt ==> d == seq![
                spec_error(lines, tv.span, msg_integer_found_type(key, tv.name)),
            ])
        }),
{
}

/// A property whose key the type lacks is exactly one error over its key;
/// a known key's value is checked against the kind the type gives it.
pub proof fn law_property_checked(
    p: SpecProperty,
    parent: Seq<char>,
    aliases: Seq<SpecAliasDeclaration>,
    lines: Seq<usize>,
    def: SpecTypeDef,
)
    requires
        spec_lookup(parent) == Some(def),
    ensures
        spec_find_prop(def, p.key) is None ==> property_diags(p, parent, aliases, lines) == seq![
            spec_error(lines, p.key_span, msg_unknown_property(p.key, parent)),
        ],
        spec_find_prop(def, p.key) matches Some(pd) ==> property_diags(p, parent, aliases, lines) == value_kind_diags(
            p.value,
            pd.value,
            p.key,
            parent,
            aliases,
            lines,
        ),
{
}

// ----------------------------------------------------------------------
// Building the messages
// ----------------------------------------------------------------------

fn msg_unknown_type_string(name: &str) -> (r: String)
    ensures
        r@ == msg_unknown_type(name@),
{
    let mut s = String::from_str("Unknown type `");
    s.append(name);
    s.append("`");
    s
}

fn msg_unknown_component_string(name: &str) -> (r: String)
    ensures
        r@ == msg_unknown_component(name@),
{
    let mut s = String::from_str("Unknown component `");
    s.append(name);
    s.append("`");
    s
}

fn msg_duplicate_property_string(key: &str) -> (r: String)
    ensures
        r@ == msg_duplicate_property(key@),
{
    let mut s = String::from_str("Duplicate property `");
    s.append(key);
    s.append("`");
    s
}

fn msg_unknown_property_string(key: &str, parent: &str) -> (r: String)
    ensures
        r@ == msg_unknown_property(key@, parent@),
{
    let mut s = String::from_str("Unknown property `");
    s.append(key);
    s.append("` on `");
    s.append(parent);
    s.append("`");
    s
}

fn msg_type_mismatch_string(expected: &str, key: &str, found: &str) -> (r: String)
    ensures
        r@ == msg_type_mismatch(expected@, key@, found@),
{
    let mut s = String::from_str("Expected `");
    s.append(expected);
    s.append("` for `");
    s.append(key);
    s.append("`, found `");
    s.append(found);
    s.append("`");
    s
}

fn msg_invalid_value_string(lit: &str, key: &str, parent: &str, variants: &Vec<&str>) -> (r: String)
    ensures
        r@ == msg_invalid_value(lit@, key@, parent@, strs_view(variants@)),
{
    let mut s = String::from_str("Invalid value `");
    s.append(lit);
    s.append("` for `");
    s.append(key);
    s.append("` on `");
    s.append(parent);
    s.append("`\nExpected one of: ");
    let joined = join_strs(variants, ", ");
    s.append(joined.as_str());
    s
}

fn msg_integer_found_type_string(key: &str, name: &str) -> (r: String)
    ensures
        r@ == msg_integer_found_type(key@, name@),
{
    let mut s = String::from_str("Expected an integer for `");
    s.append(key);
    s.append("`, found a type `");
    s.append(name);
    s.append("`");
    s
}

fn msg_type_found_integer_string(expected: &str, key: &str) -> (r: String)
    ensures
        r@ == msg_type_found_integer(expected@, key@),
{
    let mut s = String::from_str("Expected `");
    s.append(expected);
    s.append("(...)` for `");
    s.append(key);
    s.append("`, found an integer");
    s
}

fn msg_enum_found_integer_string(variants: &Vec<&str>, key: &str) -> (r: String)
    ensures
        r@ == msg_enum_found_integer(strs_view(variants@), key@),
{
    let mut s = String::from_str("Expected one of [");
    let joined = join_strs(variants, ", ");
    s.append(joined.as_str());
    s.append("] for `");
    s.append(key);
    s.append("`, found an integer");
    s
}

fn msg_integer_found_literal_string(key: &str, lit: &str) -> (r: String)
    ensures
        r@ == msg_integer_found_literal(key@, lit@),
{
    let mut s = String::from_str("Expected an integer for `");
    s.append(key);
    s.append("`, found `");
    s.append(lit);
    s.append("`");
    s
}

fn msg_type_found_literal_string(expected: &str, key: &str, lit: &str) -> (r: String)
    ensures
        r@ == msg_type_found_literal(expected@, key@, lit@),
{
    let mut s = String::from_str("Expected `");
    s.append(expected);
    s.append("(...)` for `");
    s.append(key);
    s.append("`, found `");
    s.append(lit);
    s.append("`");
    s
}

fn msg_no_positional_string(name: &str) -> (r: String)
    ensures
        r@ == msg_no_positional(name@),
{
    let mut s = String::from_str("`");
    s.append(name);
    s.append("` does not accept a positional value");
    s
}

// ----------------------------------------------------------------------
// The checks
// ----------------------------------------------------------------------

fn error(doc: &Document, span: &Span, message: String) -> (r: Diagnostic)
    requires
        doc.wf(),
    ensures
        r@ == spec_error(doc.lines@, *span, message@),
{
    Diagnostic { range: span.to_range(doc), severity: DiagnosticSeverity::Error, message }
}

fn warning(doc: &Document, span: &Span, message: String) -> (r: Diagnostic)
    requires
        doc.wf(),
    ensures
        r@ == spec_warning(doc.lines@, *span, message@),
{
    Diagnostic { range: span.to_range(doc), severity: DiagnosticSeverity::Warning, message }
}

fn push_diag(diagnostics: &mut Vec<Diagnostic>, d: Diagnostic)
    ensures
        diagnostics_view(final(diagnostics)@) == diagnostics_view(old(diagnostics)@).push(d@),
{
    diagnostics.push(d);
    proof {
        assert(diagnostics_view(diagnostics@) =~= diagnostics_view(old(diagnostics)@).push(d@));
    }
}

fn check_value_kind(
    value: &PropertyValue,
    expected: &ValueKind,
    prop_key: &str,
    parent_type: &str,
    layout: &Layout,
    doc: &Document,
    diagnostics: &mut Vec<Diagnostic>,
)
    requires
        doc.wf(),
    ensures
        diagnostics_view(final(diagnostics)@) == diagnostics_view(old(diagnostics)@)
            + value_kind_diags(value@, expected@, prop_key@, parent_type@, layout@.aliases, doc.lines@),
    decreases value, 0int,
{
    let ghost before = diagnostics_view(diagnostics@);
    let ghost expected_diags = value_kind_diags(value@, expected@, prop_key@, parent_type@, layout@.aliases, doc.lines@);
    match value {
        PropertyValue::UInt(_, span) => match expected {
            ValueKind::UInt => {},
            ValueKind::Type(t) => {
                push_diag(diagnostics, error(doc, span, msg_type_found_integer_string(t, prop_key)));
            },
            ValueKind::Enum(vs) => {
                push_diag(diagnostics, error(doc, span, msg_enum_found_integer_string(vs, prop_key)));
            },
            ValueKind::Literal => {},
        },
        PropertyValue::Type(tv) => match expected {
            ValueKind::Type(t) => {
                let found = resolve_real_alias_name(tv.name.as_str(), layout.aliases.as_slice());
                let wanted = resolve_real_alias_name(t, layout.aliases.as_slice());
                if !str_eq(found, wanted) {
                    push_diag(
                        diagnostics,
                        error(doc, &tv.name_span, msg_type_mismatch_string(t, prop_key, tv.name.as_str())),
                    );
                } else {
                    check_type_value(tv, layout, doc, diagnostics);
                }
            },
            ValueKind::UInt => {
                push_diag(
                    diagnostics,
                    error(doc, &tv.span, msg_integer_found_type_string(prop_key, tv.name.as_str())),
                );
            },
            _ => {},
        },
        PropertyValue::Literal(lit, span) => match expected {
            ValueKind::Enum(vs) => {
                if !strs_contain(vs, lit.as_str()) {
                    push_diag(
                        diagnostics,
                        error(doc, span, msg_invalid_value_string(lit.as_str(), prop_key, parent_type, vs)),
                    );
                }
            },
            ValueKind::Literal => {},
            ValueKind::UInt => {
                push_diag(diagnostics, error(doc, span, msg_integer_found_literal_string(prop_key, lit.as_str())));
            },
            ValueKind::Type(t) => {
                push_diag(
                    diagnostics,
                    error(doc, span, msg_type_found_literal_string(t, prop_key, lit.as_str())),
                );
            },
        },
    }
    proof {
        assert(diagnostics_view(diagnostics@) =~= before + expected_diags);
    }
}

fn check_type_value(tv: &TypeValue, layout: &Layout, doc: &Document, diagnostics: &mut Vec<Diagnostic>)
    requires
        doc.wf(),
    ensures
        diagnostics_view(final(diagnostics)@) == diagnostics_view(old(diagnostics)@)
            + type_value_diags(tv@, layout@.aliases, doc.lines@),
    decreases tv, 0int,
{
    let ghost before = diagnostics_view(diagnostics@);
    let ghost expected_diags = type_value_diags(tv@, layout@.aliases, doc.lines@);
    let resolved = resolve_real_alias_name(tv.name.as_str(), layout.aliases.as_slice());
    let type_def = match lookup(resolved) {
        None => {
            push_diag(diagnostics, error(doc, &tv.name_span, msg_unknown_type_string(tv.name.as_str())));
            proof {
                assert(diagnostics_view(diagnostics@) =~= before + expected_diags);
            }
            return;
        },
        Some(d) => d,
    };
    match &tv.inner {
        TypeValueInner::Properties(props) => {
            check_properties(props, resolved, layout, doc, diagnostics);
        },
        TypeValueInner::Value(val) => {
            match &type_def.constructor {
                Some(kind) => {
                    check_value_kind(val, kind, tv.name.as_str(), resolved, layout, doc, diagnostics);
                },
                None => {
                    push_diag(diagnostics, error(doc, &tv.span, msg_no_positional_string(tv.name.as_str())));
                },
            }
        },
        TypeValueInner::Empty => {},
    }
    proof {
        assert(diagnostics_view(diagnostics@) =~= before + expected_diags);
    }
}

/// The checks of a list of properties: duplicate keys, then each property.
fn check_properties(
    props: &Vec<Property>,
    parent_type: &str,
    layout: &Layout,
    doc: &Document,
    diagnostics: &mut Vec<Diagnostic>,
)
    requires
        doc.wf(),
    ensures
        diagnostics_view(final(diagnostics)@) == diagnostics_view(old(diagnostics)@)
            + properties_diags(
            crate::ast::model_properties(props@),
            parent_type@,
            layout@.aliases,
            doc.lines@,
            props@.len() as int,
        ),
    decreases props, 1int,
{
    let ghost before = diagnostics_view(diagnostics@);
    let ghost m = crate::ast::model_properties(props@);
    let mut seen: Vec<&str> = Vec::new();
    let mut i: usize = 0;
    assert(before + properties_diags(m, parent_type@, layout@.aliases, doc.lines@, 0) =~= before);
    while i < props.len()
        invariant
            doc.wf(),
            i <= props@.len(),
            m == crate::ast::model_properties(props@),
            m.len() == props@.len(),
            diagnostics_view(diagnostics@) == before + properties_diags(
                m,
                parent_type@,
                layout@.aliases,
                doc.lines@,
                i as int,
            ),
            forall|x: Seq<char>|
                strs_view(seen@).contains(x) <==> exists|j: int| 0 <= j < i && m[j].key == x,
        decreases props.len() - i,
    {
        let prop = &props[i];
        let ghost mid = diagnostics_view(diagnostics@);
        let dup = strs_contain(&seen, prop.key.as_str());
        assert(m[i as int].key == prop.key@);
        if dup {
            push_diag(diagnostics, warning(doc, &prop.key_span, msg_duplicate_property_string(prop.key.as_str())));
            proof {
                assert forall|x: Seq<char>|
                    strs_view(seen@).contains(x) <==> exists|j: int| 0 <= j < i + 1 && m[j].key == x by {
                    if exists|j: int| 0 <= j < i + 1 && m[j].key == x {
                        let j = choose|j: int| 0 <= j < i + 1 && m[j].key == x;
                        if j == i {
                            assert(strs_view(seen@).contains(m[i as int].key));
                        } else {
                            assert(exists|j: int| 0 <= j < i && m[j].key == x);
                        }
                    }
                }
            }
        } else {
            let ghost old_seen = seen@;
            seen.push(prop.key.as_str());
            proof {
                let sv = strs_view(seen@);
                let ov = strs_view(old_seen);
                assert(sv =~= ov.push(prop.key@));
                assert forall|x: Seq<char>|
                    sv.contains(x) <==> exists|j: int| 0 <= j < i + 1 && m[j].key == x by {
                    if sv.contains(x) {
                        let k = choose|k: int| 0 <= k < sv.len() && sv[k] == x;
                        if k < ov.len() {
                            assert(ov[k] == x);
                            assert(ov.contains(x));
                        } else {
                            assert(m[i as int].key == x);
                        }
                    }
                    if exists|j: int| 0 <= j < i + 1 && m[j].key == x {
                        let j = choose|j: int| 0 <= j < i + 1 && m[j].key == x;
                        if j < i {
                            assert(ov.contains(x));
                            let k = choose|k: int| 0 <= k < ov.len() && ov[k] == x;
                            assert(sv[k] == x);
                        } else {
                            assert(sv[sv.len() - 1] == x);
                        }
                    }
                }
            }
        }
        let ghost after_dup = diagnostics_view(diagnostics@);
        check_property(prop, parent_type, layout, doc, diagnostics);
        proof {
            assert(diagnostics_view(diagnostics@) =~= before + properties_diags(
                m,
                parent_type@,
                layout@.aliases,
                doc.lines@,
                i + 1,
            ));
        }
        i = i + 1;
    }
}

fn check_property(
    prop: &Property,
    parent_type: &str,
    layout: &Layout,
    doc: &Document,
    diagnostics: &mut Vec<Diagnostic>,
)
    requires
        doc.wf(),
    ensures
        diagnostics_view(final(diagnostics)@) == diagnostics_view(old(diagnostics)@)
            + property_diags(prop@, parent_type@, layout@.aliases, doc.lines@),
    decreases prop, 0int,
{
    let ghost before = diagnostics_view(diagnostics@);
    let type_def = match lookup(parent_type) {
        None => {
            assert(before + Seq::<SpecDiagnostic>::empty() =~= before);
            return;
        },
        Some(d) => d,
    };
    match type_def.find_prop(prop.key.as_str()) {
        None => {
            push_diag(
                diagnostics,
                error(doc, &prop.key_span, msg_unknown_property_string(prop.key.as_str(), parent_type)),
            );
        },
        Some(prop_def) => {
            check_value_kind(&prop.value, &prop_def.value, prop.key.as_str(), parent_type, layout, doc, diagnostics);
        },
    }
}

fn check_alias(alias: &AliasDeclaration, layout: &Layout, doc: &Document, diagnostics: &mut Vec<Diagnostic>)
    requires
        doc.wf(),
    ensures
        diagnostics_view(final(diagnostics)@) == diagnostics_view(old(diagnostics)@)
            + alias_diags(alias@, layout@.aliases, doc.lines@),
{
    let resolved = resolve_real_alias_name(alias.target.name.as_str(), layout.aliases.as_slice());
    if lookup(resolved).is_none() {
        push_diag(
            diagnostics,
            error(doc, &alias.target.name_span, msg_unknown_type_string(alias.target.name.as_str())),
        );
        return;
    }
    check_type_value(&alias.target, layout, doc, diagnostics);
}

fn check_node(node: &NodeType, layout: &Layout, doc: &Document, diagnostics: &mut Vec<Diagnostic>)
    requires
        doc.wf(),
    ensures
        diagnostics_view(final(diagnostics)@) == diagnostics_view(old(diagnostics)@)
            + node_diags(node@, layout@.aliases, doc.lines@),
    decreases node,
{
    let ghost before = diagnostics_view(diagnostics@);
    let resolved = resolve_real_alias_name(node.name.as_str(), layout.aliases.as_slice());
    let known = lookup(resolved).is_some();
    if !known {
        push_diag(diagnostics, error(doc, &node.name_span, msg_unknown_component_string(node.name.as_str())));
    } else {
        check_properties(&node.properties, resolved, layout, doc, diagnostics);
    }
    let ghost head = diagnostics_view(diagnostics@);
    let ghost children = crate::ast::model_nodes(node.children@);
    let mut i: usize = 0;
    assert(head + nodes_diags(children, layout@.aliases, doc.lines@, 0) =~= head);
    while i < node.children.len()
        invariant
            doc.wf(),
            i <= node.children@.len(),
            children == crate::ast::model_nodes(node.children@),
            children.len() == node.children@.len(),
            diagnostics_view(diagnostics@) == head + nodes_diags(children, layout@.aliases, doc.lines@, i as int),
        decreases node.children.len() - i,
    {
        check_node(&node.children[i], layout, doc, diagnostics);
        proof {
            assert(children[i as int] == node.children@[i as int]@);
            assert(diagnostics_view(diagnostics@) =~= head + nodes_diags(
                children,
                layout@.aliases,
                doc.lines@,
                i + 1,
            ));
        }
        i = i + 1;
    }
    proof {
        assert(diagnostics_view(diagnostics@) =~= before + node_diags(node@, layout@.aliases, doc.lines@));
    }
}

fn check_layout(layout: &Layout, doc: &Document, diagnostics: &mut Vec<Diagnostic>)
    requires
        doc.wf(),
    ensures
        diagnostics_view(final(diagnostics)@) == diagnostics_view(old(diagnostics)@)
            + aliases_diags(layout@.aliases, doc.lines@, layout@.aliases.len() as int)
            + node_diags(layout@.root, layout@.aliases, doc.lines@),
{
    let ghost before = diagnostics_view(diagnostics@);
    let ghost m = layout@.aliases;
    let mut i: usize = 0;
    assert(before + aliases_diags(m, doc.lines@, 0) =~= before);
    while i < layout.aliases.len()
        invariant
            doc.wf(),
            i <= layout.aliases@.len(),
            m == layout@.aliases,
            m.len() == layout.aliases@.len(),
            diagnostics_view(diagnostics@) == before + aliases_diags(m, doc.lines@, i as int),
        decreases layout.aliases.len() - i,
    {
        check_alias(&layout.aliases[i], layout, doc, diagnostics);
        proof {
            assert(m[i as int] == layout.aliases@[i as int]@);
            assert(diagnostics_view(diagnostics@) =~= before + aliases_diags(m, doc.lines@, i + 1));
        }
        i = i + 1;
    }
    check_node(&layout.root, layout, doc, diagnostics);
}

/// Every syntax error lies at a column that leaves room for a one-character
/// range after it.
pub open spec fn syntax_errors_fit(doc: Document) -> bool {
    forall|i: int|
        0 <= i < doc.errors@.len() ==> spec_offset_to_position(doc.lines@, #[trigger] doc.errors@[i].offset).character
            < u32::MAX
}

/// The diagnostics of a document: syntax errors, then semantic checks.
pub fn make_diagnostics(doc: &Document) -> (r: Vec<Diagnostic>)
    requires
        doc.wf(),
        syntax_errors_fit(*doc),
    ensures
        diagnostics_view(r@) == spec_diagnostics(*doc),
{
    let ghost lines = doc.lines@;
    let ghost syntax = errors_view(doc.errors@).map_values(
        |e: SpecParseError| syntax_error_diag(lines, e),
    );
    let mut diagnostics: Vec<Diagnostic> = Vec::new();
    let mut i: usize = 0;
    while i < doc.errors.len()
        invariant
            doc.wf(),
            syntax_errors_fit(*doc),
            lines == doc.lines@,
            syntax == errors_view(doc.errors@).map_values(|e: SpecParseError| syntax_error_diag(lines, e)),
            i <= doc.errors@.len(),
            diagnostics_view(diagnostics@) == syntax.take(i as int),
        decreases doc.errors.len() - i,
    {
        let err = &doc.errors[i];
        assert(spec_offset_to_position(doc.lines@, doc.errors@[i as int].offset).character < u32::MAX);
        let pos = doc.offset_to_position(err.offset);
        let d = Diagnostic {
            range: Range { start: pos, end: Position { line: pos.line, character: pos.character + 1 } },
            severity: DiagnosticSeverity::Error,
            message: err.message.clone(),
        };
        let ghost prev = diagnostics_view(diagnostics@);
        push_diag(&mut diagnostics, d);
        proof {
            assert(syntax[i as int] == syntax_error_diag(lines, doc.errors@[i as int]@));
            assert(d@ == syntax[i as int]);
            assert(syntax.take(i + 1) =~= prev.push(d@));
            assert(diagnostics_view(diagnostics@) =~= syntax.take(i + 1));
        }
        i = i + 1;
    }
    proof {
        assert(syntax.take(doc.errors@.len() as int) =~= syntax);
    }
    if let Some(layout) = &doc.layout {
        check_layout(layout, doc, &mut diagnostics);
    }
    diagnostics
}

} // verus!
