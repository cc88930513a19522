//! The syntax tree of a layout document, and its mathematical model.
use vstd::prelude::*;

verus! {

/// A half-open byte range `[start, end)` of the source text.
#[derive(Debug, Clone, Copy, PartialEq, Eq, Structural)]
pub struct Span {
    pub start: usize,
    pub end: usize,
}

impl Span {
    /// Whether `offset` lies inside the span.
    pub fn contains(&self, offset: usize) -> (r: bool)
        ensures
            r == self.spec_contains(offset),
    {
        offset >= self.start && offset < self.end
    }

    pub open spec fn spec_contains(self, offset: usize) -> bool {
        self.start <= offset && offset < self.end
    }
}

/// `alias Name = Target(...)`
#[derive(Debug)]
pub struct AliasDeclaration {
    pub name: String,
    pub name_span: Span,
    pub target: TypeValue,
    pub span: Span,
}

/// A component with its properties and its children.
#[derive(Debug)]
pub struct NodeType {
    pub name: String,
    pub name_span: Span,
    pub properties: Vec<Property>,
    pub children: Vec<NodeType>,
    pub span: Span,
}

/// `key = value`
#[derive(Debug)]
pub struct Property {
    pub key: String,
    pub key_span: Span,
    pub value: PropertyValue,
    pub span: Span,
}

#[derive(Debug)]
pub enum PropertyValue {
    Type(TypeValue),
    UInt(u64, Span),
    Literal(String, Span),
}

/// `Name(...)` in value position.
#[derive(Debug)]
pub struct TypeValue {
    pub name: String,
    pub name_span: Span,
    pub inner: TypeValueInner,
    pub span: Span,
}

#[derive(Debug)]
pub enum TypeValueInner {
    Properties(Vec<Property>),
    Value(Box<PropertyValue>),
    Empty,
}

/// A whole document: alias declarations followed by the root component.
#[derive(Debug)]
pub struct Layout {
    pub aliases: Vec<AliasDeclaration>,
    pub root: NodeType,
}

// ----------------------------------------------------------------------
// Mathematical model
// ----------------------------------------------------------------------

pub struct SpecAliasDeclaration {
    pub name: Seq<char>,
    pub name_span: Span,
    pub target: SpecTypeValue,
    pub span: Span,
}

pub struct SpecNodeType {
    pub name: Seq<char>,
    pub name_span: Span,
    pub properties: Seq<SpecProperty>,
    pub children: Seq<SpecNodeType>,
    pub span: Span,
}

pub struct SpecProperty {
    pub key: Seq<char>,
    pub key_span: Span,
    pub value: SpecPropertyValue,
    pub span: Span,
}

pub enum SpecPropertyValue {
    Type(SpecTypeValue),
    UInt(u64, Span),
    Literal(Seq<char>, Span),
}

pub struct SpecTypeValue {
    pub name: Seq<char>,
    pub name_span: Span,
    pub inner: SpecTypeValueInner,
    pub span: Span,
}

pub enum SpecTypeValueInner {
    Properties(Seq<SpecProperty>),
    Value(Box<SpecPropertyValue>),
    Empty,
}

pub struct SpecLayout {
    pub aliases: Seq<SpecAliasDeclaration>,
    pub root: SpecNodeType,
}

pub open spec fn model_properties(ps: Seq<Property>) -> Seq<SpecProperty>
    decreases ps,
{
    if ps.len() == 0 {
        Seq::empty()
    } else {
        model_properties(ps.drop_last()).push(model_property(ps.last()))
    }
}

pub open spec fn model_property(p: Property) -> SpecProperty
    decreases p,
{
    SpecProperty {
        key: p.key@,
        key_span: p.key_span,
        value: model_property_value(p.value),
        span: p.span,
    }
}

pub open spec fn model_property_value(v: PropertyValue) -> SpecPropertyValue
    decreases v,
{
    match v {
        PropertyValue::Type(tv) => SpecPropertyValue::Type(model_type_value(tv)),
        PropertyValue::UInt(n, s) => SpecPropertyValue::UInt(n, s),
        PropertyValue::Literal(l, s) => SpecPropertyValue::Literal(l@, s),
    }
}

pub open spec fn model_type_value(tv: TypeValue) -> SpecTypeValue
    decreases tv,
{
    SpecTypeValue {
        name: tv.name@,
        name_span: tv.name_span,
        inner: match tv.inner {
            TypeValueInner::Properties(ps) => SpecTypeValueInner::Properties(
                model_properties(ps@),
            ),
            TypeValueInner::Value(b) => SpecTypeValueInner::Value(
                Box::new(model_property_value(*b)),
            ),
            TypeValueInner::Empty => SpecTypeValueInner::Empty,
        },
        span: tv.span,
    }
}

pub open spec fn model_node(n: NodeType) -> SpecNodeType
    decreases n,
{
    SpecNodeType {
        name: n.name@,
        name_span: n.name_span,
        properties: model_properties(n.properties@),
        children: model_nodes(n.children@),
        span: n.span,
    }
}

pub open spec fn model_nodes(ns: Seq<NodeType>) -> Seq<SpecNodeType>
    decreases ns,
{
    if ns.len() == 0 {
        Seq::empty()
    } else {
        model_nodes(ns.drop_last()).push(model_node(ns.last()))
    }
}

pub open spec fn model_alias(a: AliasDeclaration) -> SpecAliasDeclaration {
    SpecAliasDeclaration {
        name: a.name@,
        name_span: a.name_span,
        target: model_type_value(a.target),
        span: a.span,
    }
}

pub open spec fn model_aliases(aliases: Seq<AliasDeclaration>) -> Seq<SpecAliasDeclaration> {
    aliases.map_values(|a: AliasDeclaration| model_alias(a))
}

pub broadcast proof fn lemma_model_properties(ps: Seq<Property>)
    ensures
        #[trigger] model_properties(ps).len() == ps.len(),
        forall|i: int|
            0 <= i < ps.len() ==> #[trigger] model_properties(ps)[i] == model_property(ps[i]),
    decreases ps.len(),
{
    if ps.len() > 0 {
        lemma_model_properties(ps.drop_last());
    }
}

pub broadcast proof fn lemma_model_nodes(ns: Seq<NodeType>)
    ensures
        #[trigger] model_nodes(ns).len() == ns.len(),
        forall|i: int| 0 <= i < ns.len() ==> #[trigger] model_nodes(ns)[i] == model_node(ns[i]),
    decreases ns.len(),
{
    if ns.len() > 0 {
        lemma_model_nodes(ns.drop_last());
    }
}

pub broadcast group group_ast_model {
    lemma_model_properties,
    lemma_model_nodes,
}

impl View for Property {
    type V = SpecProperty;

    open spec fn view(&self) -> SpecProperty {
        model_property(*self)
    }
}

impl View for PropertyValue {
    type V = SpecPropertyValue;

    open spec fn view(&self) -> SpecPropertyValue {
        model_property_value(*self)
    }
}

impl View for TypeValue {
    type V = SpecTypeValue;

    open spec fn view(&self) -> SpecTypeValue {
        model_type_value(*self)
    }
}

impl View for TypeValueInner {
    type V = SpecTypeValueInner;

    open spec fn view(&self) -> SpecTypeValueInner {
        match *self {
            TypeValueInner::Properties(ps) => SpecTypeValueInner::Properties(
                model_properties(ps@),
            ),
            TypeValueInner::Value(b) => SpecTypeValueInner::Value(
                Box::new(model_property_value(*b)),
            ),
            TypeValueInner::Empty => SpecTypeValueInner::Empty,
        }
    }
}

impl View for NodeType {
    type V = SpecNodeType;

    open spec fn view(&self) -> SpecNodeType {
        model_node(*self)
    }
}

impl View for AliasDeclaration {
    type V = SpecAliasDeclaration;

    open spec fn view(&self) -> SpecAliasDeclaration {
        model_alias(*self)
    }
}

impl View for Layout {
    type V = SpecLayout;

    open spec fn view(&self) -> SpecLayout {
        SpecLayout { aliases: model_aliases(self.aliases@), root: model_node(self.root) }
    }
}

/// `i` is the index of the first alias declared with the given name.
pub open spec fn is_first_alias(aliases: Seq<SpecAliasDeclaration>, name: Seq<char>, i: int) -> bool {
    &&& 0 <= i < aliases.len()
    &&& aliases[i].name == name
    &&& forall|j: int| 0 <= j < i ==> aliases[j].name != name
}

/// Index of the first alias declared with the given name.
pub open spec fn first_alias_index(aliases: Seq<SpecAliasDeclaration>, name: Seq<char>) -> Option<
    int,
> {
    if exists|i: int| is_first_alias(aliases, name, i) {
        Some(choose|i: int| is_first_alias(aliases, name, i))
    } else {
        None
    }
}

pub proof fn lemma_first_alias_index(aliases: Seq<SpecAliasDeclaration>, name: Seq<char>)
    ensures
        match first_alias_index(aliases, name) {
            Some(i) => is_first_alias(aliases, name, i),
            None => forall|j: int| 0 <= j < aliases.len() ==> aliases[j].name != name,
        },
{
    if !(exists|i: int| is_first_alias(aliases, name, i)) {
        assert forall|j: int| 0 <= j < aliases.len() implies aliases[j].name != name by {
            if aliases[j].name == name {
                lemma_exists_first_alias(aliases, name, j);
            }
        }
    }
}

proof fn lemma_exists_first_alias(aliases: Seq<SpecAliasDeclaration>, name: Seq<char>, j: int)
    requires
        0 <= j < aliases.len(),
        aliases[j].name == name,
    ensures
        exists|i: int| is_first_alias(aliases, name, i),
    decreases j,
{
    if exists|k: int| 0 <= k < j && aliases[k].name == name {
        let k = choose|k: int| 0 <= k < j && aliases[k].name == name;
        lemma_exists_first_alias(aliases, name, k);
    } else {
        assert(is_first_alias(aliases, name, j));
    }
}

/// The first index is unique.
pub proof fn lemma_first_alias_unique(aliases: Seq<SpecAliasDeclaration>, name: Seq<char>, i: int)
    requires
        is_first_alias(aliases, name, i),
    ensures
        first_alias_index(aliases, name) == Some(i),
{
    let k = choose|k: int| is_first_alias(aliases, name, k);
    if k < i {
        assert(aliases[k].name != name);
    }
    if k > i {
        assert(aliases[i].name != name);
    }
}

/// Whether some alias is declared with the given name.
pub open spec fn spec_is_alias(aliases: Seq<SpecAliasDeclaration>, name: Seq<char>) -> bool {
    exists|i: int| 0 <= i < aliases.len() && aliases[i].name == name
}

/// Finds the first alias declared with `name`.
pub fn find_alias<'a>(aliases: &'a [AliasDeclaration], name: &str) -> (r: Option<&'a AliasDeclaration>)
    ensures
        match first_alias_index(model_aliases(aliases@), name@) {
            Some(i) => r == Some(&aliases@[i]),
            None => r is None,
        },
{
    proof { lemma_first_alias_index(model_aliases(aliases@), name@); }
    let mut i: usize = 0;
    while i < aliases.len()
        invariant
            i <= aliases@.len(),
            forall|j: int| 0 <= j < i ==> aliases@[j].name@ != name@,
        decreases aliases.len() - i,
    {
        if crate::text::str_eq(aliases[i].name.as_str(), name) {
            proof {
                let m = model_aliases(aliases@);
                assert forall|j: int| 0 <= j < i implies m[j].name != name@ by {
                    assert(m[j].name == aliases@[j].name@);
                }
                assert(m[i as int].name == name@);
                lemma_first_alias_unique(m, name@, i as int);
            }
            return Some(&aliases[i]);
        }
        i = i + 1;
    }
    proof {
        let m = model_aliases(aliases@);
        if let Some(k) = first_alias_index(m, name@) {
            assert(aliases@[k].name@ == m[k].name);
        }
    }
    None
}

impl Layout {
    /// Whether `name` is declared as an alias in this layout.
    pub fn is_alias(&self, name: &str) -> (r: bool)
        ensures
            r == spec_is_alias(self@.aliases, name@),
    {
        let r = find_alias(self.aliases.as_slice(), name);
        proof {
            let m = model_aliases(self.aliases@);
            lemma_first_alias_index(m, name@);
            if spec_is_alias(m, name@) {
                let j = choose|j: int| 0 <= j < m.len() && m[j].name == name@;
                assert(m[j].name == name@);
            }
        }
        r.is_some()
    }
}

} // verus!
