//! The built-in component and value types of the layout language.
use vstd::prelude::*;
use crate::text::{str_eq, strs_view};

verus! {

/// A property that a type accepts.
#[derive(Debug, Clone)]
pub struct PropDef {
    pub name: &'static str,
    pub description: &'static str,
    pub value: ValueKind,
}

/// The kind of value a property takes.
#[derive(Debug, Clone)]
pub enum ValueKind {
    /// One of a fixed set of words.
    Enum(Vec<&'static str>),
    /// A value of the named type, written `Name(...)`.
    Type(&'static str),
    UInt,
    Literal,
}

/// A built-in type.
#[derive(Debug, Clone)]
pub struct TypeDef {
    pub name: &'static str,
    pub description: &'static str,
    pub props: Vec<PropDef>,
    /// The kind of the positional value the type accepts, as in `Spacing(10)`.
    pub constructor: Option<ValueKind>,
}

pub enum SpecValueKind {
    Enum(Seq<Seq<char>>),
    Type(Seq<char>),
    UInt,
    Literal,
}

pub struct SpecPropDef {
    pub name: Seq<char>,
    pub description: Seq<char>,
    pub value: SpecValueKind,
}

pub struct SpecTypeDef {
    pub name: Seq<char>,
    pub description: Seq<char>,
    pub props: Seq<SpecPropDef>,
    pub constructor: Option<SpecValueKind>,
}

impl View for ValueKind {
    type V = SpecValueKind;

    open spec fn view(&self) -> SpecValueKind {
        match self {
            ValueKind::Enum(vs) => SpecValueKind::Enum(strs_view(vs@)),
            ValueKind::Type(t) => SpecValueKind::Type(t@),
            ValueKind::UInt => SpecValueKind::UInt,
            ValueKind::Literal => SpecValueKind::Literal,
        }
    }
}

impl View for PropDef {
    type V = SpecPropDef;

    open spec fn view(&self) -> SpecPropDef {
        SpecPropDef { name: self.name@, description: self.description@, value: self.value@ }
    }
}

pub open spec fn prop_defs_view(ps: Seq<PropDef>) -> Seq<SpecPropDef> {
    ps.map_values(|p: PropDef| p@)
}

pub open spec fn option_kind_view(k: Option<ValueKind>) -> Option<SpecValueKind> {
    match k {
        Some(v) => Some(v@),
        None => None,
    }
}

impl View for TypeDef {
    type V = SpecTypeDef;

    open spec fn view(&self) -> SpecTypeDef {
        SpecTypeDef {
            name: self.name@,
            description: self.description@,
            props: prop_defs_view(self.props@),
            constructor: option_kind_view(self.constructor),
        }
    }
}

pub open spec fn type_defs_view(ts: Seq<TypeDef>) -> Seq<SpecTypeDef> {
    ts.map_values(|t: TypeDef| t@)
}

/// The `FlexContainer` type.
pub open spec fn spec_type_flex_container() -> SpecTypeDef {
    SpecTypeDef {
        name: "FlexContainer"@,
        description: "A flexible container that lays out its children in a row or column."@,
        props: seq![
            SpecPropDef { name: "direction"@, description: "The direction children are laid out."@, value: SpecValueKind::Enum(seq!["horizontal"@, "vertical"@]) },
            SpecPropDef { name: "spacing"@, description: "Inner padding around the container's content."@, value: SpecValueKind::Type("Spacing"@) },
            SpecPropDef { name: "alignment"@, description: "How children are aligned inside the container."@, value: SpecValueKind::Type("Alignment"@) },
            SpecPropDef { name: "border"@, description: "Border drawn around the container."@, value: SpecValueKind::Type("Border"@) },
            SpecPropDef { name: "max_width"@, description: "Maximum width in pixels."@, value: SpecValueKind::UInt },
            SpecPropDef { name: "max_height"@, description: "Maximum height in pixels."@, value: SpecValueKind::UInt },
            SpecPropDef { name: "min_width"@, description: "Minimum width in pixels."@, value: SpecValueKind::UInt },
            SpecPropDef { name: "min_height"@, description: "Minimum height in pixels."@, value: SpecValueKind::UInt },
        ],
        constructor: None,
    }
}

fn type_flex_container() -> (t: TypeDef)
    ensures
        t@ == spec_type_flex_container(),
{
    let e0 = vec!["horizontal", "vertical"];
    assert(strs_view(e0@) =~= seq!["horizontal"@, "vertical"@]);
    let t = TypeDef {
        name: "FlexContainer",
        description: "A flexible container that lays out its children in a row or column.",
        props: vec![
            PropDef { name: "direction", description: "The direction children are laid out.", value: ValueKind::Enum(e0) },
            PropDef { name: "spacing", description: "Inner padding around the container's content.", value: ValueKind::Type("Spacing") },
            PropDef { name: "alignment", description: "How children are aligned inside the container.", value: ValueKind::Type("Alignment") },
            PropDef { name: "border", description: "Border drawn around the container.", value: ValueKind::Type("Border") },
            PropDef { name: "max_width", description: "Maximum width in pixels.", value: ValueKind::UInt },
            PropDef { name: "max_height", description: "Maximum height in pixels.", value: ValueKind::UInt },
            PropDef { name: "min_width", description: "Minimum width in pixels.", value: ValueKind::UInt },
            PropDef { name: "min_height", description: "Minimum height in pixels.", value: ValueKind::UInt },
        ],
        constructor: None,
    };
    assert(t@.props =~= spec_type_flex_container().props);
    t
}

/// The `Text` type.
pub open spec fn spec_type_text() -> SpecTypeDef {
    SpecTypeDef {
        name: "Text"@,
        description: "Displays a text element from the notification payload."@,
        props: seq![
            SpecPropDef { name: "kind"@, description: "Which text field from the notification to display."@, value: SpecValueKind::Enum(seq!["title"@, "summary"@, "body"@]) },
            SpecPropDef { name: "style"@, description: "Font style applied to the text."@, value: SpecValueKind::Enum(seq!["normal"@, "bold"@, "italic"@, "bold-italic"@]) },
            SpecPropDef { name: "justification"@, description: "Horizontal text alignment."@, value: SpecValueKind::Enum(seq!["left"@, "center"@, "right"@, "fill"@]) },
            SpecPropDef { name: "wrap"@, description: "Whether the text wraps onto multiple lines."@, value: SpecValueKind::Enum(seq!["true"@, "false"@]) },
            SpecPropDef { name: "ellipsize_at"@, description: "Where to truncate text that doesn't fit."@, value: SpecValueKind::Enum(seq!["start"@, "middle"@, "end"@]) },
            SpecPropDef { name: "font_size"@, description: "Font size in points."@, value: SpecValueKind::UInt },
            SpecPropDef { name: "line_spacing"@, description: "Extra spacing between lines in pixels."@, value: SpecValueKind::UInt },
            SpecPropDef { name: "margin"@, description: "Outer margin around the text element."@, value: SpecValueKind::Type("Spacing"@) },
        ],
        constructor: None,
    }
}

fn type_text() -> (t: TypeDef)
    ensures
        t@ == spec_type_text(),
{
    let e0 = vec!["title", "summary", "body"];
    assert(strs_view(e0@) =~= seq!["title"@, "summary"@, "body"@]);
    let e1 = vec!["normal", "bold", "italic", "bold-italic"];
    assert(strs_view(e1@) =~= seq!["normal"@, "bold"@, "italic"@, "bold-italic"@]);
    let e2 = vec!["left", "center", "right", "fill"];
    assert(strs_view(e2@) =~= seq!["left"@, "center"@, "right"@, "fill"@]);
    let e3 = vec!["true", "false"];
    assert(strs_view(e3@) =~= seq!["true"@, "false"@]);
    let e4 = vec!["start", "middle", "end"];
    assert(strs_view(e4@) =~= seq!["start"@, "middle"@, "end"@]);
    let t = TypeDef {
        name: "Text",
        description: "Displays a text element from the notification payload.",
        props: vec![
            PropDef { name: "kind", description: "Which text field from the notification to display.", value: ValueKind::Enum(e0) },
            PropDef { name: "style", description: "Font style applied to the text.", value: ValueKind::Enum(e1) },
            PropDef { name: "justification", description: "Horizontal text alignment.", value: ValueKind::Enum(e2) },
            PropDef { name: "wrap", description: "Whether the text wraps onto multiple lines.", value: ValueKind::Enum(e3) },
            PropDef { name: "ellipsize_at", description: "Where to truncate text that doesn't fit.", value: ValueKind::Enum(e4) },
            PropDef { name: "font_size", description: "Font size in points.", value: ValueKind::UInt },
            PropDef { name: "line_spacing", description: "Extra spacing between lines in pixels.", value: ValueKind::UInt },
            PropDef { name: "margin", description: "Outer margin around the text element.", value: ValueKind::Type("Spacing") },
        ],
        constructor: None,
    };
    assert(t@.props =~= spec_type_text().props);
    t
}

/// The `Image` type.
pub open spec fn spec_type_image() -> SpecTypeDef {
    SpecTypeDef {
        name: "Image"@,
        description: "Displays the notification icon or image."@,
        props: seq![
            SpecPropDef { name: "max_size"@, description: "Maximum width and height of the image in pixels."@, value: SpecValueKind::UInt },
            SpecPropDef { name: "max_width"@, description: "Maximum width of the image in pixels."@, value: SpecValueKind::UInt },
            SpecPropDef { name: "max_height"@, description: "Maximum height of the image in pixels."@, value: SpecValueKind::UInt },
        ],
        constructor: None,
    }
}

fn type_image() -> (t: TypeDef)
    ensures
        t@ == spec_type_image(),
{
    let t = TypeDef {
        name: "Image",
        description: "Displays the notification icon or image.",
        props: vec![
            PropDef { name: "max_size", description: "Maximum width and height of the image in pixels.", value: ValueKind::UInt },
            PropDef { name: "max_width", description: "Maximum width of the image in pixels.", value: ValueKind::UInt },
            PropDef { name: "max_height", description: "Maximum height of the image in pixels.", value: ValueKind::UInt },
        ],
        constructor: None,
    };
    assert(t@.props =~= spec_type_image().props);
    t
}

/// The `Spacing` type.
pub open spec fn spec_type_spacing() -> SpecTypeDef {
    SpecTypeDef {
        name: "Spacing"@,
        description: "Defines padding or margin on all four sides."@,
        props: seq![
            SpecPropDef { name: "top"@, description: "Top spacing in pixels."@, value: SpecValueKind::UInt },
            SpecPropDef { name: "right"@, description: "Right spacing in pixels."@, value: SpecValueKind::UInt },
            SpecPropDef { name: "bottom"@, description: "Bottom spacing in pixels."@, value: SpecValueKind::UInt },
            SpecPropDef { name: "left"@, description: "Left spacing in pixels."@, value: SpecValueKind::UInt },
        ],
        constructor: Some(SpecValueKind::UInt),
    }
}

fn type_spacing() -> (t: TypeDef)
    ensures
        t@ == spec_type_spacing(),
{
    let t = TypeDef {
        name: "Spacing",
        description: "Defines padding or margin on all four sides.",
        props: vec![
            PropDef { name: "top", description: "Top spacing in pixels.", value: ValueKind::UInt },
            PropDef { name: "right", description: "Right spacing in pixels.", value: ValueKind::UInt },
            PropDef { name: "bottom", description: "Bottom spacing in pixels.", value: ValueKind::UInt },
            PropDef { name: "left", description: "Left spacing in pixels.", value: ValueKind::UInt },
        ],
        constructor: Some(ValueKind::UInt),
    };
    assert(t@.props =~= spec_type_spacing().props);
    t
}

/// The `Alignment` type.
pub open spec fn spec_type_alignment() -> SpecTypeDef {
    SpecTypeDef {
        name: "Alignment"@,
        description: "Controls how content is aligned on each axis."@,
        props: seq![
            SpecPropDef { name: "horizontal"@, description: "Horizontal alignment of children."@, value: SpecValueKind::Enum(seq!["start"@, "center"@, "end"@, "space_between"@]) },
            SpecPropDef { name: "vertical"@, description: "Vertical alignment of children."@, value: SpecValueKind::Enum(seq!["start"@, "center"@, "end"@, "space_between"@]) },
        ],
        constructor: None,
    }
}

fn type_alignment() -> (t: TypeDef)
    ensures
        t@ == spec_type_alignment(),
{
    let e0 = vec!["start", "center", "end", "space_between"];
    assert(strs_view(e0@) =~= seq!["start"@, "center"@, "end"@, "space_between"@]);
    let e1 = vec!["start", "center", "end", "space_between"];
    assert(strs_view(e1@) =~= seq!["start"@, "center"@, "end"@, "space_between"@]);
    let t = TypeDef {
        name: "Alignment",
        description: "Controls how content is aligned on each axis.",
        props: vec![
            PropDef { name: "horizontal", description: "Horizontal alignment of children.", value: ValueKind::Enum(e0) },
            PropDef { name: "vertical", description: "Vertical alignment of children.", value: ValueKind::Enum(e1) },
        ],
        constructor: None,
    };
    assert(t@.props =~= spec_type_alignment().props);
    t
}

/// The `Border` type.
pub open spec fn spec_type_border() -> SpecTypeDef {
    SpecTypeDef {
        name: "Border"@,
        description: "Draws a border around a container."@,
        props: seq![
            SpecPropDef { name: "size"@, description: "Border thickness in pixels."@, value: SpecValueKind::UInt },
            SpecPropDef { name: "radius"@, description: "Corner radius in pixels."@, value: SpecValueKind::UInt },
        ],
        constructor: None,
    }
}

fn type_border() -> (t: TypeDef)
    ensures
        t@ == spec_type_border(),
{
    let t = TypeDef {
        name: "Border",
        description: "Draws a border around a container.",
        props: vec![
            PropDef { name: "size", description: "Border thickness in pixels.", value: ValueKind::UInt },
            PropDef { name: "radius", description: "Corner radius in pixels.", value: ValueKind::UInt },
        ],
        constructor: None,
    };
    assert(t@.props =~= spec_type_border().props);
    t
}

/// All types of the layout language, in the order completions list them.
pub open spec fn schema_types() -> Seq<SpecTypeDef> {
    seq![spec_type_flex_container(), spec_type_text(), spec_type_image(), spec_type_spacing(), spec_type_alignment(), spec_type_border()]
}

/// Builds the table of all types.
pub fn types() -> (r: Vec<TypeDef>)
    ensures
        type_defs_view(r@) == schema_types(),
{
    let r = vec![type_flex_container(), type_text(), type_image(), type_spacing(), type_alignment(), type_border()];
    assert(type_defs_view(r@) =~= schema_types());
    r
}

/// `i` is the first index of `types` whose name is `name`.
pub open spec fn is_first_type(types: Seq<SpecTypeDef>, name: Seq<char>, i: int) -> bool {
    &&& 0 <= i < types.len()
    &&& types[i].name == name
    &&& forall|j: int| 0 <= j < i ==> types[j].name != name
}

/// The first type of the table with the given name.
pub open spec fn spec_lookup(name: Seq<char>) -> Option<SpecTypeDef> {
    if exists|i: int| is_first_type(schema_types(), name, i) {
        Some(schema_types()[choose|i: int| is_first_type(schema_types(), name, i)])
    } else {
        None
    }
}

proof fn lemma_first_type_unique(types: Seq<SpecTypeDef>, name: Seq<char>, i: int)
    requires
        is_first_type(types, name, i),
    ensures
        (choose|k: int| is_first_type(types, name, k)) == i,
{
    let k = choose|k: int| is_first_type(types, name, k);
    if k < i {
        assert(types[k].name != name);
    }
    if k > i {
        assert(types[i].name != name);
    }
}

/// Looks a built-in type up by name.
pub fn lookup(name: &str) -> (r: Option<TypeDef>)
    ensures
        option_type_view(r) == spec_lookup(name@),
{
    let mut ts = types();
    let mut i: usize = 0;
    while i < ts.len()
        invariant
            type_defs_view(ts@) == schema_types(),
            i <= ts@.len(),
            forall|j: int| 0 <= j < i ==> ts@[j].name@ != name@,
        decreases ts.len() - i,
    {
        if str_eq(ts[i].name, name) {
            proof {
                let m = schema_types();
                assert forall|j: int| 0 <= j < i implies m[j].name != name@ by {
                    assert(m[j] == ts@[j]@);
                }
                assert(m[i as int] == ts@[i as int]@);
                assert(is_first_type(m, name@, i as int));
                lemma_first_type_unique(m, name@, i as int);
                assert(spec_lookup(name@) == Some(m[i as int]));
            }
            let ghost before = ts@;
            let t = ts.remove(i);
            assert(t@ == before[i as int]@);
            return Some(t);
        }
        i = i + 1;
    }
    proof {
        let m = schema_types();
        if exists|k: int| is_first_type(m, name@, k) {
            let k = choose|k: int| is_first_type(m, name@, k);
            assert(m[k] == ts@[k]@);
        }
    }
    None
}

pub open spec fn option_type_view(t: Option<TypeDef>) -> Option<SpecTypeDef> {
    match t {
        Some(d) => Some(d@),
        None => None,
    }
}

/// `i` is the first index of `props` whose name is `name`.
pub open spec fn is_first_prop(props: Seq<SpecPropDef>, name: Seq<char>, i: int) -> bool {
    &&& 0 <= i < props.len()
    &&& props[i].name == name
    &&& forall|j: int| 0 <= j < i ==> props[j].name != name
}

/// The first property of `t` with the given name.
pub open spec fn spec_find_prop(t: SpecTypeDef, name: Seq<char>) -> Option<SpecPropDef> {
    if exists|i: int| is_first_prop(t.props, name, i) {
        Some(t.props[choose|i: int| is_first_prop(t.props, name, i)])
    } else {
        None
    }
}

proof fn lemma_first_prop_unique(props: Seq<SpecPropDef>, name: Seq<char>, i: int)
    requires
        is_first_prop(props, name, i),
    ensures
        (choose|k: int| is_first_prop(props, name, k)) == i,
{
    let k = choose|k: int| is_first_prop(props, name, k);
    if k < i {
        assert(props[k].name != name);
    }
    if k > i {
        assert(props[i].name != name);
    }
}

impl TypeDef {
    /// Finds the property of this type with the given name.
    pub fn find_prop(&self, name: &str) -> (r: Option<&PropDef>)
        ensures
            match r {
                Some(p) => spec_find_prop(self@, name@) == Some(p@),
                None => spec_find_prop(self@, name@) is None,
            },
    {
        let mut i: usize = 0;
        while i < self.props.len()
            invariant
                i <= self.props@.len(),
                forall|j: int| 0 <= j < i ==> self.props@[j].name@ != name@,
            decreases self.props.len() - i,
        {
            if str_eq(self.props[i].name, name) {
                proof {
                    let m = self@.props;
                    assert forall|j: int| 0 <= j < i implies m[j].name != name@ by {
                        assert(m[j] == self.props@[j]@);
                    }
                    assert(m[i as int] == self.props@[i as int]@);
                    lemma_first_prop_unique(m, name@, i as int);
                }
                return Some(&self.props[i]);
            }
            i = i + 1;
        }
        proof {
            let m = self@.props;
            if exists|k: int| is_first_prop(m, name@, k) {
                let k = choose|k: int| is_first_prop(m, name@, k);
                assert(m[k] == self.props@[k]@);
            }
        }
        None
    }
}

proof fn lemma_exists_first_type(types: Seq<SpecTypeDef>, name: Seq<char>, j: int)
    requires
        0 <= j < types.len(),
        types[j].name == name,
    ensures
        exists|i: int| is_first_type(types, name, i),
    decreases j,
{
    if exists|k: int| 0 <= k < j && types[k].name == name {
        let k = choose|k: int| 0 <= k < j && types[k].name == name;
        lemma_exists_first_type(types, name, k);
    } else {
        assert(is_first_type(types, name, j));
    }
}

proof fn lemma_exists_first_prop(props: Seq<SpecPropDef>, name: Seq<char>, j: int)
    requires
        0 <= j < props.len(),
        props[j].name == name,
    ensures
        exists|i: int| is_first_prop(props, name, i),
    decreases j,
{
    if exists|k: int| 0 <= k < j && props[k].name == name {
        let k = choose|k: int| 0 <= k < j && props[k].name == name;
        lemma_exists_first_prop(props, name, k);
    } else {
        assert(is_first_prop(props, name, j));
    }
}

/// `lookup` finds a type exactly when the table has a type of that name, and
/// what it finds carries that name.
pub proof fn law_lookup_by_name(name: Seq<char>)
    ensures
        spec_lookup(name) is Some <==> exists|i: int| 0 <= i < schema_types().len() && schema_types()[i].name == name,
        spec_lookup(name) matches Some(t) ==> t.name == name,
{
    let types = schema_types();
    if exists|i: int| 0 <= i < types.len() && types[i].name == name {
        let i = choose|i: int| 0 <= i < types.len() && types[i].name == name;
        lemma_exists_first_type(types, name, i);
    }
    if spec_lookup(name) is Some {
        let k = choose|k: int| is_first_type(types, name, k);
        assert(0 <= k < types.len() && types[k].name == name);
    }
}

/// `find_prop` finds a property exactly when the type has one of that name,
/// and what it finds carries that name.
pub proof fn law_find_prop_by_name(t: SpecTypeDef, name: Seq<char>)
    ensures
        spec_find_prop(t, name) is Some <==> exists|i: int| 0 <= i < t.props.len() && t.props[i].name == name,
        spec_find_prop(t, name) matches Some(p) ==> p.name == name,
{
    if exists|i: int| 0 <= i < t.props.len() && t.props[i].name == name {
        let i = choose|i: int| 0 <= i < t.props.len() && t.props[i].name == name;
        lemma_exists_first_prop(t.props, name, i);
    }
    if spec_find_prop(t, name) is Some {
        let k = choose|k: int| is_first_prop(t.props, name, k);
        assert(0 <= k < t.props.len() && t.props[k].name == name);
    }
}

/// A number that tells short ASCII texts apart: their length and first three
/// characters.
pub open spec fn text_sig(s: Seq<char>) -> int {
    s.len() * 2097152 + (s[0] as int) * 16384 + (s[1] as int) * 128 + (s[2] as int)
}

/// Property names whose numbers differ are different names.
proof fn lemma_prop_names_distinct(t: SpecTypeDef)
    requires
        forall|i: int, j: int|
            0 <= i < j < t.props.len() ==> text_sig(#[trigger] t.props[i].name) != text_sig(#[trigger] t.props[j].name),
    ensures
        forall|i: int, j: int| 0 <= i < j < t.props.len() ==> #[trigger] t.props[i].name != #[trigger] t.props[j].name,
{
}

/// Reveals the text of every name of the table.
pub proof fn lemma_reveal_schema_names()
    ensures
        "FlexContainer"@ == seq!['F', 'l', 'e', 'x', 'C', 'o', 'n', 't', 'a', 'i', 'n', 'e', 'r'],
        "Text"@ == seq!['T', 'e', 'x', 't'],
        "Image"@ == seq!['I', 'm', 'a', 'g', 'e'],
        "Spacing"@ == seq!['S', 'p', 'a', 'c', 'i', 'n', 'g'],
        "Alignment"@ == seq!['A', 'l', 'i', 'g', 'n', 'm', 'e', 'n', 't'],
        "Border"@ == seq!['B', 'o', 'r', 'd', 'e', 'r'],
        "direction"@ == seq!['d', 'i', 'r', 'e', 'c', 't', 'i', 'o', 'n'],
        "spacing"@ == seq!['s', 'p', 'a', 'c', 'i', 'n', 'g'],
        "alignment"@ == seq!['a', 'l', 'i', 'g', 'n', 'm', 'e', 'n', 't'],
        "border"@ == seq!['b', 'o', 'r', 'd', 'e', 'r'],
        "max_width"@ == seq!['m', 'a', 'x', '_', 'w', 'i', 'd', 't', 'h'],
        "max_height"@ == seq!['m', 'a', 'x', '_', 'h', 'e', 'i', 'g', 'h', 't'],
        "min_width"@ == seq!['m', 'i', 'n', '_', 'w', 'i', 'd', 't', 'h'],
        "min_height"@ == seq!['m', 'i', 'n', '_', 'h', 'e', 'i', 'g', 'h', 't'],
        "kind"@ == seq!['k', 'i', 'n', 'd'],
        "style"@ == seq!['s', 't', 'y', 'l', 'e'],
        "justification"@ == seq!['j', 'u', 's', 't', 'i', 'f', 'i', 'c', 'a', 't', 'i', 'o', 'n'],
        "wrap"@ == seq!['w', 'r', 'a', 'p'],
        "ellipsize_at"@ == seq!['e', 'l', 'l', 'i', 'p', 's', 'i', 'z', 'e', '_', 'a', 't'],
        "font_size"@ == seq!['f', 'o', 'n', 't', '_', 's', 'i', 'z', 'e'],
        "line_spacing"@ == seq!['l', 'i', 'n', 'e', '_', 's', 'p', 'a', 'c', 'i', 'n', 'g'],
        "margin"@ == seq!['m', 'a', 'r', 'g', 'i', 'n'],
        "max_size"@ == seq!['m', 'a', 'x', '_', 's', 'i', 'z', 'e'],
        "top"@ == seq!['t', 'o', 'p'],
        "right"@ == seq!['r', 'i', 'g', 'h', 't'],
        "bottom"@ == seq!['b', 'o', 't', 't', 'o', 'm'],
        "left"@ == seq!['l', 'e', 'f', 't'],
        "horizontal"@ == seq!['h', 'o', 'r', 'i', 'z', 'o', 'n', 't', 'a', 'l'],
        "vertical"@ == seq!['v', 'e', 'r', 't', 'i', 'c', 'a', 'l'],
        "size"@ == seq!['s', 'i', 'z', 'e'],
        "radius"@ == seq!['r', 'a', 'd', 'i', 'u', 's'],
{
    reveal_strlit("FlexContainer");
    reveal_strlit("Text");
    reveal_strlit("Image");
    reveal_strlit("Spacing");
    reveal_strlit("Alignment");
    reveal_strlit("Border");
    reveal_strlit("direction");
    reveal_strlit("spacing");
    reveal_strlit("alignment");
    reveal_strlit("border");
    reveal_strlit("max_width");
    reveal_strlit("max_height");
    reveal_strlit("min_width");
    reveal_strlit("min_height");
    reveal_strlit("kind");
    reveal_strlit("style");
    reveal_strlit("justification");
    reveal_strlit("wrap");
    reveal_strlit("ellipsize_at");
    reveal_strlit("font_size");
    reveal_strlit("line_spacing");
    reveal_strlit("margin");
    reveal_strlit("max_size");
    reveal_strlit("top");
    reveal_strlit("right");
    reveal_strlit("bottom");
    reveal_strlit("left");
    reveal_strlit("horizontal");
    reveal_strlit("vertical");
    reveal_strlit("size");
    reveal_strlit("radius");
}

/// The table's type names are distinct, the property names of each type are
/// distinct, and every property whose values are of a named type names a
/// type of the table.
pub proof fn law_schema_consistent()
    ensures
        forall|i: int, j: int|
            0 <= i < j < schema_types().len() ==> #[trigger] schema_types()[i].name != #[trigger] schema_types()[j].name,
        forall|t: int, i: int, j: int|
            0 <= t < schema_types().len() && 0 <= i < j < schema_types()[t].props.len() ==> #[trigger] schema_types()[t].props[i].name
                != #[trigger] schema_types()[t].props[j].name,
        forall|t: int, i: int|
            0 <= t < schema_types().len() && 0 <= i < schema_types()[t].props.len() && (#[trigger] schema_types()[t].props[i]).value is Type
                ==> spec_lookup(schema_types()[t].props[i].value->Type_0) is Some,
{
    lemma_reveal_schema_names();
    let ts = schema_types();
    assert forall|i: int, j: int| 0 <= i < j < ts.len() implies #[trigger] ts[i].name != #[trigger] ts[j].name by {
        assert(text_sig(ts[i].name) != text_sig(ts[j].name));
    }
    lemma_prop_names_distinct(spec_type_flex_container());
    lemma_prop_names_distinct(spec_type_text());
    lemma_prop_names_distinct(spec_type_image());
    lemma_prop_names_distinct(spec_type_spacing());
    lemma_prop_names_distinct(spec_type_alignment());
    lemma_prop_names_distinct(spec_type_border());
    assert forall|t: int, i: int, j: int|
        0 <= t < ts.len() && 0 <= i < j < ts[t].props.len() implies #[trigger] ts[t].props[i].name
            != #[trigger] ts[t].props[j].name by {
        if t == 0 {
            assert(ts[t] == spec_type_flex_container());
        }
        if t == 1 {
            assert(ts[t] == spec_type_text());
        }
        if t == 2 {
            assert(ts[t] == spec_type_image());
        }
        if t == 3 {
            assert(ts[t] == spec_type_spacing());
        }
        if t == 4 {
            assert(ts[t] == spec_type_alignment());
        }
        if t == 5 {
            assert(ts[t] == spec_type_border());
        }
    }
    assert forall|t: int, i: int|
        0 <= t < ts.len() && 0 <= i < ts[t].props.len() && (#[trigger] ts[t].props[i]).value is Type implies spec_lookup(
            ts[t].props[i].value->Type_0,
        ) is Some by {
        let n = ts[t].props[i].value->Type_0;
        law_lookup_by_name(n);
        if n == "Spacing"@ {
            assert(ts[3].name == n);
        } else if n == "Alignment"@ {
            assert(ts[4].name == n);
        } else if n == "Border"@ {
            assert(ts[5].name == n);
        }
    }
}

} // verus!
