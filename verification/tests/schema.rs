use noti_lsp::parser::parse;
use noti_lsp::schema::{lookup, types, ValueKind};
use noti_lsp::utils::{resolve_real_alias_name, value_kind_hint};

#[test]
fn table_lists_all_types_in_order() {
    let names: Vec<&str> = types().iter().map(|t| t.name).collect();
    assert_eq!(names, vec!["FlexContainer", "Text", "Image", "Spacing", "Alignment", "Border"]);
}

#[test]
fn lookup_finds_each_type_by_its_name() {
    for t in types() {
        let found = lookup(t.name).unwrap();
        assert_eq!(found.name, t.name);
        assert_eq!(found.description, t.description);
    }
    assert!(lookup("Nope").is_none());
    assert!(lookup("text").is_none());
}

#[test]
fn spacing_has_an_integer_constructor() {
    let spacing = lookup("Spacing").unwrap();
    assert!(matches!(spacing.constructor, Some(ValueKind::UInt)));
    assert!(lookup("Border").unwrap().constructor.is_none());
}

#[test]
fn find_prop_by_name() {
    let text = lookup("Text").unwrap();
    let style = text.find_prop("style").unwrap();
    assert_eq!(style.name, "style");
    assert_eq!(style.description, "Font style applied to the text.");
    match &style.value {
        ValueKind::Enum(vs) => assert_eq!(vs, &vec!["normal", "bold", "italic", "bold-italic"]),
        _ => panic!("expected an enum"),
    }
    assert!(text.find_prop("direction").is_none());
}

#[test]
fn value_kind_hints() {
    assert_eq!(value_kind_hint(&ValueKind::Enum(vec!["a", "b", "c"])), "`a` | `b` | `c`");
    assert_eq!(value_kind_hint(&ValueKind::Type("Spacing")), "`Spacing(...)`");
    assert_eq!(value_kind_hint(&ValueKind::UInt), "unsigned integer");
    assert_eq!(value_kind_hint(&ValueKind::Literal), "literal string");
}

#[test]
fn resolve_follows_alias_chains() {
    let layout = parse("alias A = B()\nalias B = Text()\nFlexContainer()").unwrap();
    assert_eq!(resolve_real_alias_name("A", &layout.aliases), "Text");
    assert_eq!(resolve_real_alias_name("B", &layout.aliases), "Text");
}

#[test]
fn resolve_keeps_builtin_and_unknown_names() {
    let layout = parse("alias Text = Image()\nFlexContainer()").unwrap();
    assert_eq!(resolve_real_alias_name("Text", &layout.aliases), "Text");
    assert_eq!(resolve_real_alias_name("Nothing", &layout.aliases), "Nothing");
}

#[test]
fn resolve_stops_on_cycles() {
    let layout = parse("alias A = B()\nalias B = A()\nFlexContainer()").unwrap();
    assert_eq!(resolve_real_alias_name("A", &layout.aliases), "A");
    assert_eq!(resolve_real_alias_name("B", &layout.aliases), "B");
}

#[test]
fn resolve_uses_first_declaration() {
    let layout = parse("alias A = Text()\nalias A = Image()\nFlexContainer()").unwrap();
    assert_eq!(resolve_real_alias_name("A", &layout.aliases), "Text");
}

#[test]
fn schema_names_are_unique_and_value_types_exist() {
    let ts = types();
    for (i, a) in ts.iter().enumerate() {
        for b in ts.iter().skip(i + 1) {
            assert_ne!(a.name, b.name);
        }
        for (j, p) in a.props.iter().enumerate() {
            for q in a.props.iter().skip(j + 1) {
                assert_ne!(p.name, q.name);
            }
            if let ValueKind::Type(n) = &p.value {
                assert!(lookup(n).is_some(), "{n}");
            }
        }
    }
}
