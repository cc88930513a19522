use noti_lsp::ast::{PropertyValue, Span, TypeValueInner};
use noti_lsp::parser::parse;

const SAMPLE: &str = "alias Title = Text(kind = title, style = bold)
FlexContainer(direction = vertical, spacing = Spacing(10), max_width = 300) {
    Title(font_size = 14),
    Image(max_size = 64),
}
";

#[test]
fn parses_aliases_and_root() {
    let layout = parse(SAMPLE).unwrap();
    assert_eq!(layout.aliases.len(), 1);
    let alias = &layout.aliases[0];
    assert_eq!(alias.name, "Title");
    assert_eq!(alias.name_span, Span { start: 6, end: 11 });
    assert_eq!(alias.target.name, "Text");
    assert_eq!(alias.span, Span { start: 0, end: 46 });
    match &alias.target.inner {
        TypeValueInner::Properties(props) => {
            assert_eq!(props.len(), 2);
            assert_eq!(props[0].key, "kind");
            assert_eq!(props[1].key, "style");
        },
        _ => panic!("expected properties"),
    }
    let root = &layout.root;
    assert_eq!(root.name, "FlexContainer");
    assert_eq!(root.name_span, Span { start: 47, end: 60 });
    assert_eq!(root.properties.len(), 3);
    assert_eq!(root.children.len(), 2);
    assert_eq!(root.children[0].name, "Title");
    assert_eq!(root.children[1].name, "Image");
    assert_eq!(root.span.start, 47);
    assert_eq!(root.span.end, SAMPLE.len() - 1);
}

#[test]
fn parses_value_kinds() {
    let layout = parse(SAMPLE).unwrap();
    let props = &layout.root.properties;
    match &props[0].value {
        PropertyValue::Literal(l, span) => {
            assert_eq!(l, "vertical");
            assert_eq!(*span, Span { start: 73, end: 81 });
        },
        _ => panic!("expected a literal"),
    }
    match &props[1].value {
        PropertyValue::Type(tv) => {
            assert_eq!(tv.name, "Spacing");
            assert_eq!(tv.span, Span { start: 93, end: 104 });
            match &tv.inner {
                TypeValueInner::Value(v) => match v.as_ref() {
                    PropertyValue::UInt(n, span) => {
                        assert_eq!(*n, 10);
                        assert_eq!(*span, Span { start: 101, end: 103 });
                    },
                    _ => panic!("expected an integer"),
                },
                _ => panic!("expected a positional value"),
            }
        },
        _ => panic!("expected a type value"),
    }
    match &props[2].value {
        PropertyValue::UInt(n, _) => assert_eq!(*n, 300),
        _ => panic!("expected an integer"),
    }
    assert_eq!(props[2].span, Span { start: 106, end: 121 });
}

#[test]
fn empty_type_value_and_comments() {
    let layout = parse("// heading\nFlexContainer(border = Border()) // trailing\n").unwrap();
    match &layout.root.properties[0].value {
        PropertyValue::Type(tv) => {
            assert_eq!(tv.name, "Border");
            assert!(matches!(tv.inner, TypeValueInner::Empty));
        },
        _ => panic!("expected a type value"),
    }
}

#[test]
fn trailing_commas_are_accepted() {
    let layout = parse("FlexContainer(max_width = 1,) { Text(), Image(), }").unwrap();
    assert_eq!(layout.root.properties.len(), 1);
    assert_eq!(layout.root.children.len(), 2);
}

#[test]
fn word_alias_followed_by_paren_is_a_component() {
    let layout = parse("alias()").unwrap();
    assert!(layout.aliases.is_empty());
    assert_eq!(layout.root.name, "alias");
}

#[test]
fn too_large_number_reads_as_zero() {
    let layout = parse("Text(font_size = 99999999999999999999999)").unwrap();
    match &layout.root.properties[0].value {
        PropertyValue::UInt(n, _) => assert_eq!(*n, 0),
        _ => panic!("expected an integer"),
    }
}

#[test]
fn missing_value_is_an_error() {
    let e = parse("FlexContainer(a = )").unwrap_err();
    assert_eq!(e.message, "expected a value");
    assert_eq!(e.offset, 18);
}

#[test]
fn unexpected_character_is_an_error() {
    let e = parse("FlexContainer(a = @)").unwrap_err();
    assert_eq!(e.message, "unexpected character");
    assert_eq!(e.offset, 18);
}

#[test]
fn missing_paren_is_an_error() {
    let e = parse("FlexContainer").unwrap_err();
    assert_eq!(e.message, "expected `(`");
    assert_eq!(e.offset, 13);
}

#[test]
fn missing_separator_is_an_error() {
    let e = parse("FlexContainer(a = 1 b = 2)").unwrap_err();
    assert_eq!(e.message, "expected `,` or `)`");
    assert_eq!(e.offset, 20);
    let e = parse("FlexContainer() { Text() Image() }").unwrap_err();
    assert_eq!(e.message, "expected `,` or `}`");
    assert_eq!(e.offset, 25);
}

#[test]
fn missing_equals_is_an_error() {
    let e = parse("alias A Text()").unwrap_err();
    assert_eq!(e.message, "expected `=`");
    assert_eq!(e.offset, 8);
}

#[test]
fn text_after_root_is_an_error() {
    let e = parse("Text() Image()").unwrap_err();
    assert_eq!(e.message, "expected end of input");
    assert_eq!(e.offset, 7);
}

#[test]
fn identifier_must_not_start_with_digit() {
    let e = parse("9Text()").unwrap_err();
    assert_eq!(e.message, "expected an identifier");
    assert_eq!(e.offset, 0);
}

#[test]
fn error_offsets_stay_within_the_text() {
    for text in ["", "(", "Text(", "Text(a", "Text(a =", "alias", "alias A =", "Text() {", "Text(a = B(1"] {
        let e = parse(text).unwrap_err();
        assert!(e.offset <= text.len(), "{text:?}: {}", e.offset);
    }
}

fn node_spans_within(node: &noti_lsp::ast::NodeType, n: usize) -> bool {
    node.name_span.end <= n
        && node.span.end <= n
        && node.properties.iter().all(|p| p.key_span.end <= n && p.span.end <= n)
        && node.children.iter().all(|c| node_spans_within(c, n))
}

#[test]
fn spans_end_within_the_text() {
    let layout = parse(SAMPLE).unwrap();
    let n = SAMPLE.trim_end().len();
    assert!(node_spans_within(&layout.root, n));
    assert!(layout.aliases.iter().all(|a| a.span.end <= n && a.target.span.end <= n));
}

fn check_node_text(node: &noti_lsp::ast::NodeType, src: &str) {
    assert_eq!(&src[node.name_span.start..node.name_span.end], node.name);
    assert!(node.span.start <= node.name_span.start && node.name_span.end <= node.span.end);
    for p in &node.properties {
        assert_eq!(&src[p.key_span.start..p.key_span.end], p.key);
        assert!(node.span.start <= p.span.start && p.span.end <= node.span.end);
        assert!(p.span.start <= p.key_span.start && p.key_span.end <= p.span.end);
        if let PropertyValue::Literal(l, sp) = &p.value {
            assert_eq!(&src[sp.start..sp.end], l);
        }
    }
    for c in &node.children {
        assert!(node.span.start <= c.span.start && c.span.end <= node.span.end);
        check_node_text(c, src);
    }
}

#[test]
fn names_are_the_text_under_their_spans() {
    let layout = parse(SAMPLE).unwrap();
    check_node_text(&layout.root, SAMPLE);
    for a in &layout.aliases {
        assert_eq!(&SAMPLE[a.name_span.start..a.name_span.end], a.name);
        assert_eq!(&SAMPLE[a.target.name_span.start..a.target.name_span.end], a.target.name);
        assert!(a.span.start <= a.target.span.start && a.target.span.end <= a.span.end);
    }
}
