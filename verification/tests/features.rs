use noti_lsp::document::Document;
use noti_lsp::features::completion::{completion_trigger_chars, get_completions};
use noti_lsp::features::definition::goto_definition;
use noti_lsp::features::diagnostics::make_diagnostics;
use noti_lsp::features::hover::get_hover;
use noti_lsp::features::inlay_hints::get_inlay_hints;
use noti_lsp::features::rename::{prepare_rename, rename, rename_with};
use noti_lsp::protocol::{CompletionItemKind, DiagnosticSeverity, Position, Range, TextEdit};

const SAMPLE: &str = "alias Title = Text(kind = title, style = bold)
FlexContainer(direction = vertical, spacing = Spacing(10), max_width = 300) {
    Title(font_size = 14),
    Image(max_size = 64),
}
";

const URI: &str = "file:///home/user/layout.noti";

fn pos(line: u32, character: u32) -> Position {
    Position { line, character }
}

fn range(l1: u32, c1: u32, l2: u32, c2: u32) -> Range {
    Range { start: pos(l1, c1), end: pos(l2, c2) }
}

fn sample() -> Document {
    Document::new(SAMPLE.to_string())
}

fn hover_text(doc: &Document, p: Position) -> Option<String> {
    get_hover(doc, p).map(|h| h.contents)
}

// ---------------------------------------------------------------- diagnostics

#[test]
fn valid_document_has_no_diagnostics() {
    assert!(make_diagnostics(&sample()).is_empty());
}

#[test]
fn semantic_problems_are_reported_in_order() {
    let doc = Document::new(
        "FlexContainer(direction = diagonal, foo = 1, max_width = 2, max_width = 3) {\n  Bogus(),\n}"
            .to_string(),
    );
    let ds = make_diagnostics(&doc);
    assert_eq!(ds.len(), 4);
    assert_eq!(
        ds[0].message,
        "Invalid value `diagonal` for `direction` on `FlexContainer`\nExpected one of: horizontal, vertical"
    );
    assert_eq!(ds[0].severity, DiagnosticSeverity::Error);
    assert_eq!(ds[0].range, range(0, 26, 0, 34));
    assert_eq!(ds[1].message, "Unknown property `foo` on `FlexContainer`");
    assert_eq!(ds[1].range, range(0, 36, 0, 39));
    assert_eq!(ds[2].message, "Duplicate property `max_width`");
    assert_eq!(ds[2].severity, DiagnosticSeverity::Warning);
    assert_eq!(ds[2].range, range(0, 60, 0, 69));
    assert_eq!(ds[3].message, "Unknown component `Bogus`");
    assert_eq!(ds[3].range, range(1, 2, 1, 7));
}

#[test]
fn type_mismatches_are_reported() {
    let doc = Document::new(
        "FlexContainer(spacing = Border(), border = 3, max_width = Spacing(1), direction = 4, min_width = wide, alignment = left)"
            .to_string(),
    );
    let ds = make_diagnostics(&doc);
    let messages: Vec<&str> = ds.iter().map(|d| d.message.as_str()).collect();
    assert_eq!(
        messages,
        vec![
            "Expected `Spacing` for `spacing`, found `Border`",
            "Expected `Border(...)` for `border`, found an integer",
            "Expected an integer for `max_width`, found a type `Spacing`",
            "Expected one of [horizontal, vertical] for `direction`, found an integer",
            "Expected an integer for `min_width`, found `wide`",
            "Expected `Alignment(...)` for `alignment`, found `left`",
        ]
    );
}

#[test]
fn unknown_alias_target_and_positional_values() {
    let doc = Document::new(
        "alias A = Nope()\nFlexContainer(border = Border(2), spacing = Spacing(x))".to_string(),
    );
    let messages: Vec<String> = make_diagnostics(&doc).into_iter().map(|d| d.message).collect();
    assert_eq!(
        messages,
        vec![
            "Unknown type `Nope`".to_string(),
            "`Border` does not accept a positional value".to_string(),
            "Expected an integer for `Spacing`, found `x`".to_string(),
        ]
    );
}

#[test]
fn aliases_are_followed_in_checks() {
    let doc = Document::new(
        "alias Gap = Spacing(4)\nalias Box = FlexContainer()\nBox(spacing = Gap(), colour = red)".to_string(),
    );
    let ds = make_diagnostics(&doc);
    assert_eq!(ds.len(), 1);
    assert_eq!(ds[0].message, "Unknown property `colour` on `FlexContainer`");
}

#[test]
fn syntax_error_is_the_only_diagnostic() {
    let doc = Document::new("FlexContainer(\n  max_width = ,\n)".to_string());
    let ds = make_diagnostics(&doc);
    assert_eq!(ds.len(), 1);
    assert_eq!(ds[0].message, "expected a value");
    assert_eq!(ds[0].severity, DiagnosticSeverity::Error);
    assert_eq!(ds[0].range, range(1, 14, 1, 15));
}

// ---------------------------------------------------------------- hover

#[test]
fn hover_on_alias_declaration() {
    assert_eq!(
        hover_text(&sample(), pos(0, 7)).unwrap(),
        "**alias** `Title` = `Text(...)`\n\nDisplays a text element from the notification payload."
    );
}

#[test]
fn hover_on_alias_of_unknown_type() {
    let doc = Document::new("alias A = Mystery()\nFlexContainer()".to_string());
    assert_eq!(
        hover_text(&doc, pos(0, 6)).unwrap(),
        "**alias** `A` = `Mystery(...)`\n\nUser-defined alias"
    );
}

#[test]
fn hover_on_component_lists_properties() {
    let text = hover_text(&Document::new("Border()".to_string()), pos(0, 1)).unwrap();
    assert_eq!(
        text,
        "**`Border`**\n\nDraws a border around a container.\n\n**Properties:**\n- `size` — Border thickness in pixels.\n- `radius` — Corner radius in pixels."
    );
}

#[test]
fn hover_on_alias_use() {
    assert_eq!(hover_text(&sample(), pos(2, 5)).unwrap(), "**alias** `Title` = `Text(...)`");
}

#[test]
fn hover_on_unknown_component() {
    let doc = Document::new("Widget()".to_string());
    assert_eq!(hover_text(&doc, pos(0, 0)).unwrap(), "`Widget` — unknown type");
}

#[test]
fn hover_on_property_keys() {
    let doc = sample();
    assert_eq!(
        hover_text(&doc, pos(1, 60)).unwrap(),
        "**`max_width`** — Maximum width in pixels.\n\n*Value:* unsigned integer"
    );
    assert_eq!(
        hover_text(&doc, pos(1, 15)).unwrap(),
        "**`direction`** — The direction children are laid out.\n\n*Value:* `horizontal` | `vertical` (enum)"
    );
    assert_eq!(
        hover_text(&doc, pos(2, 11)).unwrap(),
        "**`font_size`** — Font size in points.\n\n*Value:* unsigned integer"
    );
    let unknown = Document::new("Text(colour = red)".to_string());
    assert_eq!(hover_text(&unknown, pos(0, 6)).unwrap(), "`colour` — unknown property on `Text`");
}

#[test]
fn hover_on_values() {
    let doc = sample();
    assert_eq!(
        hover_text(&doc, pos(1, 27)).unwrap(),
        "`vertical` ✓\n\nAllowed values: `horizontal`, `vertical`"
    );
    assert_eq!(hover_text(&doc, pos(1, 72)).unwrap(), "`300` — unsigned integer");
    assert_eq!(hover_text(&doc, pos(1, 55)), None);
    let bad = Document::new("Text(kind = footer)".to_string());
    assert_eq!(
        hover_text(&bad, pos(0, 13)).unwrap(),
        "`footer` ✗ — not a valid value\n\nAllowed: `title`, `summary`, `body`"
    );
}

#[test]
fn no_hover_without_layout_or_outside_names() {
    assert_eq!(hover_text(&Document::new("Text(".to_string()), pos(0, 1)), None);
    assert_eq!(hover_text(&sample(), pos(4, 0)), None);
}

// ---------------------------------------------------------------- completion

#[test]
fn trigger_characters() {
    assert_eq!(completion_trigger_chars(), vec!["(", ",", " ", "="]);
}

#[test]
fn completes_property_keys_inside_parens() {
    let doc = Document::new("FlexContainer()".to_string());
    let items = get_completions(&doc, pos(0, 14));
    let labels: Vec<&str> = items.iter().map(|i| i.label.as_str()).collect();
    assert_eq!(
        labels,
        vec![
            "direction", "spacing", "alignment", "border", "max_width", "max_height", "min_width",
            "min_height"
        ]
    );
    let first = &items[0];
    assert_eq!(first.kind, CompletionItemKind::Field);
    assert_eq!(first.detail.as_deref(), Some("The direction children are laid out."));
    assert_eq!(
        first.documentation.as_deref(),
        Some("The direction children are laid out.\n\n*Value:* `horizontal` | `vertical`")
    );
    assert_eq!(first.insert_text.as_deref(), Some("direction = ${1|horizontal,vertical|}"));
    assert!(first.snippet);
    assert_eq!(items[1].insert_text.as_deref(), Some("spacing = Spacing(\n  $0\n)"));
    assert_eq!(items[4].insert_text.as_deref(), Some("max_width = $0"));
}

#[test]
fn completes_type_names_on_alias_target() {
    let doc = Document::new("alias T = Text()\nFlexContainer()".to_string());
    let items = get_completions(&doc, pos(0, 11));
    let labels: Vec<&str> = items.iter().map(|i| i.label.as_str()).collect();
    assert_eq!(labels, vec!["FlexContainer", "Text", "Image", "Spacing", "Alignment", "Border", "T"]);
    assert_eq!(items[0].insert_text.as_deref(), Some("FlexContainer(\n  $0\n)"));
    assert_eq!(items[6].detail.as_deref(), Some("alias for Text()"));
    assert_eq!(items[6].insert_text.as_deref(), Some("T(\n  $0\n)"));
    assert!(items.iter().all(|i| i.kind == CompletionItemKind::Class));
}

#[test]
fn completes_enum_values_with_word_range() {
    let doc = Document::new("Text(kind = ti)".to_string());
    let items = get_completions(&doc, pos(0, 13));
    let labels: Vec<&str> = items.iter().map(|i| i.label.as_str()).collect();
    assert_eq!(labels, vec!["title", "summary", "body"]);
    let edit: &TextEdit = items[1].text_edit.as_ref().unwrap();
    assert_eq!(edit.range, range(0, 12, 0, 14));
    assert_eq!(edit.new_text, "summary");
    assert_eq!(items[1].kind, CompletionItemKind::EnumMember);
}

#[test]
fn completes_integer_and_type_values() {
    let doc = Document::new("Text(font_size = 1)".to_string());
    let items = get_completions(&doc, pos(0, 17));
    assert_eq!(items.len(), 1);
    assert_eq!(items[0].label, "0");
    assert_eq!(items[0].kind, CompletionItemKind::Value);
    assert_eq!(items[0].insert_text.as_deref(), Some("$0"));

    let doc = Document::new("FlexContainer(spacing = x)".to_string());
    let items = get_completions(&doc, pos(0, 24));
    assert_eq!(items.len(), 1);
    assert_eq!(items[0].label, "Spacing");
    assert_eq!(items[0].insert_text.as_deref(), Some("Spacing(\n  $0\n)"));
}

#[test]
fn completes_keys_of_aliased_component() {
    let doc = sample();
    let items = get_completions(&doc, pos(2, 11));
    assert_eq!(items.len(), 8);
    assert_eq!(items[0].label, "kind");
}

#[test]
fn no_completions_without_layout_or_outside_root() {
    assert!(get_completions(&Document::new("Text(".to_string()), pos(0, 5)).is_empty());
    assert!(get_completions(&sample(), pos(0, 2)).is_empty());
}

// ---------------------------------------------------------------- inlay hints

#[test]
fn inlay_hints_show_units() {
    let doc = sample();
    let hints = get_inlay_hints(&doc, range(0, 0, 10, 0));
    let labels: Vec<&str> = hints.iter().map(|h| h.label.as_str()).collect();
    assert_eq!(labels, vec!["all sides", "px", "pt", "px"]);
    assert_eq!(hints[0].position, pos(1, 56));
    assert_eq!(hints[1].position, pos(1, 74));
    assert_eq!(hints[2].position, pos(2, 24));
    assert_eq!(hints[3].position, pos(3, 23));
}

#[test]
fn inlay_hints_respect_the_range() {
    let doc = sample();
    let hints = get_inlay_hints(&doc, range(2, 0, 2, 30));
    let labels: Vec<&str> = hints.iter().map(|h| h.label.as_str()).collect();
    assert_eq!(labels, vec!["pt"]);
}

#[test]
fn inlay_hints_inside_nested_values() {
    let doc = Document::new("FlexContainer(spacing = Spacing(top = 1), border = Border(size = 2))".to_string());
    let hints = get_inlay_hints(&doc, range(0, 0, 0, 200));
    let labels: Vec<&str> = hints.iter().map(|h| h.label.as_str()).collect();
    assert_eq!(labels, vec!["px", "px"]);
}

#[test]
fn no_inlay_hints_without_layout() {
    assert!(get_inlay_hints(&Document::new("(".to_string()), range(0, 0, 1, 0)).is_empty());
}

// ---------------------------------------------------------------- definition

#[test]
fn goto_definition_of_alias_use() {
    let loc = goto_definition(&sample(), pos(2, 6), URI).unwrap();
    assert_eq!(loc.uri, URI);
    assert_eq!(loc.range, range(0, 6, 0, 11));
}

#[test]
fn goto_definition_of_builtin_is_none() {
    assert!(goto_definition(&sample(), pos(1, 3), URI).is_none());
    assert!(goto_definition(&sample(), pos(3, 5), URI).is_none());
}

// ---------------------------------------------------------------- rename

#[test]
fn prepare_rename_on_alias_use() {
    let p = prepare_rename(&sample(), pos(2, 6)).unwrap();
    assert_eq!(p.range, range(2, 4, 2, 9));
    assert_eq!(p.placeholder, "Title");
}

#[test]
fn prepare_rename_on_builtin_is_none() {
    assert!(prepare_rename(&sample(), pos(1, 3)).is_none());
    assert!(prepare_rename(&sample(), pos(0, 15)).is_none());
}

#[test]
fn rename_edits_declaration_and_uses() {
    let doc = Document::new(
        "alias Card = FlexContainer()\nalias Inner = Card()\nCard(spacing = Spacing(1)) {\n  Card(),\n  Inner(),\n}"
            .to_string(),
    );
    let we = rename(&doc, pos(2, 1), "Panel".to_string(), URI.to_string()).unwrap();
    assert_eq!(we.uri, URI);
    let ranges: Vec<Range> = we.edits.iter().map(|e| e.range).collect();
    assert_eq!(
        ranges,
        vec![range(0, 6, 0, 10), range(2, 0, 2, 4), range(3, 2, 3, 6), range(1, 14, 1, 18)]
    );
    assert!(we.edits.iter().all(|e| e.new_text == "Panel"));
}

#[test]
fn rename_from_declaration_covers_cursor() {
    let doc = sample();
    let p = prepare_rename(&doc, pos(0, 8)).unwrap();
    let we = rename(&doc, pos(0, 8), "Heading".to_string(), URI.to_string()).unwrap();
    assert!(we.edits.iter().any(|e| e.range == p.range));
    assert_eq!(we.edits.len(), 2);
}

#[test]
fn rename_needs_a_url() {
    let doc = sample();
    assert!(rename(&doc, pos(2, 6), "Heading".to_string(), "not a url".to_string()).is_none());
    assert!(rename(&doc, pos(2, 6), "Heading".to_string(), URI.to_string()).is_some());
    assert!(rename_with(&doc, pos(2, 6), "Heading".to_string(), URI.to_string(), false).is_none());
    assert!(rename_with(&doc, pos(2, 6), "Heading".to_string(), "x".to_string(), true).is_some());
}

#[test]
fn rename_without_name_is_none() {
    assert!(rename(&sample(), pos(1, 3), "X".to_string(), URI.to_string()).is_none());
    assert!(rename(&Document::new("(".to_string()), pos(0, 0), "X".to_string(), URI.to_string()).is_none());
}

#[test]
fn nothing_to_complete_past_the_end() {
    let doc = Document::new("Text(kind = title)".to_string());
    assert!(get_completions(&doc, pos(0, 18)).is_empty());
    assert!(get_completions(&doc, pos(0, 40)).is_empty());
    let doc = Document::new("Text()\n".to_string());
    assert!(get_completions(&doc, pos(1, 5)).is_empty());
}

#[test]
fn rename_is_offered_exactly_where_prepared() {
    let doc = Document::new(
        "alias Card = FlexContainer()\nalias Inner = Card(spacing = Spacing(1))\nCard() {\n  Inner(),\n  Text(),\n}"
            .to_string(),
    );
    let mut offered = 0;
    for offset in 0..doc.source.len() {
        let p = doc.offset_to_position(offset);
        let prepared = prepare_rename(&doc, p);
        let renamed = rename(&doc, p, "New".to_string(), URI.to_string());
        assert_eq!(prepared.is_some(), renamed.is_some(), "at {offset}");
        if let (Some(prep), Some(we)) = (prepared, renamed) {
            offered += 1;
            assert!(we.edits.iter().all(|e| e.new_text == "New"));
            assert!(we.edits.iter().any(|e| e.range == prep.range));
        }
    }
    assert!(offered > 0);
}

#[test]
fn completes_type_names_on_component_name() {
    let doc = sample();
    let on_root = get_completions(&doc, pos(1, 3));
    let labels: Vec<&str> = on_root.iter().map(|i| i.label.as_str()).collect();
    assert_eq!(labels, vec!["FlexContainer", "Text", "Image", "Spacing", "Alignment", "Border", "Title"]);
    let on_child = get_completions(&doc, pos(3, 6));
    assert_eq!(on_child.len(), 7);
    assert!(on_child.iter().all(|i| i.kind == CompletionItemKind::Class));
}

#[test]
fn only_integer_properties_get_units() {
    let doc = Document::new(
        "Text(font_size = 1, line_spacing = 2, kind = 3, margin = Spacing(left = 4))".to_string(),
    );
    let hints = get_inlay_hints(&doc, range(0, 0, 0, 100));
    let labels: Vec<&str> = hints.iter().map(|h| h.label.as_str()).collect();
    assert_eq!(labels, vec!["pt", "px", "px"]);
}

#[test]
fn completes_type_names_just_after_component_name() {
    let doc = Document::new("Text()".to_string());
    let items = get_completions(&doc, pos(0, 4));
    assert_eq!(items.len(), 6);
    assert_eq!(items[0].label, "FlexContainer");
    let inside = get_completions(&doc, pos(0, 5));
    assert_eq!(inside[0].label, "kind");
}
