use nvmd::app::TocEntry;
use nvmd::document::model::Inline;
use nvmd::document::parser::parse_markdown;
use nvmd::document::render::{
    count_mermaid_blocks, detect_alert, handle_link_click, heading_to_id, image_placeholder, list_marker, synced_mermaid_index, first_line_break,
    math_text, mml_to_text, table_column_weights, MathDisplay, MIN_COLUMN_CHARS,
};
use nvmd::input::NavigationState;

#[test]
fn heading_anchor_is_lower_case_with_hyphens() {
    assert_eq!(heading_to_id("Hello World"), "hello-world");
    assert_eq!(heading_to_id("What's new? (v2)"), "whats-new-v2");
    assert_eq!(heading_to_id("already-hyphenated"), "already-hyphenated");
    assert_eq!(heading_to_id("Ünïcode Ärger"), "ünïcode-ärger");
    assert_eq!(heading_to_id("snake_case id"), "snake_case-id");
    assert_eq!(heading_to_id("Hello, World!"), "hello-world");
    assert_eq!(heading_to_id("Step 2 - Run"), "step-2---run");
}

#[test]
fn quote_with_marker_is_an_alert() {
    let note = parse_markdown("> [!NOTE]\n> Remember this.\n");
    let nvmd::document::model::Block::Quote { blocks } = &note.blocks[0] else {
        panic!("expected quote");
    };
    assert_eq!(detect_alert(blocks), Some(("ℹ  Note", "note")));

    let bare = parse_markdown("> Note\n");
    let nvmd::document::model::Block::Quote { blocks } = &bare.blocks[0] else {
        panic!("expected quote");
    };
    assert_eq!(detect_alert(blocks), None);
    assert_eq!(detect_alert(&[]), None);

    let document = parse_markdown("> [!warning]\n\n> plain quote\n");
    let nvmd::document::model::Block::Quote { blocks } = &document.blocks[0] else {
        panic!("expected quote");
    };
    assert_eq!(detect_alert(blocks), Some(("⚠  Warning", "warning")));
    let nvmd::document::model::Block::Quote { blocks } = &document.blocks[1] else {
        panic!("expected quote");
    };
    assert_eq!(detect_alert(blocks), None);
}

#[test]
fn mathml_becomes_readable_text() {
    assert_eq!(
        mml_to_text("<math><mi>x</mi><mo>&lt;</mo>  <mn>2</mn></math>"),
        "x< 2"
    );
    assert_eq!(mml_to_text("<mrow> a </mrow>\n<mrow>&amp;&nbsp;b</mrow>"), "a & b");
    assert_eq!(mml_to_text(""), "");
}

#[test]
fn formula_text_falls_back_to_the_latex() {
    let text = math_text("x^2", MathDisplay::Inline);
    assert_eq!(text, "x2");
    assert_eq!(math_text("\\frac{", MathDisplay::Block), "\\frac{");
}

#[test]
fn fragment_link_scrolls_to_its_heading() {
    let toc = vec![
        TocEntry { block_index: 0, level: 1, text: "Intro".to_owned() },
        TocEntry { block_index: 4, level: 2, text: "Getting Started".to_owned() },
    ];
    let mut navigation = NavigationState::default();
    assert!(!handle_link_click("#getting-started", &toc, &mut navigation));
    assert_eq!(navigation.take_source_block(), Some(4));
    assert!(!handle_link_click("#missing", &toc, &mut navigation));
    assert_eq!(navigation.take_source_block(), None);
}

#[test]
fn web_and_mail_links_open_outside() {
    let mut navigation = NavigationState::default();
    assert!(handle_link_click("https://example.com", &[], &mut navigation));
    assert!(handle_link_click("http://example.com", &[], &mut navigation));
    assert!(handle_link_click("mailto:someone@example.com", &[], &mut navigation));
    assert!(!handle_link_click("relative/file.md", &[], &mut navigation));
    assert_eq!(navigation.take_source_block(), None);
}

#[test]
fn counts_diagrams_in_nested_blocks() {
    let document = parse_markdown(
        "```mermaid\ngraph TD\n```\n\n> ```mermaid\n> graph LR\n> ```\n\n- item\n\n  ```mermaid\n  graph TB\n  ```\n",
    );
    assert_eq!(count_mermaid_blocks(&document.blocks), 3);
    assert_eq!(count_mermaid_blocks(&[]), 0);
}

#[test]
fn table_columns_are_weighed_by_their_longest_cell() {
    let document = parse_markdown("| Key | Description |\n| --- | --- |\n| a | a rather long description |\n| b |\n");
    let nvmd::document::model::Block::Table { header, rows, .. } = &document.blocks[0] else {
        panic!("expected table");
    };
    let weights = table_column_weights(header, rows);
    assert_eq!(weights, vec![MIN_COLUMN_CHARS, 25]);
}

#[test]
fn table_without_cells_has_no_columns() {
    let header: Vec<Vec<Inline>> = Vec::new();
    let rows: Vec<Vec<Vec<Inline>>> = Vec::new();
    assert!(table_column_weights(&header, &rows).is_empty());
}

#[test]
fn image_placeholders_prefer_the_alternative_text() {
    assert_eq!(image_placeholder("", None), "[loading image…]");
    assert_eq!(image_placeholder("logo", None), "[loading: logo]");
    assert_eq!(image_placeholder("", Some("not found")), "[image failed: not found]");
    assert_eq!(image_placeholder("logo", Some("not found")), "[logo]");
}

#[test]
fn list_markers_number_from_the_start_or_mark_tasks() {
    assert_eq!(list_marker(true, Some(3), 2, None), "5.");
    assert_eq!(list_marker(true, None, 0, None), "1.");
    assert_eq!(list_marker(true, None, 11, Some(true)), "12.");
    assert_eq!(list_marker(false, None, 0, Some(true)), "✓");
    assert_eq!(list_marker(false, None, 4, Some(false)), "○");
    assert_eq!(list_marker(false, Some(7), 1, None), "·");
}

#[test]
fn synced_block_selects_the_diagram_it_holds() {
    let document = parse_markdown("```mermaid\ngraph A\n```\n\n> ```mermaid\n> graph B\n> ```\n\ntext\n\n```mermaid\ngraph C\n```\n");
    assert_eq!(synced_mermaid_index(&document.blocks, 0), Some(0));
    assert_eq!(synced_mermaid_index(&document.blocks, 2), None);
    assert_eq!(synced_mermaid_index(&document.blocks, 3), Some(2));
}

#[test]
fn alert_body_starts_after_the_first_line_break() {
    let document = parse_markdown("> [!TIP]\n> Use the palette.\n");
    let nvmd::document::model::Block::Quote { blocks } = &document.blocks[0] else {
        panic!("expected quote");
    };
    let nvmd::document::model::Block::Paragraph { content } = &blocks[0] else {
        panic!("expected paragraph");
    };
    let start = first_line_break(content).expect("a line break after the marker");
    assert_eq!(nvmd::document::model::plain_text(&content[start + 1..]), "Use the palette.");
    assert_eq!(first_line_break(&[]), None);
}
