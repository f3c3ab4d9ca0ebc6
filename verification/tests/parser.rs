use nvmd::document::model::{plain_text, Block, Inline};
use nvmd::document::parser::parse_markdown;

#[test]
fn parses_mermaid_fenced_code_as_mermaid_block() {
    let document = parse_markdown(
        r#"# Diagram

```mermaid
flowchart LR
  A --> B
```
"#,
    );

    assert!(document
        .blocks
        .iter()
        .any(|block| matches!(block, Block::Mermaid { .. })));
    assert_eq!(document.block_source_lines, vec![1, 3]);
}

#[test]
fn records_source_lines_for_top_level_rendered_blocks() {
    let document = parse_markdown(
        "# Title\n\ntext\n\n- first\n- second\n\n> quoted\n\n---\n\n```rust\nfn main() {}\n```\n",
    );

    assert_eq!(document.block_source_lines, vec![1, 3, 5, 8, 10, 12]);
    assert_eq!(document.block_index_for_line(1), Some(0));
    assert_eq!(document.block_index_for_line(7), Some(2));
    assert_eq!(document.block_index_for_line(13), Some(5));
}

#[test]
fn parses_emphasis_and_strong_as_inline_nodes() {
    let document = parse_markdown("This is *italic* and **bold**.");

    let Block::Paragraph { content } = &document.blocks[0] else {
        panic!("expected paragraph");
    };

    assert!(content
        .iter()
        .any(|inline| matches!(inline, Inline::Emphasis(_))));
    assert!(content
        .iter()
        .any(|inline| matches!(inline, Inline::Strong(_))));
}

#[test]
fn parses_github_table() {
    let document = parse_markdown(
        r#"| Name | Value |
| ---- | ----- |
| one  | two   |
"#,
    );

    let Block::Table { header, rows, .. } = &document.blocks[0] else {
        panic!("expected table");
    };

    assert_eq!(plain_text(&header[0]), "Name");
    assert_eq!(plain_text(&rows[0][1]), "two");
}

#[test]
fn parses_task_list_marker() {
    let document = parse_markdown("- [x] done\n");

    let Block::List { items, .. } = &document.blocks[0] else {
        panic!("expected list");
    };

    assert_eq!(items[0].checked, Some(true));
}
