use nvmd::mermaid::cache::MermaidCache;
use nvmd::mermaid::renderer::{
    er_attribute_rows, er_table_title, participant_index, participant_span, xml_escape,
    MermaidRenderState,
};

fn lines(text: &[&str]) -> Vec<String> {
    text.iter().map(|line| line.to_string()).collect()
}

#[test]
fn cache_key_is_lower_case_hex_sha256() {
    let key = MermaidCache::key("graph TD\n  A --> B\n");
    assert_eq!(key.len(), 64);
    assert!(key.chars().all(|c| c.is_ascii_hexdigit() && !c.is_ascii_uppercase()));
    assert_eq!(key, MermaidCache::key("graph TD\n  A --> B\n"));
    assert_ne!(key, MermaidCache::key("graph TD\n  A --> C\n"));
}

#[test]
fn cache_path_is_the_key_as_svg() {
    let cache = MermaidCache { dir: Some("/tmp/cache".to_owned()) };
    let key = MermaidCache::key("graph TD");
    assert_eq!(cache.path_for("graph TD"), Some(format!("/tmp/cache/{key}.svg")));
    let none = MermaidCache { dir: None };
    assert_eq!(none.path_for("graph TD"), None);
}

#[test]
fn escapes_xml_special_characters() {
    assert_eq!(
        xml_escape("<a href=\"x\">Tom & Jerry's</a>"),
        "&lt;a href=&quot;x&quot;&gt;Tom &amp; Jerry&apos;s&lt;/a&gt;"
    );
    assert_eq!(xml_escape("plain text"), "plain text");
}

#[test]
fn er_attribute_rows_follow_the_divider() {
    let label = lines(&[
        "catalog_items",
        " --- ",
        "VARCHAR sku PK \"UNIQUE when present\"",
        "INT owner FK",
        "lonely",
        "TEXT note \"free text\" trailing",
    ]);
    let rows = er_attribute_rows(&label);
    assert_eq!(rows.len(), 3);
    assert_eq!(rows[0].data_type, "VARCHAR");
    assert_eq!(rows[0].name, "sku");
    assert_eq!(rows[0].key, "PK");
    assert_eq!(rows[0].comment, "\"UNIQUE when present\"");
    assert_eq!((rows[1].key.as_str(), rows[1].comment.as_str()), ("FK", ""));
    assert_eq!((rows[2].key.as_str(), rows[2].comment.as_str()), ("", "\"free text\" trailing"));
}

#[test]
fn er_label_without_divider_has_no_rows_or_title() {
    let label = lines(&["customer", "INT id PK"]);
    assert!(er_attribute_rows(&label).is_empty());
    assert_eq!(er_table_title(&label), None);
}

#[test]
fn er_title_is_the_first_filled_line_before_the_divider() {
    let label = lines(&["", "  ", "orders", "---", "INT id"]);
    assert_eq!(er_table_title(&label), Some("orders".to_owned()));
    let untitled = lines(&["  ", "---"]);
    assert_eq!(er_table_title(&untitled), None);
}

#[test]
fn participants_are_found_by_name() {
    let ids = lines(&["A", "B", "C", "B"]);
    assert_eq!(participant_index(&ids, "B"), Some(1));
    assert_eq!(participant_index(&ids, "Z"), None);
    assert_eq!(participant_span(&ids, &lines(&["C", "A", "Z"])), Some((0, 2)));
    assert_eq!(participant_span(&ids, &lines(&["B"])), Some((1, 1)));
    assert_eq!(participant_span(&ids, &lines(&["Z"])), None);
}

#[test]
fn only_pending_state_is_pending() {
    assert!(MermaidRenderState::Pending.is_pending());
    assert!(!MermaidRenderState::Failed { reason: "x".to_owned() }.is_pending());
}

#[test]
fn escaped_text_reads_back() {
    let text = "a<b & \"c\" 'd' >";
    let escaped = xml_escape(text);
    assert_eq!(escaped, "a&lt;b &amp; &quot;c&quot; &apos;d&apos; &gt;");
    let back = escaped
        .replace("&lt;", "<")
        .replace("&gt;", ">")
        .replace("&quot;", "\"")
        .replace("&apos;", "'")
        .replace("&amp;", "&");
    assert_eq!(back, text);
}
