use nvmd::document::model::Inline;
use nvmd::document::runs::{inline_runs, RunRole};

#[test]
fn inline_runs_carry_styles_colours_and_links() {
    let inlines = vec![
        Inline::Text("a".to_owned()),
        Inline::Strong(vec![Inline::Emphasis(vec![Inline::Text("b".to_owned())])]),
        Inline::Link {
            destination: "https://example.com".to_owned(),
            title: None,
            children: vec![Inline::Text("c".to_owned())],
        },
        Inline::Code("d".to_owned()),
        Inline::SoftBreak,
        Inline::Strikethrough(vec![Inline::Text("e".to_owned())]),
        Inline::Image {
            destination: "x.png".to_owned(),
            title: None,
            alt: vec![Inline::Text("f".to_owned())],
        },
        Inline::HardBreak,
    ];
    let runs = inline_runs(&inlines, false, RunRole::Base);
    let texts: Vec<&str> = runs.iter().map(|r| r.text.as_str()).collect();
    assert_eq!(texts, vec!["a", "b", "c", "d", " ", "e", "![", "f", "]", "\n"]);
    assert_eq!(runs[0].role, RunRole::Base);
    assert_eq!(runs[1].role, RunRole::StrongText);
    assert!(runs[1].italics);
    assert_eq!(runs[2].role, RunRole::Link);
    assert_eq!(runs[2].link.as_deref(), Some("https://example.com"));
    assert_eq!(runs[3].role, RunRole::CodeText);
    assert!(runs[3].code);
    assert!(runs[5].strikethrough);
    assert!(runs.iter().filter(|r| r.link.is_some()).count() == 1);
}

#[test]
fn strong_labels_draw_everything_in_the_strong_colour() {
    let inlines = vec![Inline::Code("x".to_owned()), Inline::Text("y".to_owned())];
    let runs = inline_runs(&inlines, true, RunRole::Base);
    assert!(runs.iter().all(|r| r.role == RunRole::StrongText));
    assert!(runs[0].code && !runs[1].code);
}

#[test]
fn formulas_become_italic_text() {
    let runs = inline_runs(&[Inline::Math("x".to_owned())], false, RunRole::Base);
    assert_eq!(runs.len(), 1);
    assert!(runs[0].math && runs[0].italics);
    assert_eq!(runs[0].role, RunRole::StrongText);
    assert!(!runs[0].text.is_empty());
}
