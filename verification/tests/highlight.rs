use nvmd::highlight::{add_highlighted, lines_with_endings, Highlighter, Rgb};

fn spelled(runs: &[(Rgb, String)]) -> String {
    runs.iter().map(|(_, text)| text.as_str()).collect()
}

#[test]
fn highlighted_runs_spell_the_code() {
    let highlighter = Highlighter::new().expect("highlighter");
    let code = "fn main() {\n    let x = 1;\n}\n";
    let runs = highlighter.highlight(code, "rust", true);
    assert!(!runs.is_empty());
    assert_eq!(spelled(&runs), code);
    for pair in runs.windows(2) {
        assert_ne!(pair[0].0, pair[1].0);
    }
}

#[test]
fn unknown_language_falls_back_to_plain_text() {
    let highlighter = Highlighter::new().expect("highlighter");
    let runs = highlighter.highlight("just words", "no-such-language", false);
    assert_eq!(spelled(&runs), "just words");
    assert_eq!(runs.len(), 1);
}

#[test]
fn lines_keep_their_breaks() {
    assert_eq!(lines_with_endings("a\nb\n\nc"), vec!["a\n", "b\n", "\n", "c"]);
    assert!(lines_with_endings("").is_empty());
}

#[test]
fn pieces_of_one_colour_merge() {
    let red = Rgb { r: 255, g: 0, b: 0 };
    let blue = Rgb { r: 0, g: 0, b: 255 };
    let mut runs = vec![(red, "a".to_owned())];
    add_highlighted(
        &mut runs,
        vec![(red, "b".to_owned()), (blue, String::new()), (blue, "c".to_owned()), (red, "d".to_owned())],
    );
    assert_eq!(runs, vec![(red, "ab".to_owned()), (blue, "c".to_owned()), (red, "d".to_owned())]);
}
