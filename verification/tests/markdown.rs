use cheese_paper::markdown::{Item, Parser, Style};
use cheese_paper::highlight::highlight_segments;

#[test]
fn test_basic_text_parser() {
    let items: Vec<_> = Parser::new("*italic* **bold**").collect();
    assert_eq!(
        items,
        vec![
            Item::Text(
                Style {
                    italic: true,
                    ..Default::default()
                },
                "italic"
            ),
            Item::Text(
                Style {
                    ..Default::default()
                },
                " "
            ),
            Item::Text(
                Style {
                    strong: true,
                    ..Default::default()
                },
                "bold"
            ),
        ]
    );
}

#[test]
fn test_complex_markdown() {
    let items: Vec<_> = Parser::new(
        r#"none**bold*both**
*italic***bold"#,
    )
    .collect();
    assert_eq!(
        items,
        vec![
            Item::Text(
                Style {
                    ..Default::default()
                },
                "none"
            ),
            Item::Text(
                Style {
                    strong: true,
                    ..Default::default()
                },
                "bold"
            ),
            Item::Text(
                Style {
                    strong: true,
                    italic: true,
                    ..Default::default()
                },
                "both"
            ),
            Item::Newline,
            Item::Text(
                Style {
                    italic: true,
                    ..Default::default()
                },
                "italic"
            ),
            Item::Text(
                Style {
                    strong: true,
                    ..Default::default()
                },
                "bold"
            ),
        ]
    );
}

#[test]
fn parser_keeps_text_without_markers() {
    let items: Vec<_> = Parser::new("a*b**c\nd").collect();
    let mut text = String::new();
    for item in &items {
        match item {
            Item::Text(_, s) => text.push_str(s),
            Item::Newline => text.push('\n'),
        }
    }
    assert_eq!(text, "abc\nd");
}

#[test]
fn parser_newline_resets_style() {
    let items: Vec<_> = Parser::new("*a\nb").collect();
    assert_eq!(
        items,
        vec![
            Item::Text(Style { strong: false, italic: true }, "a"),
            Item::Newline,
            Item::Text(Style::default(), "b"),
        ]
    );
}

#[test]
fn parser_empty_input() {
    let items: Vec<_> = Parser::new("").collect();
    assert!(items.is_empty());
}

#[test]
fn highlight_keeps_every_character() {
    let text = "plain **bold** *it*\nnext";
    let segments = highlight_segments(text);
    let mut joined = String::new();
    for s in &segments {
        joined.push_str(s.text);
    }
    assert_eq!(joined, text);
}

#[test]
fn highlight_styles_runs() {
    let segments = highlight_segments("a**b**c");
    let runs: Vec<(&str, bool, bool)> = segments.iter().map(|s| (s.text, s.style.strong, s.style.italic)).collect();
    assert_eq!(runs, vec![("a", false, false), ("**b", true, false), ("**", true, false), ("c", false, false)]);
}

#[test]
fn newline_resets_style() {
    let before = "**open *both";
    let after = "plain *it*";
    let joined = format!("{before}\n{after}");
    let all: Vec<Item> = Parser::new(&joined).collect();
    let mut expected: Vec<Item> = Parser::new(before).collect();
    expected.push(Item::Newline);
    expected.extend(Parser::new(after).collect());
    assert_eq!(all, expected);
    assert_eq!(all[3], Item::Text(Style::default(), "plain "));
}

#[test]
fn parse_items_bounded() {
    for s in ["", "*", "**", "a*b**c\n\n*", "***\n**\n*", "plain text"] {
        let items: Vec<Item> = Parser::new(s).collect();
        assert!(items.len() <= s.chars().count());
    }
}
