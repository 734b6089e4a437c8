use simple_rich_text::{parse_richtext, tags_or_text, TagsOrText, TextSection};

fn section(value: &str, tags: &[&str]) -> TextSection {
    TextSection {
        value: value.to_string(),
        tags: tags.iter().map(|t| t.to_string()).collect(),
    }
}

#[test]
fn test_parser() {
    assert_eq!(
        tags_or_text("[bold]"),
        Ok(vec![TagsOrText::Tags(vec!["bold".to_string()])])
    );
    assert_eq!(
        tags_or_text("[[horse]]"),
        Ok(vec![TagsOrText::Text("[horse]".to_string())])
    );
    assert_eq!(
        tags_or_text("[bold]Bold Text[italic]Italic Text"),
        Ok(vec![
            TagsOrText::Tags(vec!["bold".to_string()]),
            TagsOrText::Text("Bold Text".to_string()),
            TagsOrText::Tags(vec!["italic".to_string()]),
            TagsOrText::Text("Italic Text".to_string()),
        ])
    );
    assert_eq!(
        tags_or_text("[]Text[]"),
        Ok(vec![
            TagsOrText::Tags(vec![]),
            TagsOrText::Text("Text".to_string()),
            TagsOrText::Tags(vec![]),
        ])
    );
    // escaping
    assert_eq!(
        tags_or_text("[[]]][]"),
        Ok(vec![
            TagsOrText::Text("[]]".to_string()),
            TagsOrText::Tags(vec![]),
        ])
    );
    // multiple
    assert_eq!(
        tags_or_text("[bold,italic]text"),
        Ok(vec![
            TagsOrText::Tags(vec!["bold".to_string(), "italic".to_string()]),
            TagsOrText::Text("text".to_string()),
        ])
    )
}

#[test]
fn test_empty() {
    let sections = parse_richtext("");

    assert_eq!(sections.len(), 1);
    assert_eq!(sections[0].value, "");
}

#[test]
fn empty_input_yields_one_untagged_section() {
    let sections = parse_richtext("");
    assert_eq!(sections, vec![section("", &[])]);
}

#[test]
fn escape_round_trip() {
    let sections = parse_richtext("[[x]]");
    assert_eq!(sections, vec![section("[x]", &[])]);
}

#[test]
fn tag_activation_ordering() {
    let sections = parse_richtext("[bold]Bold Text[italic]Italic Text");
    assert_eq!(
        sections,
        vec![
            section("Bold Text", &["bold"]),
            section("Italic Text", &["italic"]),
        ]
    );
}

#[test]
fn multi_tag_block() {
    let sections = parse_richtext("[bold,italic]text");
    assert_eq!(sections, vec![section("text", &["bold", "italic"])]);
}

#[test]
fn reset_to_default() {
    let sections = parse_richtext("[]Text[]");
    assert_eq!(sections, vec![section("Text", &[]), section("", &[])]);
}

#[test]
fn stray_bracket_tolerance() {
    let sections = parse_richtext("[[]]][]");
    assert_eq!(sections, vec![section("[]]", &[]), section("", &[])]);
}

#[test]
fn plain_text_is_one_section() {
    let sections = parse_richtext("just words");
    assert_eq!(sections, vec![section("just words", &[])]);
}

#[test]
fn consecutive_blocks_only_last_applies() {
    let sections = parse_richtext("[a][b]text");
    assert_eq!(sections, vec![section("text", &["b"])]);
}

#[test]
fn trailing_block_yields_empty_section() {
    let sections = parse_richtext("x[a]");
    assert_eq!(sections, vec![section("x", &[]), section("", &["a"])]);
}

#[test]
fn lone_block_yields_one_tagged_empty_section() {
    let sections = parse_richtext("[a]");
    assert_eq!(sections, vec![section("", &["a"])]);
}

#[test]
fn empty_tag_names_are_kept() {
    let sections = parse_richtext("[a,,b]text");
    assert_eq!(sections, vec![section("text", &["a", "", "b"])]);
}

#[test]
fn bare_close_brackets_are_literal() {
    let sections = parse_richtext("a]b]]c");
    assert_eq!(sections, vec![section("a]b]c", &[])]);
}

#[test]
fn unclosed_block_degrades_to_literal() {
    assert!(tags_or_text("[abc").is_err());
    let sections = parse_richtext("[abc");
    assert_eq!(sections, vec![section("[abc", &[])]);
}

#[test]
fn open_bracket_inside_block_degrades_to_literal() {
    assert!(tags_or_text("[a[b]").is_err());
    let sections = parse_richtext("[a[b]");
    assert_eq!(sections, vec![section("[a[b]", &[])]);
}

#[test]
fn escaped_brackets_mix_with_tags() {
    let sections = parse_richtext("x[[y]]z[red]w");
    assert_eq!(
        sections,
        vec![section("x[y]z", &[]), section("w", &["red"])]
    );
}
