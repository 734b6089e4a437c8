use simple_rich_text::{RichText, RichText2d, StyleTag};

#[test]
fn richtext_holds_markup() {
    let rt = RichText::new("[red]hello");
    assert_eq!(rt.0, "[red]hello");
}

#[test]
fn richtext2d_holds_markup() {
    let rt = RichText2d::new("[bold]world");
    assert_eq!(rt.0, "[bold]world");
}

#[test]
fn style_tag_holds_name() {
    let tag = StyleTag::new("red");
    assert_eq!(tag.0, "red");
}

#[test]
fn default_style_tag_is_the_empty_name() {
    let tag = StyleTag::default();
    assert_eq!(tag.0, "");
}
