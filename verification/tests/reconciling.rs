use simple_rich_text::{
    rebuild_source, Reconciler, RichTextSource, StyleDefinition, StyleTags,
};

fn def(attrs: &[(&str, &str)]) -> StyleDefinition {
    let mut d = StyleDefinition::new();
    for (key, value) in attrs {
        d.set(key, value);
    }
    d
}

#[test]
fn rebuild_parses_and_resolves() {
    let mut registry = StyleTags::new(def(&[("color", "black")]));
    registry.insert_or_replace("red", def(&[("color", "red")]));
    let built = rebuild_source("plain[red]warm", &registry);
    assert_eq!(built.len(), 2);
    assert_eq!(built[0].value, "plain");
    assert_eq!(built[0].style.get("color"), Some(&"black".to_string()));
    assert_eq!(built[1].value, "warm");
    assert_eq!(built[1].style.get("color"), Some(&"red".to_string()));
}

#[test]
fn rebuild_empty_markup_yields_one_default_section() {
    let registry = StyleTags::new(def(&[("color", "black")]));
    let built = rebuild_source("", &registry);
    assert_eq!(built.len(), 1);
    assert_eq!(built[0].value, "");
    assert_eq!(built[0].style.get("color"), Some(&"black".to_string()));
}

#[test]
fn unchanged_rebuild_is_identical() {
    let mut registry = StyleTags::new(def(&[("color", "black")]));
    registry.insert_or_replace("red", def(&[("color", "red")]));
    let first = rebuild_source("a[red]b", &registry);
    let second = rebuild_source("a[red]b", &registry);
    assert_eq!(first, second);
}

#[test]
fn first_pass_builds_every_source() {
    let registry = StyleTags::new(StyleDefinition::new());
    let mut reconciler = Reconciler::new();
    let mut sources = vec![
        RichTextSource::new(1, "one"),
        RichTextSource::new(2, "two"),
    ];
    let outs = reconciler.run_pass(&mut sources, &registry);
    assert_eq!(outs.len(), 2);
    assert_eq!(outs[0].id, 1);
    assert_eq!(outs[0].sections.len(), 1);
    assert_eq!(outs[0].sections[0].value, "one");
    assert_eq!(outs[1].id, 2);
    assert_eq!(outs[1].sections[0].value, "two");
}

#[test]
fn quiet_pass_rebuilds_nothing() {
    let registry = StyleTags::new(StyleDefinition::new());
    let mut reconciler = Reconciler::new();
    let mut sources = vec![RichTextSource::new(1, "text")];
    let outs = reconciler.run_pass(&mut sources, &registry);
    assert_eq!(outs.len(), 1);
    let outs = reconciler.run_pass(&mut sources, &registry);
    assert_eq!(outs.len(), 0);
}

#[test]
fn registry_change_rebuilds_unchanged_markup() {
    let mut registry = StyleTags::new(def(&[("color", "black")]));
    let mut reconciler = Reconciler::new();
    let mut sources = vec![RichTextSource::new(7, "[red]text")];

    let outs = reconciler.run_pass(&mut sources, &registry);
    assert_eq!(outs.len(), 1);
    assert_eq!(outs[0].sections[0].style.get("color"), Some(&"black".to_string()));

    registry.insert_or_replace("red", def(&[("color", "red")]));
    let outs = reconciler.run_pass(&mut sources, &registry);
    assert_eq!(outs.len(), 1);
    assert_eq!(outs[0].id, 7);
    assert_eq!(outs[0].sections[0].style.get("color"), Some(&"red".to_string()));

    let outs = reconciler.run_pass(&mut sources, &registry);
    assert_eq!(outs.len(), 0);
}

#[test]
fn markup_edit_rebuilds_only_that_source() {
    let registry = StyleTags::new(StyleDefinition::new());
    let mut reconciler = Reconciler::new();
    let mut sources = vec![
        RichTextSource::new(1, "one"),
        RichTextSource::new(2, "two"),
    ];
    reconciler.run_pass(&mut sources, &registry);

    sources[1].set_markup("TWO");
    let outs = reconciler.run_pass(&mut sources, &registry);
    assert_eq!(outs.len(), 1);
    assert_eq!(outs[0].id, 2);
    assert_eq!(outs[0].sections[0].value, "TWO");
}

#[test]
fn removed_source_produces_no_output() {
    let registry = StyleTags::new(StyleDefinition::new());
    let mut reconciler = Reconciler::new();
    let mut sources = vec![
        RichTextSource::new(1, "one"),
        RichTextSource::new(2, "two"),
    ];
    reconciler.run_pass(&mut sources, &registry);

    sources.remove(0);
    sources[0].set_markup("still here");
    let outs = reconciler.run_pass(&mut sources, &registry);
    assert_eq!(outs.len(), 1);
    assert_eq!(outs[0].id, 2);
}

#[test]
fn source_accessors() {
    let mut source = RichTextSource::new(3, "hello");
    assert_eq!(source.id(), 3);
    assert_eq!(source.markup().as_str(), "hello");
    source.set_markup("goodbye");
    assert_eq!(source.markup().as_str(), "goodbye");
}

#[test]
fn pass_output_replaces_wholesale() {
    let registry = StyleTags::new(StyleDefinition::new());
    let mut reconciler = Reconciler::new();
    let mut sources = vec![RichTextSource::new(1, "a[x]b[y]c")];
    let outs = reconciler.run_pass(&mut sources, &registry);
    assert_eq!(outs[0].sections.len(), 3);

    sources[0].set_markup("short");
    let outs = reconciler.run_pass(&mut sources, &registry);
    assert_eq!(outs[0].sections.len(), 1);
    assert_eq!(outs[0].sections[0].value, "short");
}
