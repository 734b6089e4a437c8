use simple_rich_text::{resolve_section, StyleDefinition, StyleTags, TextSection};

fn def(attrs: &[(&str, &str)]) -> StyleDefinition {
    let mut d = StyleDefinition::new();
    for (key, value) in attrs {
        d.set(key, value);
    }
    d
}

fn section(value: &str, tags: &[&str]) -> TextSection {
    TextSection {
        value: value.to_string(),
        tags: tags.iter().map(|t| t.to_string()).collect(),
    }
}

#[test]
fn definition_set_and_get() {
    let mut d = StyleDefinition::new();
    assert_eq!(d.get("color"), None);
    d.set("color", "red");
    assert_eq!(d.get("color"), Some(&"red".to_string()));
    d.set("color", "blue");
    assert_eq!(d.get("color"), Some(&"blue".to_string()));
    d.set("weight", "bold");
    assert_eq!(d.get("color"), Some(&"blue".to_string()));
    assert_eq!(d.get("weight"), Some(&"bold".to_string()));
}

#[test]
fn merge_disjoint_attributes_union() {
    let a = def(&[("color", "red")]);
    let b = def(&[("weight", "bold")]);
    let merged = a.merge(&b);
    assert_eq!(merged.get("color"), Some(&"red".to_string()));
    assert_eq!(merged.get("weight"), Some(&"bold".to_string()));
}

#[test]
fn merge_overlap_later_wins() {
    let a = def(&[("color", "red"), ("font", "serif")]);
    let b = def(&[("weight", "bold"), ("color", "blue")]);
    let merged = a.merge(&b);
    assert_eq!(merged.get("color"), Some(&"blue".to_string()));
    assert_eq!(merged.get("weight"), Some(&"bold".to_string()));
    assert_eq!(merged.get("font"), Some(&"serif".to_string()));
}

#[test]
fn merge_absence_is_non_destructive() {
    let a = def(&[("color", "red")]);
    let empty = StyleDefinition::new();
    let merged = a.merge(&empty);
    assert_eq!(merged.get("color"), Some(&"red".to_string()));
}

#[test]
fn registry_lookup_and_fallback() {
    let mut registry = StyleTags::new(def(&[("color", "black")]));
    registry.insert_or_replace("red", def(&[("color", "red")]));
    assert_eq!(
        registry.get_or_default("red").get("color"),
        Some(&"red".to_string())
    );
    assert_eq!(
        registry.get_or_default("absent").get("color"),
        Some(&"black".to_string())
    );
    assert_eq!(registry.get_default().get("color"), Some(&"black".to_string()));
}

#[test]
fn registry_remove_falls_back_to_default() {
    let mut registry = StyleTags::new(def(&[("color", "black")]));
    registry.insert_or_replace("red", def(&[("color", "red")]));
    assert!(registry.remove("red"));
    assert_eq!(
        registry.get_or_default("red").get("color"),
        Some(&"black".to_string())
    );
}

#[test]
fn registry_default_cannot_be_removed() {
    let mut registry = StyleTags::new(def(&[("color", "black")]));
    let g = registry.generation();
    assert!(!registry.remove(""));
    assert_eq!(registry.generation(), g);
    assert_eq!(registry.get_default().get("color"), Some(&"black".to_string()));
}

#[test]
fn registry_default_can_be_replaced() {
    let mut registry = StyleTags::new(def(&[("color", "black")]));
    registry.insert_or_replace("", def(&[("color", "grey")]));
    assert_eq!(registry.get_default().get("color"), Some(&"grey".to_string()));
    assert_eq!(
        registry.get_or_default("unknown").get("color"),
        Some(&"grey".to_string())
    );
}

#[test]
fn registry_remove_absent_is_noop() {
    let mut registry = StyleTags::new(StyleDefinition::new());
    let g = registry.generation();
    assert!(!registry.remove("missing"));
    assert_eq!(registry.generation(), g);
}

#[test]
fn registry_generation_counts_mutations() {
    let mut registry = StyleTags::new(StyleDefinition::new());
    assert_eq!(registry.generation(), 0);
    registry.insert_or_replace("a", StyleDefinition::new());
    assert_eq!(registry.generation(), 1);
    registry.insert_or_replace("a", def(&[("x", "1")]));
    assert_eq!(registry.generation(), 2);
    assert!(registry.remove("a"));
    assert_eq!(registry.generation(), 3);
}

#[test]
fn resolve_starts_from_default() {
    let registry = StyleTags::new(def(&[("color", "black"), ("font", "serif")]));
    let resolved = resolve_section(&section("text", &[]), &registry);
    assert_eq!(resolved.get("color"), Some(&"black".to_string()));
    assert_eq!(resolved.get("font"), Some(&"serif".to_string()));
}

#[test]
fn resolve_cascades_in_markup_order() {
    let mut registry = StyleTags::new(def(&[("color", "black")]));
    registry.insert_or_replace("red", def(&[("color", "red")]));
    registry.insert_or_replace("blue", def(&[("color", "blue")]));
    let resolved = resolve_section(&section("text", &["red", "blue"]), &registry);
    assert_eq!(resolved.get("color"), Some(&"blue".to_string()));
    let resolved = resolve_section(&section("text", &["blue", "red"]), &registry);
    assert_eq!(resolved.get("color"), Some(&"red".to_string()));
}

#[test]
fn resolve_unknown_tag_degrades_to_default() {
    let registry = StyleTags::new(def(&[("color", "black")]));
    let resolved = resolve_section(&section("text", &["nonexistent"]), &registry);
    assert_eq!(resolved.get("color"), Some(&"black".to_string()));
}

#[test]
fn resolve_mixes_tag_and_default_attributes() {
    let mut registry = StyleTags::new(def(&[("color", "black"), ("font", "serif")]));
    registry.insert_or_replace("bold", def(&[("weight", "bold")]));
    registry.insert_or_replace("red", def(&[("color", "red")]));
    let resolved = resolve_section(&section("text", &["bold", "red"]), &registry);
    assert_eq!(resolved.get("weight"), Some(&"bold".to_string()));
    assert_eq!(resolved.get("color"), Some(&"red".to_string()));
    assert_eq!(resolved.get("font"), Some(&"serif".to_string()));
}

#[test]
fn resolve_empty_tag_name_reads_default_entry() {
    let mut registry = StyleTags::new(def(&[("color", "black")]));
    registry.insert_or_replace("red", def(&[("color", "red")]));
    let resolved = resolve_section(&section("text", &["red", ""]), &registry);
    // the empty tag resolves to the default definition, whose color wins
    assert_eq!(resolved.get("color"), Some(&"black".to_string()));
}
