//! A library for resolving a small inline rich-text markup language.
//!
//! Markup is plain text interspersed with bracketed style-tag directives
//! (`[bold]`, `[bold,italic]`, `[]`, with `[[` and `]]` as escapes). The
//! library parses such a string into ordered text sections, resolves each
//! section's style by cascading named style definitions from a registry,
//! and reconciles previously produced output when either the markup or the
//! registry changes.

use vstd::prelude::*;

pub mod assoc;
pub mod parser;
pub mod reconcile;
pub mod registry;
pub mod resolve;
pub mod strings;
pub mod style;

pub use parser::{parse_richtext, tags_or_text, ParseError, TagsOrText, TextSection};
pub use reconcile::{rebuild_source, Reconciler, ResolvedSection, RichTextSource, SourceOutput};
pub use registry::StyleTags;
pub use resolve::resolve_section;
pub use style::StyleDefinition;

verus! {

/// The top-level markup holder for rich text attached to UI-space text.
pub struct RichText(pub String);

impl RichText {
    /// Creates a new [`RichText`] with the provided markup.
    pub fn new(markup: &str) -> (r: Self)
        ensures
            r.0@ == markup@,
    {
        RichText(markup.to_owned())
    }
}

/// The top-level markup holder for rich text attached to world-space text.
pub struct RichText2d(pub String);

impl RichText2d {
    /// Creates a new [`RichText2d`] with the provided markup.
    pub fn new(markup: &str) -> (r: Self)
        ensures
            r.0@ == markup@,
    {
        RichText2d(markup.to_owned())
    }
}

/// A named handle for a style definition; markup refers to styles by this
/// name. The empty string is the reserved name of the default style.
pub struct StyleTag(pub String);

impl StyleTag {
    /// Creates a new `StyleTag` with the provided tag.
    pub fn new(tag: &str) -> (r: Self)
        ensures
            r.0@ == tag@,
    {
        StyleTag(tag.to_owned())
    }
}

impl Default for StyleTag {
    /// The default tag is the reserved empty name.
    fn default() -> (r: Self)
        ensures
            r.0@ == Seq::<char>::empty(),
    {
        StyleTag(String::new())
    }
}

/// A marker for the style definition that is registered under the reserved
/// default tag (`""`).
pub struct DefaultStyle;

} // verus!
