//! The cascade resolver: folding a section's active tags into one style.
//!
//! Resolution starts from the default style definition and merges each
//! active tag's definition on top, in the order the tags were written in
//! the markup. Later tags overwrite the attributes they bind; attributes
//! they leave unbound keep their earlier values. A tag the registry does
//! not know contributes the default definition instead of failing.

use crate::assoc::assoc_get;
use crate::parser::TextSection;
use crate::registry::{spec_resolve_tag, RegistryView, StyleTags};
use crate::style::{spec_merge, StyleDefinition};
use vstd::prelude::*;

verus! {

/// The cascade from position `i` of the tag list on, folded on top of the
/// accumulated definition `acc`.
pub open spec fn spec_resolve_from(
    tags: Seq<Seq<char>>,
    i: int,
    reg: RegistryView,
    acc: Seq<(Seq<char>, Seq<char>)>,
) -> Seq<(Seq<char>, Seq<char>)>
    decreases tags.len() - i,
{
    if i < 0 || i >= tags.len() {
        acc
    } else {
        spec_resolve_from(tags, i + 1, reg, spec_merge(acc, spec_resolve_tag(reg, tags[i])))
    }
}

/// The resolved style of a section with the given active tags: the default
/// definition first, then each tag's definition merged on top, left to
/// right.
pub open spec fn spec_resolve(tags: Seq<Seq<char>>, reg: RegistryView) -> Seq<
    (Seq<char>, Seq<char>),
> {
    spec_resolve_from(tags, 0, reg, spec_resolve_tag(reg, Seq::<char>::empty()))
}

/// Unknown tag fallback law: a tag the registry does not bind contributes
/// exactly the default definition to the cascade.
pub proof fn lemma_unknown_tag_fallback(reg: RegistryView, tag: Seq<char>)
    requires
        assoc_get(reg, tag) is None,
    ensures
        spec_resolve_tag(reg, tag) == assoc_get(reg, Seq::<char>::empty()).unwrap(),
{
}

/// Resolves the style of one parsed section against the registry; never
/// fails, whatever tags the section references.
#[verifier::loop_isolation(false)]
pub fn resolve_section(section: &TextSection, registry: &StyleTags) -> (r: StyleDefinition)
    requires
        registry.wf(),
    ensures
        r@ == spec_resolve(section.tags.deep_view(), registry@),
        r.wf(),
{
    let ghost tags_view = section.tags.deep_view();
    let mut acc = registry.get_default().duplicate();
    let n = section.tags.len();
    let mut i: usize = 0;
    while i < n
        invariant
            i <= n,
            spec_resolve(tags_view, registry@) == spec_resolve_from(
                tags_view,
                i as int,
                registry@,
                acc@,
            ),
            acc.wf(),
        decreases n - i,
    {
        let style = registry.get_or_default(section.tags[i].as_str());
        acc = acc.merge(style);
        i = i + 1;
    }
    acc
}

} // verus!
