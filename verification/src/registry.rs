//! The style registry: a mapping from tag names to style definitions.
//!
//! The empty tag name is reserved for the default style: it is present
//! from construction on and cannot be removed, so lookups never fail —
//! an unknown tag falls back to the default definition. Every mutation
//! advances a generation counter, which is how the reconciler detects
//! that anything at all changed since it last looked.

use crate::assoc::{
    assoc_get, assoc_remove, assoc_set, assoc_wf, lemma_get_first_match, lemma_get_none,
    lemma_remove_is_excise, lemma_remove_wf, lemma_set_get, lemma_set_is_push,
    lemma_set_is_update, lemma_set_wf,
};
use crate::strings::str_eq;
use crate::style::StyleDefinition;
use vstd::pervasive::VecAdditionalExecFns;
use vstd::prelude::*;

verus! {

/// The tag-to-definition view of a registry.
pub type RegistryView = Seq<(Seq<char>, Seq<(Seq<char>, Seq<char>)>)>;

/// The definition a tag resolves to: its own binding where the registry
/// has one, the default definition otherwise.
pub open spec fn spec_resolve_tag(reg: RegistryView, tag: Seq<char>) -> Seq<
    (Seq<char>, Seq<char>),
> {
    match assoc_get(reg, tag) {
        Some(d) => d,
        None => assoc_get(reg, Seq::<char>::empty()).unwrap(),
    }
}

/// A registry of named style definitions with a change counter.
#[derive(Debug, PartialEq, Eq)]
pub struct StyleTags {
    entries: Vec<(String, StyleDefinition)>,
    generation: u64,
}

impl View for StyleTags {
    type V = RegistryView;

    closed spec fn view(&self) -> RegistryView {
        self.entries.deep_view()
    }
}

impl StyleTags {
    /// The number of mutations this registry has seen.
    pub closed spec fn spec_generation(&self) -> u64 {
        self.generation
    }

    /// Tag names are bound at most once, the default tag is bound, and
    /// every bound definition is well formed.
    pub open spec fn wf(&self) -> bool {
        &&& assoc_wf(self@)
        &&& assoc_get(self@, Seq::<char>::empty()) is Some
        &&& forall|i: int| 0 <= i < self@.len() ==> assoc_wf(#[trigger] self@[i].1)
    }

    /// A registry holding only the given default style, bound to the
    /// reserved empty tag name.
    pub fn new(default: StyleDefinition) -> (r: Self)
        requires
            default.wf(),
        ensures
            r.wf(),
            r@ == seq![(Seq::<char>::empty(), default@)],
            r.spec_generation() == 0,
    {
        let ghost default_view = default@;
        let mut entries: Vec<(String, StyleDefinition)> = Vec::new();
        entries.push((String::new(), default));
        let r = StyleTags { entries, generation: 0 };
        proof {
            assert(r@ =~= seq![(Seq::<char>::empty(), default_view)]);
        }
        r
    }

    /// The current change counter; it differs from any earlier reading
    /// exactly when a mutation happened in between.
    pub fn generation(&self) -> (g: u64)
        ensures
            g == self.spec_generation(),
    {
        self.generation
    }

    /// The index of the entry for `tag`, reading the first match.
    #[verifier::loop_isolation(false)]
    fn find(&self, tag: &str) -> (r: Option<usize>)
        ensures
            match r {
                Some(i) => {
                    &&& i < self@.len()
                    &&& self@[i as int].0 == tag@
                    &&& assoc_get(self@, tag@) == Some(self@[i as int].1)
                },
                None => assoc_get(self@, tag@) is None,
            },
    {
        let n = self.entries.len();
        let mut i: usize = 0;
        while i < n
            invariant
                i <= n,
                forall|k: int| 0 <= k < i ==> self@[k].0 != tag@,
            decreases n - i,
        {
            if str_eq(self.entries[i].0.as_str(), tag) {
                proof {
                    lemma_get_first_match(self@, tag@, i as int);
                }
                return Some(i);
            }
            i = i + 1;
        }
        proof {
            lemma_get_none(self@, tag@);
        }
        None
    }

    /// The definition bound to the reserved default tag.
    pub fn get_default(&self) -> (r: &StyleDefinition)
        requires
            self.wf(),
        ensures
            assoc_get(self@, Seq::<char>::empty()) == Some(r@),
            assoc_wf(r@),
    {
        proof {
            reveal_strlit("");
            assert(""@ =~= Seq::<char>::empty());
        }
        match self.find("") {
            Some(i) => {
                proof {
                    assert(assoc_wf(self@[i as int].1));
                }
                &self.entries[i].1
            },
            None => vstd::pervasive::unreached(),
        }
    }

    /// The definition for `tag`, falling back to the default definition
    /// where `tag` is not bound; never fails.
    pub fn get_or_default(&self, tag: &str) -> (r: &StyleDefinition)
        requires
            self.wf(),
        ensures
            r@ == spec_resolve_tag(self@, tag@),
            assoc_wf(r@),
    {
        match self.find(tag) {
            Some(i) => {
                proof {
                    assert(assoc_wf(self@[i as int].1));
                }
                &self.entries[i].1
            },
            None => {
                let d = self.get_default();
                proof {
                    crate::assoc::lemma_get_index(self@, Seq::<char>::empty());
                    let i0 = choose|i0: int|
                        0 <= i0 < self@.len() && self@[i0].0 == Seq::<char>::empty()
                            && self@[i0].1 == assoc_get(self@, Seq::<char>::empty()).unwrap();
                    assert(assoc_wf(self@[i0].1));
                }
                d
            },
        }
    }

    /// Binds `tag` to `def`, replacing any earlier binding, and advances
    /// the change counter.
    #[verifier::loop_isolation(false)]
    pub fn insert_or_replace(&mut self, tag: &str, def: StyleDefinition)
        requires
            old(self).wf(),
            def.wf(),
            old(self).spec_generation() < u64::MAX,
        ensures
            final(self).wf(),
            final(self)@ == assoc_set(old(self)@, tag@, def@),
            final(self).spec_generation() == old(self).spec_generation() + 1,
    {
        let ghost old_view = self@;
        let ghost def_view = def@;
        let found = self.find(tag);
        match found {
            Some(i) => {
                self.entries.set(i, (tag.to_owned(), def));
                proof {
                    assert(self@ =~= old_view.update(i as int, (tag@, def_view)));
                    lemma_first_match_prefix(old_view, tag@, i as int);
                    lemma_set_is_update(old_view, tag@, def_view, i as int);
                    assert forall|q: int| 0 <= q < self@.len() implies assoc_wf(
                        #[trigger] self@[q].1,
                    ) by {
                        if q != i {
                            assert(self@[q] == old_view[q]);
                        }
                    }
                }
            },
            None => {
                self.entries.push((tag.to_owned(), def));
                proof {
                    assert(self@ =~= old_view.push((tag@, def_view)));
                    lemma_get_none(old_view, tag@);
                    lemma_set_is_push(old_view, tag@, def_view);
                    assert forall|q: int| 0 <= q < self@.len() implies assoc_wf(
                        #[trigger] self@[q].1,
                    ) by {
                        if q < old_view.len() {
                            assert(self@[q] == old_view[q]);
                        }
                    }
                }
            },
        }
        self.generation = self.generation + 1;
        proof {
            lemma_set_wf(old_view, tag@, def_view);
            lemma_set_get(old_view, tag@, def_view, Seq::<char>::empty());
        }
    }

    /// Unbinds `tag` and advances the change counter; removing the
    /// reserved default tag, or a tag that is not bound, changes nothing.
    #[verifier::loop_isolation(false)]
    pub fn remove(&mut self, tag: &str) -> (removed: bool)
        requires
            old(self).wf(),
            old(self).spec_generation() < u64::MAX,
        ensures
            final(self).wf(),
            removed == !(tag@ == Seq::<char>::empty() || assoc_get(old(self)@, tag@) is None),
            removed ==> final(self)@ == assoc_remove(old(self)@, tag@)
                && final(self).spec_generation() == old(self).spec_generation() + 1,
            !removed ==> *final(self) == *old(self),
    {
        proof {
            reveal_strlit("");
            assert(""@ =~= Seq::<char>::empty());
        }
        if str_eq(tag, "") {
            return false;
        }
        let ghost old_view = self@;
        match self.find(tag) {
            Some(i) => {
                self.entries.remove(i);
                self.generation = self.generation + 1;
                proof {
                    assert(self@ =~= old_view.subrange(0, i as int) + old_view.subrange(
                        i + 1,
                        old_view.len() as int,
                    ));
                    lemma_first_match_prefix(old_view, tag@, i as int);
                    lemma_remove_is_excise(old_view, tag@, i as int);
                    lemma_remove_wf(old_view, tag@);
                    crate::assoc::lemma_remove_get(old_view, tag@, Seq::<char>::empty());
                    assert forall|q: int| 0 <= q < self@.len() implies assoc_wf(
                        #[trigger] self@[q].1,
                    ) by {
                        if q < i {
                            assert(self@[q] == old_view[q]);
                        } else {
                            assert(self@[q] == old_view[q + 1]);
                        }
                    }
                }
                true
            },
            None => false,
        }
    }
}

/// Under well-formedness, the entry `assoc_get` reads is the only one, so
/// nothing before it matches.
proof fn lemma_first_match_prefix(entries: RegistryView, tag: Seq<char>, i: int)
    requires
        assoc_wf(entries),
        0 <= i < entries.len(),
        entries[i].0 == tag,
    ensures
        forall|k: int| 0 <= k < i ==> entries[k].0 != tag,
{
    assert forall|k: int| 0 <= k < i implies entries[k].0 != tag by {
        assert(entries[k].0 != entries[i].0);
    }
}

} // verus!
