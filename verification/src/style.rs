//! Style definitions: mergeable bags of named attributes.
//!
//! A definition binds attribute names to attribute values; the library
//! never interprets either. Merging overlays one definition on another
//! attribute-wise: every attribute the overlay binds overwrites the base's
//! binding (or is added), and every attribute the overlay leaves unbound
//! keeps the base's value.

use crate::assoc::{
    assoc_get, assoc_set, assoc_wf, lemma_get_first_match, lemma_get_none, lemma_set_get,
    lemma_set_is_push, lemma_set_is_update, lemma_set_wf, lemma_wf_tail,
};
use crate::strings::str_eq;
use vstd::pervasive::VecAdditionalExecFns;
use vstd::prelude::*;

verus! {

/// A mergeable bag of named attributes, each name bound at most once.
/// Bindings keep their insertion order, so equal histories build equal
/// values.
#[derive(Debug, PartialEq, Eq)]
pub struct StyleDefinition {
    attrs: Vec<(String, String)>,
}

impl View for StyleDefinition {
    type V = Seq<(Seq<char>, Seq<char>)>;

    closed spec fn view(&self) -> Seq<(Seq<char>, Seq<char>)> {
        self.attrs.deep_view()
    }
}

impl DeepView for StyleDefinition {
    type V = Seq<(Seq<char>, Seq<char>)>;

    open spec fn deep_view(&self) -> Seq<(Seq<char>, Seq<char>)> {
        self.view()
    }
}

/// `overlay` folded on top of `base`, one attribute binding at a time,
/// left to right.
pub open spec fn spec_merge(
    base: Seq<(Seq<char>, Seq<char>)>,
    overlay: Seq<(Seq<char>, Seq<char>)>,
) -> Seq<(Seq<char>, Seq<char>)>
    decreases overlay.len(),
{
    if overlay.len() == 0 {
        base
    } else {
        spec_merge(assoc_set(base, overlay[0].0, overlay[0].1), overlay.drop_first())
    }
}

/// Cascade merge law: for every attribute, the merged definition reads the
/// overlay's binding where the overlay has one, and the base's binding
/// where it does not. Absence is non-destructive; on overlap the overlay
/// wins.
pub proof fn lemma_cascade_merge(
    base: Seq<(Seq<char>, Seq<char>)>,
    overlay: Seq<(Seq<char>, Seq<char>)>,
    key: Seq<char>,
)
    requires
        assoc_wf(overlay),
    ensures
        assoc_get(spec_merge(base, overlay), key) == match assoc_get(overlay, key) {
            Some(v) => Some(v),
            None => assoc_get(base, key),
        },
    decreases overlay.len(),
{
    if overlay.len() > 0 {
        lemma_wf_tail(overlay);
        lemma_set_get(base, overlay[0].0, overlay[0].1, key);
        lemma_cascade_merge(
            assoc_set(base, overlay[0].0, overlay[0].1),
            overlay.drop_first(),
            key,
        );
    }
}

/// Copies a list of attribute bindings.
#[verifier::loop_isolation(false)]
fn clone_attrs(v: &Vec<(String, String)>) -> (r: Vec<(String, String)>)
    ensures
        r@ == v@,
{
    let mut r: Vec<(String, String)> = Vec::new();
    let mut i: usize = 0;
    while i < v.len()
        invariant
            i <= v.len(),
            r@ == v@.subrange(0, i as int),
        decreases v.len() - i,
    {
        let pair = &v[i];
        r.push((pair.0.clone(), pair.1.clone()));
        proof {
            assert(r@ =~= v@.subrange(0, i + 1 as int));
        }
        i = i + 1;
    }
    proof {
        assert(r@ =~= v@);
    }
    r
}

impl StyleDefinition {
    /// Each attribute name is bound at most once.
    pub open spec fn wf(&self) -> bool {
        assoc_wf(self@)
    }

    /// The definition with no attributes bound.
    pub fn new() -> (r: Self)
        ensures
            r@ == Seq::<(Seq<char>, Seq<char>)>::empty(),
            r.wf(),
    {
        let r = StyleDefinition { attrs: Vec::new() };
        proof {
            assert(r@ =~= Seq::<(Seq<char>, Seq<char>)>::empty());
        }
        r
    }

    /// A copy of this definition.
    pub fn duplicate(&self) -> (r: Self)
        ensures
            r@ == self@,
    {
        StyleDefinition { attrs: clone_attrs(&self.attrs) }
    }

    /// The value bound to `key`, if any.
    #[verifier::loop_isolation(false)]
    pub fn get(&self, key: &str) -> (r: Option<&String>)
        ensures
            match r {
                Some(v) => assoc_get(self@, key@) == Some(v@),
                None => assoc_get(self@, key@) is None,
            },
    {
        let n = self.attrs.len();
        let mut i: usize = 0;
        while i < n
            invariant
                i <= n,
                forall|k: int| 0 <= k < i ==> self@[k].0 != key@,
            decreases n - i,
        {
            let pair = &self.attrs[i];
            if str_eq(pair.0.as_str(), key) {
                proof {
                    lemma_get_first_match(self@, key@, i as int);
                }
                return Some(&pair.1);
            }
            i = i + 1;
        }
        proof {
            lemma_get_none(self@, key@);
        }
        None
    }

    /// Binds `key` to `value`, overwriting in place where `key` is already
    /// bound and appending at the end otherwise.
    #[verifier::loop_isolation(false)]
    pub fn set(&mut self, key: &str, value: &str)
        ensures
            final(self)@ == assoc_set(old(self)@, key@, value@),
            old(self).wf() ==> final(self).wf(),
    {
        let ghost old_view = self@;
        let n = self.attrs.len();
        let mut i: usize = 0;
        while i < n
            invariant
                i <= n,
                *self == *old(self),
                forall|k: int| 0 <= k < i ==> self@[k].0 != key@,
            decreases n - i,
        {
            let found = str_eq(self.attrs[i].0.as_str(), key);
            if found {
                self.attrs.set(i, (key.to_owned(), value.to_owned()));
                proof {
                    assert(self@ =~= old_view.update(i as int, (key@, value@)));
                    lemma_set_is_update(old_view, key@, value@, i as int);
                    if old(self).wf() {
                        lemma_set_wf(old_view, key@, value@);
                    }
                }
                return;
            }
            i = i + 1;
        }
        self.attrs.push((key.to_owned(), value.to_owned()));
        proof {
            assert(self@ =~= old_view.push((key@, value@)));
            lemma_set_is_push(old_view, key@, value@);
            if old(self).wf() {
                lemma_set_wf(old_view, key@, value@);
            }
        }
    }

    /// This definition with `overlay` merged on top: the overlay's
    /// attributes overwrite, all others persist.
    #[verifier::loop_isolation(false)]
    pub fn merge(&self, overlay: &StyleDefinition) -> (r: StyleDefinition)
        ensures
            r@ == spec_merge(self@, overlay@),
            self.wf() ==> r.wf(),
    {
        let mut result = StyleDefinition { attrs: clone_attrs(&self.attrs) };
        let m = overlay.attrs.len();
        let mut i: usize = 0;
        proof {
            assert(overlay@.skip(0) =~= overlay@);
        }
        while i < m
            invariant
                i <= m,
                spec_merge(self@, overlay@) == spec_merge(result@, overlay@.skip(i as int)),
                self.wf() ==> result.wf(),
            decreases m - i,
        {
            let ghost prev = result@;
            let pair = &overlay.attrs[i];
            result.set(pair.0.as_str(), pair.1.as_str());
            proof {
                assert(overlay@.skip(i as int).drop_first() =~= overlay@.skip(i + 1 as int));
                assert(overlay@.skip(i as int)[0] == overlay@[i as int]);
            }
            i = i + 1;
        }
        proof {
            assert(overlay@.skip(m as int) =~= Seq::<(Seq<char>, Seq<char>)>::empty());
        }
        result
    }
}

} // verus!
