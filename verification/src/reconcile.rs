//! The reconciler: keeping resolved output in step with changing inputs.
//!
//! Each markup source carries a changed flag, set when its markup is
//! edited; the registry carries a generation counter, advanced by every
//! mutation. A pass rebuilds exactly the sources that are dirty: those
//! whose markup changed, and all of them when the registry changed since
//! the last pass (coarse invalidation). A rebuild reparses the markup,
//! resolves every section, and replaces the source's previous output
//! wholesale; a pass over unchanged inputs rebuilds nothing.

use crate::parser::{parse_richtext, spec_parse};
use crate::registry::{RegistryView, StyleTags};
use crate::resolve::{resolve_section, spec_resolve};
use crate::style::StyleDefinition;
use vstd::prelude::*;

verus! {

/// One run of output text paired with its fully resolved style.
#[derive(Debug, PartialEq, Eq)]
pub struct ResolvedSection {
    pub value: String,
    pub style: StyleDefinition,
}

impl DeepView for ResolvedSection {
    type V = (Seq<char>, Seq<(Seq<char>, Seq<char>)>);

    open spec fn deep_view(&self) -> (Seq<char>, Seq<(Seq<char>, Seq<char>)>) {
        (self.value@, self.style@)
    }
}

/// An owned markup string with an identity the host addresses it by, and
/// the flag that marks its markup as edited since the last pass.
#[derive(Debug, PartialEq, Eq)]
pub struct RichTextSource {
    id: u64,
    markup: String,
    changed: bool,
}

impl View for RichTextSource {
    type V = (u64, Seq<char>, bool);

    closed spec fn view(&self) -> (u64, Seq<char>, bool) {
        (self.id, self.markup@, self.changed)
    }
}

impl DeepView for RichTextSource {
    type V = (u64, Seq<char>, bool);

    open spec fn deep_view(&self) -> (u64, Seq<char>, bool) {
        self.view()
    }
}

impl RichTextSource {
    /// A new source; it is born changed, so the first pass builds it.
    pub fn new(id: u64, markup: &str) -> (r: Self)
        ensures
            r@ == (id, markup@, true),
    {
        RichTextSource { id, markup: markup.to_owned(), changed: true }
    }

    /// This source's identity.
    pub fn id(&self) -> (r: u64)
        ensures
            r == self@.0,
    {
        self.id
    }

    /// This source's markup.
    pub fn markup(&self) -> (r: &String)
        ensures
            r@ == self@.1,
    {
        &self.markup
    }

    /// Replaces the markup; the edit marks the source for rebuilding.
    pub fn set_markup(&mut self, markup: &str)
        ensures
            final(self)@ == (old(self)@.0, markup@, true),
    {
        self.markup = markup.to_owned();
        self.changed = true;
    }
}

/// The rebuilt output of one source, replacing all earlier output for it.
#[derive(Debug, PartialEq, Eq)]
pub struct SourceOutput {
    pub id: u64,
    pub sections: Vec<ResolvedSection>,
}

impl DeepView for SourceOutput {
    type V = (u64, Seq<(Seq<char>, Seq<(Seq<char>, Seq<char>)>)>);

    open spec fn deep_view(&self) -> (u64, Seq<(Seq<char>, Seq<(Seq<char>, Seq<char>)>)>) {
        (self.id, self.sections.deep_view())
    }
}

/// The full rebuild of one markup string: its parsed sections, each paired
/// with its resolved style.
pub open spec fn spec_rebuild(markup: Seq<char>, reg: RegistryView) -> Seq<
    (Seq<char>, Seq<(Seq<char>, Seq<char>)>),
> {
    spec_parse(markup).map_values(
        |sec: (Seq<char>, Seq<Seq<char>>)| (sec.0, spec_resolve(sec.1, reg)),
    )
}

/// The outputs of one pass: one rebuild per dirty source, in source order.
/// With `dirty` set (the registry changed), every source is rebuilt; else
/// exactly those whose markup changed.
pub open spec fn spec_pass_outputs(
    srcs: Seq<(u64, Seq<char>, bool)>,
    reg: RegistryView,
    dirty: bool,
) -> Seq<(u64, Seq<(Seq<char>, Seq<(Seq<char>, Seq<char>)>)>)>
    decreases srcs.len(),
{
    if srcs.len() == 0 {
        Seq::empty()
    } else {
        let rest = spec_pass_outputs(srcs.drop_first(), reg, dirty);
        if srcs[0].2 || dirty {
            seq![(srcs[0].0, spec_rebuild(srcs[0].1, reg))] + rest
        } else {
            rest
        }
    }
}

/// Parses the markup and resolves every section: the computation behind
/// one source's rebuild.
#[verifier::loop_isolation(false)]
pub fn rebuild_source(markup: &str, registry: &StyleTags) -> (r: Vec<ResolvedSection>)
    requires
        registry.wf(),
    ensures
        r.deep_view() == spec_rebuild(markup@, registry@),
        r.deep_view().len() > 0,
{
    let ghost reg_view = registry@;
    let sections = parse_richtext(markup);
    let ghost secs_view = sections.deep_view();
    let mut out: Vec<ResolvedSection> = Vec::new();
    let n = sections.len();
    let mut i: usize = 0;
    while i < n
        invariant
            i <= n,
            out.deep_view().len() == i,
            forall|j: int|
                0 <= j < i ==> out.deep_view()[j] == (
                    secs_view[j].0,
                    spec_resolve(secs_view[j].1, reg_view),
                ),
        decreases n - i,
    {
        let ghost prev_out = out.deep_view();
        let section = &sections[i];
        let style = resolve_section(section, registry);
        out.push(ResolvedSection { value: section.value.clone(), style });
        proof {
            assert(out.deep_view() =~= prev_out.push(
                (secs_view[i as int].0, spec_resolve(secs_view[i as int].1, reg_view)),
            ));
        }
        i = i + 1;
    }
    proof {
        assert(out.deep_view() =~= spec_rebuild(markup@, reg_view));
    }
    out
}

/// For every registry, the rebuild of empty markup is exactly one output
/// section: empty text, resolved to the default style definition.
pub proof fn lemma_rebuild_empty(reg: RegistryView)
    ensures
        spec_rebuild(Seq::<char>::empty(), reg) == seq![
            (
                Seq::<char>::empty(),
                crate::assoc::assoc_get(reg, Seq::<char>::empty()).unwrap(),
            ),
        ],
{
    crate::parser::lemma_parse_empty();
    assert(spec_resolve(Seq::<Seq<char>>::empty(), reg) == crate::assoc::assoc_get(
        reg,
        Seq::<char>::empty(),
    ).unwrap()) by {
        match crate::assoc::assoc_get(reg, Seq::<char>::empty()) {
            Some(d) => {},
            None => {},
        }
    }
    assert(spec_rebuild(Seq::<char>::empty(), reg) =~= seq![
        (Seq::<char>::empty(), crate::assoc::assoc_get(reg, Seq::<char>::empty()).unwrap()),
    ]);
}

/// Rebuilding the same markup against the same registry twice yields
/// identical ordered output: the rebuild is a function of the two alone.
pub proof fn lemma_rebuild_deterministic(
    out1: Seq<(Seq<char>, Seq<(Seq<char>, Seq<char>)>)>,
    out2: Seq<(Seq<char>, Seq<(Seq<char>, Seq<char>)>)>,
    markup: Seq<char>,
    reg: RegistryView,
)
    requires
        out1 == spec_rebuild(markup, reg),
        out2 == spec_rebuild(markup, reg),
    ensures
        out1 == out2,
{
}

/// A pass over a dirty registry rebuilds every source, markup changed or
/// not, each to the rebuild of its own markup.
pub proof fn lemma_pass_rebuilds_all(srcs: Seq<(u64, Seq<char>, bool)>, reg: RegistryView)
    ensures
        spec_pass_outputs(srcs, reg, true).len() == srcs.len(),
        forall|i: int|
            0 <= i < srcs.len() ==> spec_pass_outputs(srcs, reg, true)[i] == (
                srcs[i].0,
                spec_rebuild(srcs[i].1, reg),
            ),
    decreases srcs.len(),
{
    if srcs.len() > 0 {
        lemma_pass_rebuilds_all(srcs.drop_first(), reg);
        assert forall|i: int| 0 <= i < srcs.len() implies spec_pass_outputs(srcs, reg, true)[i]
            == (srcs[i].0, spec_rebuild(srcs[i].1, reg)) by {
            if i > 0 {
                assert(spec_pass_outputs(srcs, reg, true)[i] == spec_pass_outputs(
                    srcs.drop_first(),
                    reg,
                    true,
                )[i - 1]);
                assert(srcs.drop_first()[i - 1] == srcs[i]);
            }
        }
    }
}

/// A pass with a clean registry and no changed source rebuilds nothing.
pub proof fn lemma_pass_no_changes(srcs: Seq<(u64, Seq<char>, bool)>, reg: RegistryView)
    requires
        forall|i: int| 0 <= i < srcs.len() ==> !srcs[i].2,
    ensures
        spec_pass_outputs(srcs, reg, false) == Seq::<
            (u64, Seq<(Seq<char>, Seq<(Seq<char>, Seq<char>)>)>),
        >::empty(),
    decreases srcs.len(),
{
    if srcs.len() > 0 {
        assert(forall|i: int|
            0 <= i < srcs.drop_first().len() ==> srcs.drop_first()[i] == srcs[i + 1]);
        lemma_pass_no_changes(srcs.drop_first(), reg);
    }
}

/// Registry-change propagation: once a reconciler has passed, any pass
/// that sees a different registry generation — which every mutation
/// forces — rebuilds every source, its markup changed or not.
pub proof fn lemma_registry_change_propagation(
    r: Reconciler,
    generation: u64,
    srcs: Seq<(u64, Seq<char>, bool)>,
    reg: RegistryView,
)
    requires
        r.spec_primed(),
        generation != r.spec_last_generation(),
    ensures
        spec_pass_outputs(srcs, reg, r.spec_dirty(generation)).len() == srcs.len(),
        forall|i: int|
            0 <= i < srcs.len() ==> spec_pass_outputs(srcs, reg, r.spec_dirty(generation))[i]
                == (srcs[i].0, spec_rebuild(srcs[i].1, reg)),
{
    lemma_pass_rebuilds_all(srcs, reg);
}

/// The orchestration state: what the reconciler remembers of the registry
/// between passes.
#[derive(Debug, PartialEq, Eq)]
pub struct Reconciler {
    last_generation: u64,
    primed: bool,
}

impl Reconciler {
    /// The registry generation the last pass saw.
    pub closed spec fn spec_last_generation(&self) -> u64 {
        self.last_generation
    }

    /// Whether any pass has run yet.
    pub closed spec fn spec_primed(&self) -> bool {
        self.primed
    }

    /// Whether a pass must treat every source as dirty: before the first
    /// pass, and whenever the registry mutated since the last one.
    pub open spec fn spec_dirty(&self, generation: u64) -> bool {
        !self.spec_primed() || generation != self.spec_last_generation()
    }

    /// A reconciler that has seen nothing yet; its first pass builds
    /// every source.
    pub fn new() -> (r: Self)
        ensures
            !r.spec_primed(),
    {
        Reconciler { last_generation: 0, primed: false }
    }

    /// One reconciliation pass: rebuilds every dirty source against a
    /// stable snapshot of the registry, replacing that source's previous
    /// output, clears the change flags, and remembers the registry
    /// generation so an unchanged next pass rebuilds nothing.
    #[verifier::loop_isolation(false)]
    pub fn run_pass(&mut self, sources: &mut Vec<RichTextSource>, registry: &StyleTags) -> (outs:
        Vec<SourceOutput>)
        requires
            registry.wf(),
        ensures
            outs.deep_view() == spec_pass_outputs(
                old(sources).deep_view(),
                registry@,
                old(self).spec_dirty(registry.spec_generation()),
            ),
            final(self).spec_primed(),
            final(self).spec_last_generation() == registry.spec_generation(),
            final(sources).len() == old(sources).len(),
            forall|i: int|
                0 <= i < old(sources).len() ==> final(sources)@[i]@ == (
                    old(sources)@[i]@.0,
                    old(sources)@[i]@.1,
                    false,
                ),
    {
        let g = registry.generation();
        let dirty = !self.primed || g != self.last_generation;
        let ghost old_srcs = sources.deep_view();
        let mut outs: Vec<SourceOutput> = Vec::new();
        let n = sources.len();
        let mut i: usize = 0;
        proof {
            assert(old_srcs.skip(0) =~= old_srcs);
            assert(outs.deep_view() =~= Seq::<
                (u64, Seq<(Seq<char>, Seq<(Seq<char>, Seq<char>)>)>),
            >::empty());
            assert(outs.deep_view() + spec_pass_outputs(old_srcs, registry@, dirty)
                =~= spec_pass_outputs(old_srcs, registry@, dirty));
        }
        while i < n
            invariant
                i <= n,
                sources.len() == n,
                forall|j: int| i <= j < n ==> sources@[j] == old(sources)@[j],
                forall|j: int|
                    0 <= j < i ==> sources@[j]@ == (old_srcs[j].0, old_srcs[j].1, false),
                spec_pass_outputs(old_srcs, registry@, dirty) == outs.deep_view()
                    + spec_pass_outputs(old_srcs.skip(i as int), registry@, dirty),
            decreases n - i,
        {
            let ghost prev_outs = outs.deep_view();
            let rebuild = sources[i].changed || dirty;
            if rebuild {
                let built = rebuild_source(sources[i].markup.as_str(), registry);
                let id = sources[i].id;
                outs.push(SourceOutput { id, sections: built });
                proof {
                    assert(outs.deep_view() =~= prev_outs.push(
                        (old_srcs[i as int].0, spec_rebuild(old_srcs[i as int].1, registry@)),
                    ));
                }
            }
            let id = sources[i].id;
            let markup_copy = sources[i].markup.clone();
            sources.set(i, RichTextSource { id, markup: markup_copy, changed: false });
            proof {
                let tail = old_srcs.skip(i as int);
                assert(tail[0] == old_srcs[i as int]);
                assert(tail.drop_first() =~= old_srcs.skip(i + 1 as int));
                if old_srcs[i as int].2 || dirty {
                    assert(spec_pass_outputs(tail, registry@, dirty) =~= seq![
                        (old_srcs[i as int].0, spec_rebuild(old_srcs[i as int].1, registry@)),
                    ] + spec_pass_outputs(old_srcs.skip(i + 1 as int), registry@, dirty));
                    assert(outs.deep_view() + spec_pass_outputs(
                        old_srcs.skip(i + 1 as int),
                        registry@,
                        dirty,
                    ) =~= prev_outs + spec_pass_outputs(tail, registry@, dirty));
                } else {
                    assert(outs.deep_view() + spec_pass_outputs(
                        old_srcs.skip(i + 1 as int),
                        registry@,
                        dirty,
                    ) =~= prev_outs + spec_pass_outputs(tail, registry@, dirty));
                }
            }
            i = i + 1;
        }
        self.last_generation = g;
        self.primed = true;
        proof {
            assert(old_srcs.skip(n as int) =~= Seq::<(u64, Seq<char>, bool)>::empty());
            assert(outs.deep_view() + spec_pass_outputs(
                old_srcs.skip(n as int),
                registry@,
                dirty,
            ) =~= outs.deep_view());
        }
        outs
    }
}

} // verus!
