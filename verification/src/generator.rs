//! The generator: holds a resolved template and renders a fresh prompt on
//! every call, drawing one candidate per slot and one alternative per
//! varied choice uniformly at random.
//!
//! Randomness only picks indices; everything downstream of the draws is
//! deterministic. The contract of [`PromptGenerator::randomize`] states
//! exactly that: the result is the render of some valid selection from
//! the template.

use vstd::prelude::*;

use rand::Rng;

use crate::builder::{
    built_render, lemma_sort_by_emission_props, sort_by_emission, Prompt, PromptBuilder,
};
use crate::chunk::{models, slots_nonempty, Chunks, ChunksModel, ChunkModel};
use crate::template::{template_wf, Template, TemplateModel};

verus! {

/// One index per slot of a group, each within its slot's candidates.
pub open spec fn valid_group_picks(g: ChunksModel, picks: Seq<int>) -> bool {
    picks.len() == g.variants.len() && forall|k: int|
        0 <= k < picks.len() ==> 0 <= #[trigger] picks[k] < g.variants[k].1.len()
}

/// What one group contributes under given slot picks: all its defaults,
/// then exactly one candidate per slot, in slot order.
pub open spec fn group_selection(g: ChunksModel, picks: Seq<int>) -> Seq<ChunkModel> {
    g.defaults + Seq::new(g.variants.len(), |k: int| g.variants[k].1[picks[k]])
}

/// What the direct inclusions contribute, in template order.
pub open spec fn includes_selection(gs: Seq<ChunksModel>, picks: Seq<Seq<int>>) -> Seq<ChunkModel>
    decreases gs.len(),
{
    if gs.len() == 0 {
        Seq::empty()
    } else {
        includes_selection(gs.drop_last(), picks.drop_last()) + group_selection(
            gs.last(),
            picks.last(),
        )
    }
}

/// What the varied choices contribute: for each choice, the selection
/// from its single chosen alternative.
pub open spec fn varied_selection(
    vs: Seq<(Seq<char>, Seq<(Seq<char>, ChunksModel)>)>,
    picks: Seq<(int, Seq<int>)>,
) -> Seq<ChunkModel>
    decreases vs.len(),
{
    if vs.len() == 0 {
        Seq::empty()
    } else {
        varied_selection(vs.drop_last(), picks.drop_last()) + group_selection(
            vs.last().1[picks.last().0].1,
            picks.last().1,
        )
    }
}

/// One generation's random outcome: per direct inclusion the slot picks,
/// per varied choice the chosen alternative and its slot picks.
pub ghost struct SelectionModel {
    pub include_picks: Seq<Seq<int>>,
    pub varied_picks: Seq<(int, Seq<int>)>,
}

/// The selection addresses the template: one pick list per inclusion,
/// and per varied choice an alternative in range with picks for it.
pub open spec fn valid_selection(t: TemplateModel, sel: SelectionModel) -> bool {
    &&& sel.include_picks.len() == t.includes.len()
    &&& forall|i: int|
        0 <= i < t.includes.len() ==> valid_group_picks(
            #[trigger] t.includes[i],
            sel.include_picks[i],
        )
    &&& sel.varied_picks.len() == t.include_varied.len()
    &&& forall|i: int|
        0 <= i < t.include_varied.len() ==> 0 <= (#[trigger] sel.varied_picks[i]).0
            < t.include_varied[i].1.len() && valid_group_picks(
            t.include_varied[i].1[sel.varied_picks[i].0].1,
            sel.varied_picks[i].1,
        )
}

/// All chunks one generation selects: the direct inclusions' part, then
/// the varied choices' part.
pub open spec fn selected_chunks(t: TemplateModel, sel: SelectionModel) -> Seq<ChunkModel> {
    includes_selection(t.includes, sel.include_picks) + varied_selection(
        t.include_varied,
        sel.varied_picks,
    )
}

/// The render one generation produces under a given selection.
pub open spec fn generated_render(t: TemplateModel, sel: SelectionModel) -> Seq<char> {
    built_render(selected_chunks(t, sel))
}

/// What one inclusion contributes is contained in the contribution of
/// all inclusions.
proof fn lemma_includes_selection_contains(
    gs: Seq<ChunksModel>,
    picks: Seq<Seq<int>>,
    i: int,
    c: ChunkModel,
)
    requires
        gs.len() == picks.len(),
        0 <= i < gs.len(),
        group_selection(gs[i], picks[i]).contains(c),
    ensures
        includes_selection(gs, picks).contains(c),
    decreases gs.len(),
{
    let whole = includes_selection(gs, picks);
    let left = includes_selection(gs.drop_last(), picks.drop_last());
    let right = group_selection(gs.last(), picks.last());
    if i == gs.len() - 1 {
        let k = choose|k: int| 0 <= k < right.len() && right[k] == c;
        assert(whole[left.len() + k] == c);
    } else {
        assert(gs.drop_last()[i] == gs[i]);
        assert(picks.drop_last()[i] == picks[i]);
        lemma_includes_selection_contains(gs.drop_last(), picks.drop_last(), i, c);
        let k = choose|k: int| 0 <= k < left.len() && left[k] == c;
        assert(whole[k] == c);
    }
}

/// Defaults are always present: the emitted sequence is a permutation of
/// the selected chunks; each inclusion's contribution lists its defaults
/// first, one occurrence each; and so every default chunk of every
/// contributing group is among the emitted ones.
pub proof fn lemma_defaults_always_present(t: TemplateModel, sel: SelectionModel, i: int, d: int)
    requires
        valid_selection(t, sel),
        0 <= i < t.includes.len(),
        0 <= d < t.includes[i].defaults.len(),
    ensures
        sort_by_emission(selected_chunks(t, sel)).to_multiset() == selected_chunks(
            t,
            sel,
        ).to_multiset(),
        group_selection(t.includes[i], sel.include_picks[i])[d] == t.includes[i].defaults[d],
        sort_by_emission(selected_chunks(t, sel)).contains(t.includes[i].defaults[d]),
{
    broadcast use vstd::seq_lib::group_to_multiset_ensures;

    lemma_sort_by_emission_props(selected_chunks(t, sel));
    let c = t.includes[i].defaults[d];
    assert(group_selection(t.includes[i], sel.include_picks[i]).contains(c)) by {
        assert(group_selection(t.includes[i], sel.include_picks[i])[d] == c);
    }
    lemma_includes_selection_contains(t.includes, sel.include_picks, i, c);
    let inc = includes_selection(t.includes, sel.include_picks);
    let k = choose|k: int| 0 <= k < inc.len() && inc[k] == c;
    assert(selected_chunks(t, sel)[k] == c);
    assert(selected_chunks(t, sel).contains(c));
    assert(selected_chunks(t, sel).to_multiset().count(c) > 0);
    assert(sort_by_emission(selected_chunks(t, sel)).contains(c));
}

/// Exactly one chunk per slot: a group's contribution is its defaults
/// followed by precisely one candidate per slot, in slot order, and
/// nothing else.
pub proof fn lemma_exactly_one_per_slot(g: ChunksModel, picks: Seq<int>)
    requires
        valid_group_picks(g, picks),
    ensures
        group_selection(g, picks).len() == g.defaults.len() + g.variants.len(),
        forall|d: int|
            0 <= d < g.defaults.len() ==> group_selection(g, picks)[d] == g.defaults[d],
        forall|k: int|
            0 <= k < g.variants.len() ==> group_selection(g, picks)[g.defaults.len() + k]
                == g.variants[k].1[picks[k]],
{
}

/// Each varied choice contributes the selection of exactly one of its
/// named alternatives: the alternative the selection picks, and no chunk
/// of any other alternative.
pub proof fn lemma_one_alternative_per_choice(t: TemplateModel, sel: SelectionModel, i: int)
    requires
        valid_selection(t, sel),
        0 <= i < t.include_varied.len(),
    ensures
        0 <= sel.varied_picks[i].0 < t.include_varied[i].1.len(),
        varied_selection(t.include_varied.take(i + 1), sel.varied_picks.take(i + 1))
            == varied_selection(t.include_varied.take(i), sel.varied_picks.take(i))
            + group_selection(
            t.include_varied[i].1[sel.varied_picks[i].0].1,
            sel.varied_picks[i].1,
        ),
{
    assert(t.include_varied.take(i + 1).drop_last() =~= t.include_varied.take(i));
    assert(sel.varied_picks.take(i + 1).drop_last() =~= sel.varied_picks.take(i));
    assert(t.include_varied.take(i + 1).last() == t.include_varied[i]);
    assert(sel.varied_picks.take(i + 1).last() == sel.varied_picks[i]);
}

/// Relies on rand's `thread_rng` and `Rng::gen_range` over `0..bound`:
/// the draw lies in the range, and the call panics only on an empty
/// range, which the precondition excludes. Nothing more is assumed of a
/// random value.
#[verifier::external_body]
fn random_index(bound: usize) -> (r: usize)
    requires
        bound > 0,
    ensures
        r < bound,
{
    rand::thread_rng().gen_range(0..bound)
}

/// Draws one candidate per slot of `group` and adds the group's whole
/// contribution (defaults plus the drawn candidates) to the builder.
fn add_group_selection(builder: &mut PromptBuilder, group: &Chunks) -> (picks: Ghost<Seq<int>>)
    requires
        slots_nonempty(group@),
    ensures
        valid_group_picks(group@, picks@),
        final(builder)@ == old(builder)@ + group_selection(group@, picks@),
{
    let ghost g = group@;
    match &group.defaults {
        Some(d) => {
            let mut i: usize = 0;
            while i < d.len()
                invariant
                    i <= d@.len(),
                    g == group@,
                    g.defaults == models(d@),
                    builder@ == old(builder)@ + models(d@).take(i as int),
                decreases d@.len() - i,
            {
                builder.add(&d[i]);
                proof {
                    assert(models(d@).take(i + 1) =~= models(d@).take(i as int).push(
                        d@[i as int]@,
                    ));
                    assert(builder@ =~= old(builder)@ + models(d@).take(i + 1));
                }
                i += 1;
            }
            proof {
                assert(models(d@).take(d@.len() as int) =~= models(d@));
            }
        },
        None => {
            proof {
                assert(builder@ =~= old(builder)@ + g.defaults);
            }
        },
    }
    let ghost mut picks: Seq<int> = Seq::empty();
    let mut k: usize = 0;
    while k < group.variants.len()
        invariant
            k <= group.variants@.len(),
            g == group@,
            slots_nonempty(g),
            g.variants.len() == group.variants@.len(),
            picks.len() == k,
            forall|q: int| 0 <= q < k ==> 0 <= #[trigger] picks[q] < g.variants[q].1.len(),
            builder@ == old(builder)@ + g.defaults + Seq::new(
                k as nat,
                |q: int| g.variants[q].1[picks[q]],
            ),
        decreases group.variants@.len() - k,
    {
        let candidates = &group.variants[k].1;
        proof {
            assert(g.variants[k as int].1 == models(candidates@));
        }
        let idx = random_index(candidates.len());
        builder.add(&candidates[idx]);
        proof {
            let prev = picks;
            picks = picks.push(idx as int);
            assert(Seq::new((k + 1) as nat, |q: int| g.variants[q].1[picks[q]]) =~= Seq::new(
                k as nat,
                |q: int| g.variants[q].1[prev[q]],
            ).push(g.variants[k as int].1[idx as int]));
            assert(builder@ =~= old(builder)@ + g.defaults + Seq::new(
                (k + 1) as nat,
                |q: int| g.variants[q].1[picks[q]],
            ));
        }
        k += 1;
    }
    Ghost(picks)
}

/// Renders varied but structurally controlled prompts from one eagerly
/// resolved template.
#[derive(Debug)]
pub struct PromptGenerator {
    template: Template,
}

impl PromptGenerator {
    /// The load-time invariants hold of the plan for the generator's
    /// whole lifetime; generation can therefore never fail.
    #[verifier::type_invariant]
    spec fn wf(self) -> bool {
        template_wf(self.template@)
    }
}

impl View for PromptGenerator {
    type V = TemplateModel;

    closed spec fn view(&self) -> TemplateModel {
        self.template@
    }
}

impl PromptGenerator {
    /// Wraps a resolved template. The caller establishes the load-time
    /// invariants, either by [`Template::from_yaml_template`] or by
    /// [`Template::validate`].
    pub fn new(template: Template) -> (g: PromptGenerator)
        requires
            template_wf(template@),
        ensures
            g@ == template@,
    {
        PromptGenerator { template }
    }

    /// One generation: for each direct inclusion all defaults plus one
    /// random candidate per slot; for each varied choice one random
    /// alternative treated the same way; everything merged under the
    /// ordering and punctuation rule. The result is the render of some
    /// valid selection from the template.
    pub fn randomize(&self) -> (p: Prompt)
        ensures
            exists|sel: SelectionModel|
                valid_selection(self@, sel) && p.render@ == generated_render(self@, sel),
    {
        proof {
            use_type_invariant(self);
        }
        let ghost t = self.template@;
        let mut builder = PromptBuilder::new();

        let ghost mut gpicks: Seq<Seq<int>> = Seq::empty();
        let mut i: usize = 0;
        while i < self.template.includes.len()
            invariant
                i <= self.template.includes@.len(),
                t == self.template@,
                template_wf(t),
                t.includes.len() == self.template.includes@.len(),
                gpicks.len() == i,
                forall|k: int|
                    0 <= k < i ==> valid_group_picks(t.includes[k], #[trigger] gpicks[k]),
                builder@ == includes_selection(t.includes.take(i as int), gpicks),
            decreases self.template.includes@.len() - i,
        {
            let group = &self.template.includes[i];
            proof {
                assert(t.includes[i as int] == group@);
            }
            let ghost before = builder@;
            let Ghost(p) = add_group_selection(&mut builder, group);
            proof {
                let prev = gpicks;
                gpicks = gpicks.push(p);
                assert(t.includes.take(i + 1).drop_last() =~= t.includes.take(i as int));
                assert(gpicks.drop_last() =~= prev);
                assert(builder@ == includes_selection(t.includes.take(i + 1), gpicks));
            }
            i += 1;
        }
        proof {
            assert(t.includes.take(t.includes.len() as int) =~= t.includes);
        }

        let ghost mut vpicks: Seq<(int, Seq<int>)> = Seq::empty();
        let mut v: usize = 0;
        while v < self.template.include_varied.len()
            invariant
                v <= self.template.include_varied@.len(),
                t == self.template@,
                template_wf(t),
                t.include_varied.len() == self.template.include_varied@.len(),
                gpicks.len() == t.includes.len(),
                forall|k: int|
                    0 <= k < gpicks.len() ==> valid_group_picks(
                        t.includes[k],
                        #[trigger] gpicks[k],
                    ),
                vpicks.len() == v,
                forall|k: int|
                    0 <= k < v ==> 0 <= (#[trigger] vpicks[k]).0 < t.include_varied[k].1.len()
                        && valid_group_picks(
                        t.include_varied[k].1[vpicks[k].0].1,
                        vpicks[k].1,
                    ),
                builder@ == includes_selection(t.includes, gpicks) + varied_selection(
                    t.include_varied.take(v as int),
                    vpicks,
                ),
            decreases self.template.include_varied@.len() - v,
        {
            let pair = &self.template.include_varied[v];
            proof {
                assert(t.include_varied[v as int] == (pair.0@, crate::template::library_model(
                    pair.1@,
                )));
            }
            let alt = random_index(pair.1.len());
            let group = &pair.1[alt].1;
            proof {
                assert(t.include_varied[v as int].1[alt as int].1 == group@);
            }
            let Ghost(p) = add_group_selection(&mut builder, group);
            proof {
                let prev = vpicks;
                vpicks = vpicks.push((alt as int, p));
                assert(t.include_varied.take(v + 1).drop_last() =~= t.include_varied.take(
                    v as int,
                ));
                assert(vpicks.drop_last() =~= prev);
                assert(builder@ =~= includes_selection(t.includes, gpicks) + varied_selection(
                    t.include_varied.take(v + 1),
                    vpicks,
                ));
            }
            v += 1;
        }
        proof {
            assert(t.include_varied.take(t.include_varied.len() as int) =~= t.include_varied);
        }

        let p = builder.build();
        proof {
            let sel = SelectionModel { include_picks: gpicks, varied_picks: vpicks };
            assert(t == self@);
            assert(valid_selection(self@, sel));
            assert(p.render@ == generated_render(self@, sel));
        }
        p
    }
}

} // verus!
