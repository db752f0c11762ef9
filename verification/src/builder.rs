//! The composer: accumulates selected chunks and serializes them into the
//! final prompt string under the ordering and punctuation rule.
//!
//! All accumulated chunks are emitted in the order of
//! [`crate::chunk::emit_le`]: descending clause key (`pos`, absent read as
//! 0); on equal keys a chunk without `sub_pos` first, then ascending
//! `sub_pos`. Consecutive chunks of one clause key are joined by a single
//! space, a change of clause key starts a new `", "`-separated clause, and
//! no separator precedes the first chunk.

use vstd::prelude::*;
use vstd::multiset::Multiset;
use vstd::string::StringExecFns;

use crate::chunk::{emit_le, key, models, Chunk, ChunkModel, Chunks, ChunksModel};
use crate::chunk::{has_slot, lemma_slot_index_sound, slot_index};

verus! {

/// The separator emitted between two adjacent chunks: a single space when
/// they share a clause key, otherwise a comma and a space.
pub open spec fn sep(a: ChunkModel, b: ChunkModel) -> Seq<char> {
    if key(a) == key(b) {
        seq![' ']
    } else {
        seq![',', ' ']
    }
}

/// The rendered text of an emission-ordered chunk sequence: the chunk
/// texts in order, each pair of neighbours joined by [`sep`], with no
/// leading separator.
pub open spec fn render_of(s: Seq<ChunkModel>) -> Seq<char>
    decreases s.len(),
{
    if s.len() == 0 {
        Seq::empty()
    } else if s.len() == 1 {
        s[0].text
    } else {
        render_of(s.drop_last()) + sep(s[s.len() - 2], s[s.len() - 1]) + s.last().text
    }
}

/// Inserts `c` into the emission-sorted sequence `s`, after every chunk
/// that may be emitted no later than `c`.
pub open spec fn insert_sorted(c: ChunkModel, s: Seq<ChunkModel>) -> Seq<ChunkModel>
    decreases s.len(),
{
    if s.len() == 0 {
        seq![c]
    } else if emit_le(s[0], c) {
        seq![s[0]] + insert_sorted(c, s.drop_first())
    } else {
        seq![c] + s
    }
}

/// The emission order of a chunk sequence: an insertion sort under
/// [`emit_le`], stable for chunks the order does not distinguish.
pub open spec fn sort_by_emission(s: Seq<ChunkModel>) -> Seq<ChunkModel>
    decreases s.len(),
{
    if s.len() == 0 {
        Seq::empty()
    } else {
        insert_sorted(s.last(), sort_by_emission(s.drop_last()))
    }
}

/// The render of a builder's contents: its chunks brought into emission
/// order, then serialized.
pub open spec fn built_render(s: Seq<ChunkModel>) -> Seq<char> {
    render_of(sort_by_emission(s))
}

/// Whether the explicit pair `(name, idx)` resolves in group `g`: the
/// group declares a slot `name` and `idx` is a position in it.
pub open spec fn resolves(g: ChunksModel, name: Seq<char>, idx: int) -> bool {
    has_slot(g, name) && 0 <= idx < g.variants[slot_index(g.variants, name)].1.len()
}

/// The chunk an explicit pair `(name, idx)` picks, when it resolves.
pub open spec fn resolved_chunk(g: ChunksModel, name: Seq<char>, idx: int) -> ChunkModel {
    g.variants[slot_index(g.variants, name)].1[idx]
}

/// The model of a list of explicit `(slot name, index)` pairs.
pub open spec fn pair_models(s: Seq<(String, usize)>) -> Seq<(Seq<char>, int)> {
    s.map_values(|p: (String, usize)| (p.0@, p.1 as int))
}

/// The chunks the explicit pairs pick from `g`, in pair order; a pair that
/// does not resolve contributes nothing.
pub open spec fn picked_chunks(g: ChunksModel, pairs: Seq<(Seq<char>, int)>) -> Seq<ChunkModel>
    decreases pairs.len(),
{
    if pairs.len() == 0 {
        Seq::empty()
    } else {
        let rest = picked_chunks(g, pairs.drop_last());
        if resolves(g, pairs.last().0, pairs.last().1) {
            rest + seq![resolved_chunk(g, pairs.last().0, pairs.last().1)]
        } else {
            rest
        }
    }
}

/// An explicit selection from `g`: all defaults, then the resolving picks
/// in pair order.
pub open spec fn explicit_selection(g: ChunksModel, pairs: Seq<(Seq<char>, int)>) -> Seq<
    ChunkModel,
> {
    g.defaults + picked_chunks(g, pairs)
}

/// The positions (in pair order, ascending) of the explicit pairs that do
/// not resolve.
pub open spec fn miss_indices(g: ChunksModel, pairs: Seq<(Seq<char>, int)>) -> Seq<int>
    decreases pairs.len(),
{
    if pairs.len() == 0 {
        Seq::empty()
    } else {
        let rest = miss_indices(g, pairs.drop_last());
        if resolves(g, pairs.last().0, pairs.last().1) {
            rest
        } else {
            rest + seq![pairs.len() - 1]
        }
    }
}

/// `insert_sorted` places `c` exactly before the first chunk that must be
/// emitted strictly after `c`.
proof fn lemma_insert_sorted_at(c: ChunkModel, s: Seq<ChunkModel>, j: int)
    requires
        0 <= j <= s.len(),
        forall|k: int| 0 <= k < j ==> emit_le(s[k], c),
        j < s.len() ==> !emit_le(s[j], c),
    ensures
        insert_sorted(c, s) == s.take(j) + seq![c] + s.skip(j),
    decreases s.len(),
{
    if s.len() == 0 {
        assert(insert_sorted(c, s) =~= s.take(j) + seq![c] + s.skip(j));
    } else if j == 0 {
        assert(insert_sorted(c, s) =~= s.take(j) + seq![c] + s.skip(j));
    } else {
        let rest = s.drop_first();
        assert(emit_le(s[0], c));
        assert forall|k: int| 0 <= k < j - 1 implies emit_le(rest[k], c) by {
            assert(rest[k] == s[k + 1]);
        }
        lemma_insert_sorted_at(c, rest, j - 1);
        assert(insert_sorted(c, s) =~= s.take(j) + seq![c] + s.skip(j));
    }
}

/// A rendered prompt, the sole artifact the composition produces.
#[derive(Debug)]
pub struct Prompt {
    pub render: String,
}

/// Accumulates chunks for one generation and builds the rendered prompt.
#[derive(Debug)]
pub struct PromptBuilder {
    chunks: Vec<Chunk>,
}

impl View for PromptBuilder {
    type V = Seq<ChunkModel>;

    closed spec fn view(&self) -> Seq<ChunkModel> {
        models(self.chunks@)
    }
}

impl PromptBuilder {
    /// An empty builder.
    pub fn new() -> (b: PromptBuilder)
        ensures
            b@ == Seq::<ChunkModel>::empty(),
    {
        let b = PromptBuilder { chunks: Vec::new() };
        proof {
            assert(b@ =~= Seq::<ChunkModel>::empty());
        }
        b
    }

    /// Adds one chunk (by clone) to the accumulated set.
    pub fn add(&mut self, chunk: &Chunk)
        ensures
            final(self)@ == old(self)@.push(chunk@),
    {
        self.chunks.push(chunk.clone());
        proof {
            assert(self@ =~= old(self)@.push(chunk@));
        }
    }

    /// Appends an explicit selection from `variation`: every default
    /// chunk, then for each `(slot name, index)` pair the chunk at that
    /// index of that slot. A pair that names no slot or an index out of
    /// its slot is skipped; the positions of the skipped pairs are
    /// returned so the caller can report them.
    pub fn append(&mut self, variation: &Chunks, variants: &Vec<(String, usize)>) -> (misses: Vec<
        usize,
    >)
        ensures
            final(self)@ == old(self)@ + explicit_selection(variation@, pair_models(variants@)),
            misses@.map_values(|u: usize| u as int) == miss_indices(
                variation@,
                pair_models(variants@),
            ),
    {
        let ghost g = variation@;
        match &variation.defaults {
            Some(d) => {
                let mut i: usize = 0;
                while i < d.len()
                    invariant
                        i <= d@.len(),
                        g == variation@,
                        g.defaults == models(d@),
                        self@ == old(self)@ + models(d@).take(i as int),
                    decreases d@.len() - i,
                {
                    self.add(&d[i]);
                    proof {
                        assert(models(d@).take(i + 1) =~= models(d@).take(i as int).push(d@[i as int]@));
                        assert(self@ =~= old(self)@ + models(d@).take(i + 1));
                    }
                    i += 1;
                }
                proof {
                    assert(models(d@).take(d@.len() as int) =~= models(d@));
                }
            },
            None => {
                proof {
                    assert(self@ =~= old(self)@ + g.defaults);
                }
            },
        }
        let ghost pm = pair_models(variants@);
        let mut misses: Vec<usize> = Vec::new();
        let mut t: usize = 0;
        while t < variants.len()
            invariant
                t <= variants@.len(),
                g == variation@,
                pm == pair_models(variants@),
                self@ == old(self)@ + explicit_selection(g, pm.take(t as int)),
                misses@.map_values(|u: usize| u as int) == miss_indices(g, pm.take(t as int)),
            decreases variants@.len() - t,
        {
            let pair = &variants[t];
            let ghost pre = self@;
            let ghost premiss = misses@;
            let mut resolved = false;
            match variation.find_slot(&pair.0) {
                Some(j) => {
                    proof {
                        lemma_slot_index_sound(g.variants, pair.0@);
                        assert(g.variants[j as int].1 == models(variation.variants@[j as int].1@));
                    }
                    if pair.1 < variation.variants[j].1.len() {
                        self.add(&variation.variants[j].1[pair.1]);
                        resolved = true;
                    }
                },
                None => {},
            }
            if !resolved {
                misses.push(t);
            }
            proof {
                assert(pm[t as int] == (pair.0@, pair.1 as int));
                assert(pm.take(t + 1).drop_last() =~= pm.take(t as int));
                lemma_slot_index_sound(g.variants, pair.0@);
                if resolved {
                    let j = slot_index(g.variants, pair.0@);
                    assert(resolves(g, pair.0@, pair.1 as int));
                    assert(g.variants[j].1[pair.1 as int] == variation.variants@[j].1@[pair.1 as int]@);
                    assert(self@ =~= pre.push(resolved_chunk(g, pair.0@, pair.1 as int)));
                    assert(explicit_selection(g, pm.take(t + 1)) =~= explicit_selection(g, pm.take(t as int)) + seq![resolved_chunk(g, pair.0@, pair.1 as int)]);
                    assert(self@ =~= old(self)@ + explicit_selection(g, pm.take(t + 1)));
                    assert(misses@.map_values(|u: usize| u as int) == miss_indices(g, pm.take(t + 1)));
                } else {
                    assert(!resolves(g, pair.0@, pair.1 as int));
                    assert(explicit_selection(g, pm.take(t + 1)) == explicit_selection(g, pm.take(t as int)));
                    assert(misses@.map_values(|u: usize| u as int) =~= premiss.map_values(|u: usize| u as int).push(t as int));
                    assert(misses@.map_values(|u: usize| u as int) =~= miss_indices(g, pm.take(t + 1)));
                }
            }
            t += 1;
        }
        proof {
            assert(pm.take(variants@.len() as int) =~= pm);
        }
        misses
    }

    /// Serializes the accumulated chunks: they are brought into emission
    /// order and joined under the punctuation rule.
    pub fn build(self) -> (p: Prompt)
        ensures
            p.render@ == built_render(self@),
    {
        let chunks = self.chunks;
        let ghost m = models(chunks@);

        let mut sorted: Vec<Chunk> = Vec::new();
        let mut i: usize = 0;
        while i < chunks.len()
            invariant
                i <= chunks.len(),
                m == models(chunks@),
                models(sorted@) == sort_by_emission(m.take(i as int)),
            decreases chunks.len() - i,
        {
            let c = &chunks[i];
            let ghost prev = models(sorted@);
            let j = insertion_point(&sorted, c);
            sorted.insert(j, c.clone());
            proof {
                lemma_insert_sorted_at(c@, prev, j as int);
                assert(models(sorted@) =~= prev.take(j as int) + seq![c@] + prev.skip(j as int));
                assert(m.take(i + 1).drop_last() =~= m.take(i as int));
                assert(m.take(i + 1).last() == c@);
                assert(models(sorted@) == sort_by_emission(m.take(i + 1)));
            }
            i += 1;
        }
        proof {
            assert(m.take(chunks@.len() as int) =~= m);
        }

        let mut render = String::new();
        let ghost sm = models(sorted@);
        let mut idx: usize = 0;
        while idx < sorted.len()
            invariant
                idx <= sorted.len(),
                sm == models(sorted@),
                render@ == render_of(sm.take(idx as int)),
            decreases sorted.len() - idx,
        {
            if idx > 0 {
                proof {
                    reveal_strlit(" ");
                    reveal_strlit(", ");
                    assert(" "@ =~= seq![' ']);
                    assert(", "@ =~= seq![',', ' ']);
                }
                let prev_key: i32 = match sorted[idx - 1].pos {
                    Some(p) => p,
                    None => 0,
                };
                let cur_key: i32 = match sorted[idx].pos {
                    Some(p) => p,
                    None => 0,
                };
                if prev_key == cur_key {
                    render.append(" ");
                } else {
                    render.append(", ");
                }
                assert(render@ == render_of(sm.take(idx as int)) + sep(
                    sm[idx - 1],
                    sm[idx as int],
                ));
            }
            render.append(sorted[idx].prompt.as_str());
            proof {
                assert(sm.take(idx + 1).drop_last() =~= sm.take(idx as int));
                if idx > 0 {
                    assert(sm.take(idx + 1)[idx - 1] == sm[idx - 1]);
                }
                assert(render@ == render_of(sm.take(idx + 1)));
            }
            idx += 1;
        }
        proof {
            assert(sm.take(sorted@.len() as int) =~= sm);
        }
        Prompt { render }
    }
}

/// A sequence is in emission order: every chunk may be emitted no later
/// than any chunk after it.
pub open spec fn emission_sorted(s: Seq<ChunkModel>) -> bool {
    forall|i: int, j: int| 0 <= i < j < s.len() ==> emit_le(#[trigger] s[i], #[trigger] s[j])
}

/// Inserting into an emission-sorted sequence keeps it sorted and adds
/// exactly the inserted chunk to its contents.
proof fn lemma_insert_sorted_props(c: ChunkModel, s: Seq<ChunkModel>)
    requires
        emission_sorted(s),
    ensures
        emission_sorted(insert_sorted(c, s)),
        insert_sorted(c, s).to_multiset() == s.to_multiset().insert(c),
        insert_sorted(c, s).len() == s.len() + 1,
    decreases s.len(),
{
    broadcast use vstd::seq_lib::group_to_multiset_ensures;
    broadcast use vstd::seq_lib::lemma_multiset_commutative;
    broadcast use vstd::multiset::group_multiset_axioms;

    let r = insert_sorted(c, s);
    if s.len() == 0 {
        assert(r =~= Seq::empty().push(c));
        assert(r.to_multiset() =~= s.to_multiset().insert(c));
    } else if emit_le(s[0], c) {
        let rest = s.drop_first();
        assert forall|i: int, j: int| 0 <= i < j < rest.len() implies emit_le(
            #[trigger] rest[i],
            #[trigger] rest[j],
        ) by {
            assert(rest[i] == s[i + 1]);
            assert(rest[j] == s[j + 1]);
        }
        lemma_insert_sorted_props(c, rest);
        let ir = insert_sorted(c, rest);
        assert(r == seq![s[0]] + ir);
        assert forall|j: int| 0 <= j < ir.len() implies emit_le(s[0], ir[j]) by {
            let x = ir[j];
            assert(ir.contains(x));
            assert(ir.to_multiset().count(x) > 0);
            if x == c {
            } else {
                assert(rest.to_multiset().count(x) > 0);
                assert(rest.contains(x));
                let k = choose|k: int| 0 <= k < rest.len() && rest[k] == x;
                assert(rest[k] == s[k + 1]);
                assert(emit_le(s[0], s[k + 1]));
            }
        }
        assert forall|i: int, j: int| 0 <= i < j < r.len() implies emit_le(
            #[trigger] r[i],
            #[trigger] r[j],
        ) by {
            if i > 0 {
                assert(r[i] == ir[i - 1]);
                assert(r[j] == ir[j - 1]);
            } else {
                assert(r[j] == ir[j - 1]);
            }
        }
        assert(seq![s[0]].to_multiset() =~= Multiset::empty().insert(s[0])) by {
            assert(seq![s[0]] =~= Seq::empty().push(s[0]));
        }
        assert(seq![s[0]] + rest =~= s);
        assert(r.to_multiset() =~= s.to_multiset().insert(c));
    } else {
        assert(r == seq![c] + s);
        crate::chunk::lemma_emit_le_total(s[0], c);
        assert(emit_le(c, s[0]));
        assert forall|i: int, j: int| 0 <= i < j < r.len() implies emit_le(
            #[trigger] r[i],
            #[trigger] r[j],
        ) by {
            if i == 0 {
                assert(r[j] == s[j - 1]);
                if j > 1 {
                    crate::chunk::lemma_emit_le_trans(c, s[0], s[j - 1]);
                }
            } else {
                assert(r[i] == s[i - 1]);
                assert(r[j] == s[j - 1]);
            }
        }
        assert(seq![c].to_multiset() =~= Multiset::empty().insert(c)) by {
            assert(seq![c] =~= Seq::empty().push(c));
        }
        assert(r.to_multiset() =~= s.to_multiset().insert(c));
    }
}

/// The emission order of any accumulated set is sorted and is a
/// permutation of it.
pub proof fn lemma_sort_by_emission_props(s: Seq<ChunkModel>)
    ensures
        emission_sorted(sort_by_emission(s)),
        sort_by_emission(s).to_multiset() == s.to_multiset(),
        sort_by_emission(s).len() == s.len(),
    decreases s.len(),
{
    broadcast use vstd::seq_lib::group_to_multiset_ensures;

    if s.len() > 0 {
        lemma_sort_by_emission_props(s.drop_last());
        lemma_insert_sorted_props(s.last(), sort_by_emission(s.drop_last()));
        assert(s =~= s.drop_last().push(s.last()));
    }
}

/// The ordering invariant of every rendered output: of two chunks A
/// before B in the emission order, either A's effective clause key is
/// greater, or the keys are equal and A has no `sub_pos` while B does,
/// or both have one and A's is no larger (that is, `emit_le(A, B)`); in
/// particular the clause keys never increase.
pub proof fn lemma_ordering_invariant(s: Seq<ChunkModel>, i: int, j: int)
    requires
        0 <= i < j < sort_by_emission(s).len(),
    ensures
        emit_le(sort_by_emission(s)[i], sort_by_emission(s)[j]),
        key(sort_by_emission(s)[i]) >= key(sort_by_emission(s)[j]),
{
    lemma_sort_by_emission_props(s);
}

/// The text of one clause: its chunks' texts joined by single spaces.
pub open spec fn space_joined(run: Seq<ChunkModel>) -> Seq<char>
    decreases run.len(),
{
    if run.len() == 0 {
        Seq::empty()
    } else if run.len() == 1 {
        run[0].text
    } else {
        space_joined(run.drop_last()) + seq![' '] + run.last().text
    }
}

/// Clause texts joined by `", "`, with no leading separator.
pub open spec fn comma_joined(runs: Seq<Seq<ChunkModel>>) -> Seq<char>
    decreases runs.len(),
{
    if runs.len() == 0 {
        Seq::empty()
    } else if runs.len() == 1 {
        space_joined(runs[0])
    } else {
        comma_joined(runs.drop_last()) + seq![',', ' '] + space_joined(runs.last())
    }
}

/// The maximal runs of adjacent equal-clause-key chunks, in order.
pub open spec fn key_runs(s: Seq<ChunkModel>) -> Seq<Seq<ChunkModel>>
    decreases s.len(),
{
    if s.len() == 0 {
        Seq::empty()
    } else {
        let rest = key_runs(s.drop_last());
        if s.len() >= 2 && key(s[s.len() - 2]) == key(s.last()) {
            rest.update(rest.len() - 1, rest.last().push(s.last()))
        } else {
            rest.push(seq![s.last()])
        }
    }
}

/// The punctuation invariant: the render of any emitted sequence is its
/// clause texts joined by `", "`, where the clauses are the maximal runs
/// of equal clause key, each space-joined in emission order, with no
/// separator before the first chunk; each clause is non-empty, all its
/// chunks share one clause key, and adjacent clauses have different keys.
pub proof fn lemma_punctuation_invariant(s: Seq<ChunkModel>)
    ensures
        render_of(s) == comma_joined(key_runs(s)),
        key_runs(s).len() > 0 <==> s.len() > 0,
        forall|r: int| 0 <= r < key_runs(s).len() ==> (#[trigger] key_runs(s)[r]).len() > 0,
        s.len() > 0 ==> key_runs(s).last().last() == s.last(),
        forall|r: int, a: int|
            0 <= r < key_runs(s).len() && 0 <= a < key_runs(s)[r].len() ==> key(
                #[trigger] key_runs(s)[r][a],
            ) == key(key_runs(s)[r][0]),
        forall|r: int|
            0 <= r < key_runs(s).len() - 1 ==> key((#[trigger] key_runs(s)[r])[0]) != key(
                key_runs(s)[r + 1][0],
            ),
    decreases s.len(),
{
    if s.len() == 0 {
    } else if s.len() == 1 {
        assert(key_runs(s.drop_last()) == Seq::<Seq<ChunkModel>>::empty());
        assert(key_runs(s) == Seq::<Seq<ChunkModel>>::empty().push(seq![s.last()]));
        assert(render_of(s) == s[0].text);
    } else {
        let t = s.drop_last();
        let c = s.last();
        let prev = s[s.len() - 2];
        lemma_punctuation_invariant(t);
        let rest = key_runs(t);
        let n = rest.len();
        assert(t.last() == prev);
        assert(rest.last().last() == prev);
        if key(prev) == key(c) {
            let runs = rest.update(n - 1, rest.last().push(c));
            assert(key_runs(s) == runs);
            let grown = rest.last().push(c);
            assert(space_joined(grown) == space_joined(rest.last()) + seq![' '] + c.text) by {
                assert(grown.drop_last() =~= rest.last());
                assert(grown.last() == c);
                assert(rest.last().len() > 0);
            }
            if n == 1 {
                assert(comma_joined(runs) == space_joined(grown));
                assert(render_of(s) == render_of(t) + sep(prev, c) + c.text);
                assert(render_of(s) =~= comma_joined(runs));
            } else {
                assert(runs.drop_last() =~= rest.drop_last());
                assert(runs.last() == grown);
                assert(comma_joined(runs) == comma_joined(rest.drop_last()) + seq![',', ' ']
                    + space_joined(grown));
                assert(comma_joined(rest) == comma_joined(rest.drop_last()) + seq![',', ' ']
                    + space_joined(rest.last()));
                assert(render_of(s) == render_of(t) + sep(prev, c) + c.text);
                assert(render_of(s) =~= comma_joined(runs));
            }
            assert forall|r: int, a: int|
                0 <= r < runs.len() && 0 <= a < runs[r].len() implies key(#[trigger] runs[r][a])
                == key(runs[r][0]) by {
                if r < n - 1 {
                    assert(runs[r] == rest[r]);
                } else {
                    assert(runs[r] == grown);
                    if a < grown.len() - 1 {
                        assert(grown[a] == rest.last()[a]);
                    } else {
                        assert(grown[a] == c);
                        assert(key(rest.last().last()) == key(rest.last()[0]));
                    }
                    assert(grown[0] == rest.last()[0]);
                }
            }
            assert forall|r: int| 0 <= r < runs.len() - 1 implies key((#[trigger] runs[r])[0])
                != key(runs[r + 1][0]) by {
                assert(runs[r] == rest[r]);
                if r + 1 < n - 1 {
                    assert(runs[r + 1] == rest[r + 1]);
                } else {
                    assert(runs[r + 1] == grown);
                    assert(grown[0] == rest.last()[0]);
                }
            }
        } else {
            let runs = rest.push(seq![c]);
            assert(key_runs(s) == runs);
            assert(runs.drop_last() =~= rest);
            assert(runs.last() == seq![c]);
            assert(comma_joined(runs) == comma_joined(rest) + seq![',', ' '] + c.text) by {
                assert(space_joined(seq![c]) == c.text);
            }
            assert(render_of(s) == render_of(t) + sep(prev, c) + c.text);
            assert(render_of(s) =~= comma_joined(runs));
            assert forall|r: int, a: int|
                0 <= r < runs.len() && 0 <= a < runs[r].len() implies key(#[trigger] runs[r][a])
                == key(runs[r][0]) by {
                if r < n {
                    assert(runs[r] == rest[r]);
                }
            }
            assert forall|r: int| 0 <= r < runs.len() - 1 implies key((#[trigger] runs[r])[0])
                != key(runs[r + 1][0]) by {
                assert(runs[r] == rest[r]);
                if r + 1 < n {
                    assert(runs[r + 1] == rest[r + 1]);
                } else {
                    assert(runs[r + 1] == seq![c]);
                    assert(key(rest.last()[0]) == key(rest.last().last()));
                }
            }
        }
    }
}

/// In an emission-sorted sequence the clauses carry strictly decreasing
/// clause keys: all chunks sharing one key value fall into exactly one
/// clause.
#[verifier::rlimit(50)]
pub proof fn lemma_sorted_runs_strict(s: Seq<ChunkModel>)
    requires
        emission_sorted(s),
    ensures
        forall|r1: int, r2: int|
            0 <= r1 < r2 < key_runs(s).len() ==> key((#[trigger] key_runs(s)[r1])[0]) > key(
                (#[trigger] key_runs(s)[r2])[0],
            ),
        forall|r: int|
            0 <= r < key_runs(s).len() && s.len() > 0 ==> key((#[trigger] key_runs(s)[r])[0])
                >= key(s.last()),
    decreases s.len(),
{
    lemma_punctuation_invariant(s);
    if s.len() <= 1 {
    } else {
        let t = s.drop_last();
        let c = s.last();
        let prev = s[s.len() - 2];
        assert forall|i: int, j: int| 0 <= i < j < t.len() implies emit_le(
            #[trigger] t[i],
            #[trigger] t[j],
        ) by {
            assert(t[i] == s[i]);
            assert(t[j] == s[j]);
        }
        lemma_sorted_runs_strict(t);
        lemma_punctuation_invariant(t);
        let rest = key_runs(t);
        let n = rest.len();
        assert(emit_le(prev, c));
        if key(prev) == key(c) {
            let runs = rest.update(n - 1, rest.last().push(c));
            assert(key_runs(s) == runs);
            assert forall|r: int| 0 <= r < runs.len() implies (#[trigger] runs[r])[0]
                == rest[r][0] by {
                if r < n - 1 {
                    assert(runs[r] == rest[r]);
                } else {
                    assert(runs[r] == rest.last().push(c));
                    assert(rest.last().push(c)[0] == rest.last()[0]);
                }
            }
            assert(key(t.last()) == key(c));
        } else {
            let runs = rest.push(seq![c]);
            assert(key_runs(s) == runs);
            assert(key(prev) > key(c));
            assert forall|r: int| 0 <= r < runs.len() implies key(
                (#[trigger] runs[r])[0],
            ) >= key(c) by {
                if r < n {
                    assert(runs[r] == rest[r]);
                    assert(key(rest[r][0]) >= key(t.last()));
                } else {
                    assert(runs[r] == seq![c]);
                }
            }
            assert forall|r1: int, r2: int| 0 <= r1 < r2 < runs.len() implies key(
                (#[trigger] runs[r1])[0],
            ) > key((#[trigger] runs[r2])[0]) by {
                if r2 < n {
                    assert(runs[r1] == rest[r1]);
                    assert(runs[r2] == rest[r2]);
                } else {
                    assert(runs[r1] == rest[r1]);
                    assert(runs[r2] == seq![c]);
                    assert(key(rest[r1][0]) >= key(t.last()));
                    assert(key(t.last()) == key(prev));
                }
            }
        }
    }
}

/// Determinism of explicit composition: for one group and one list of
/// `(slot, index)` pairs, the explicitly composed render is a single
/// value — the whole pipeline is a function of its inputs.
pub proof fn lemma_explicit_composition_deterministic(
    g: ChunksModel,
    pairs: Seq<(Seq<char>, int)>,
    r1: Seq<char>,
    r2: Seq<char>,
)
    requires
        r1 == built_render(explicit_selection(g, pairs)),
        r2 == built_render(explicit_selection(g, pairs)),
    ensures
        r1 == r2,
{
}

/// The first position in the emission-sorted `sorted` whose chunk must be
/// emitted strictly after `c`, i.e. where `c` is to be inserted.
fn insertion_point(sorted: &Vec<Chunk>, c: &Chunk) -> (j: usize)
    ensures
        j <= sorted@.len(),
        forall|k: int| 0 <= k < j ==> emit_le(models(sorted@)[k], c@),
        j < sorted@.len() ==> !emit_le(models(sorted@)[j as int], c@),
{
    let mut j: usize = 0;
    loop
        invariant
            j <= sorted@.len(),
            forall|k: int| 0 <= k < j ==> emit_le(models(sorted@)[k], c@),
        ensures
            j <= sorted@.len(),
            forall|k: int| 0 <= k < j ==> emit_le(models(sorted@)[k], c@),
            j < sorted@.len() ==> !emit_le(models(sorted@)[j as int], c@),
        decreases sorted@.len() - j,
    {
        if j == sorted.len() {
            break;
        }
        if !sorted[j].emit_before_eq(c) {
            break;
        }
        j += 1;
    }
    j
}

} // verus!
