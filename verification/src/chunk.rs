//! Atomic prompt fragments and their ordering model.
//!
//! A [`Chunk`] is a piece of prompt text with two optional ordering keys:
//! `pos` (the clause key, absent meaning `0`) and `sub_pos` (a tie-break
//! within a clause, where an absent key sorts ahead of any present one).

use vstd::prelude::*;
use vstd::std_specs::cmp::PartialOrdSpec;

verus! {

/// The mathematical model of a chunk: its text and its two optional keys,
/// widened to unbounded integers.
pub ghost struct ChunkModel {
    pub text: Seq<char>,
    pub pos: Option<int>,
    pub sub_pos: Option<int>,
}

/// A text fragment with an optional clause key (`pos`) and an optional
/// tie-break key (`sub_pos`).
#[derive(Debug, Eq, Hash)]
pub struct Chunk {
    pub prompt: String,
    pub pos: Option<i32>,
    pub sub_pos: Option<i32>,
}

/// The model of a sequence of chunks: each element replaced by its model.
pub open spec fn models(s: Seq<Chunk>) -> Seq<ChunkModel> {
    s.map_values(|c: Chunk| c@)
}

/// Chunks are equal exactly when their clause keys (`pos`) are equal; the
/// text and the tie-break key deliberately play no part.
impl PartialEq for Chunk {
    fn eq(&self, other: &Self) -> bool {
        match (self.pos, other.pos) {
            (None, None) => true,
            (Some(a), Some(b)) => a == b,
            _ => false,
        }
    }
}

impl vstd::std_specs::cmp::PartialEqSpecImpl for Chunk {
    open spec fn obeys_eq_spec() -> bool {
        true
    }

    open spec fn eq_spec(&self, other: &Chunk) -> bool {
        self.pos == other.pos
    }
}

impl Clone for Chunk {
    fn clone(&self) -> (r: Self)
        ensures
            r == *self,
    {
        Chunk { prompt: self.prompt.clone(), pos: self.pos, sub_pos: self.sub_pos }
    }
}

/// Chunks compare by effective clause key, reversed (a larger key
/// compares `Less`), and on equal keys by `sub_pos` with an absent key
/// first. A max-extraction over the reversed comparison yields the
/// emission order; see [`lemma_partial_cmp_matches_emission`].
impl PartialOrd for Chunk {
    fn partial_cmp(&self, other: &Self) -> Option<core::cmp::Ordering> {
        let ka: i32 = match self.pos {
            Some(p) => p,
            None => 0,
        };
        let kb: i32 = match other.pos {
            Some(p) => p,
            None => 0,
        };
        if ka < kb {
            Some(core::cmp::Ordering::Greater)
        } else if ka > kb {
            Some(core::cmp::Ordering::Less)
        } else {
            match (self.sub_pos, other.sub_pos) {
                (None, None) => Some(core::cmp::Ordering::Equal),
                (None, Some(_)) => Some(core::cmp::Ordering::Less),
                (Some(_), None) => Some(core::cmp::Ordering::Greater),
                (Some(x), Some(y)) => if x < y {
                    Some(core::cmp::Ordering::Less)
                } else if x > y {
                    Some(core::cmp::Ordering::Greater)
                } else {
                    Some(core::cmp::Ordering::Equal)
                },
            }
        }
    }
}

impl vstd::std_specs::cmp::PartialOrdSpecImpl for Chunk {
    open spec fn obeys_partial_cmp_spec() -> bool {
        true
    }

    open spec fn partial_cmp_spec(&self, other: &Chunk) -> Option<core::cmp::Ordering> {
        if key(self@) < key(other@) {
            Some(core::cmp::Ordering::Greater)
        } else if key(self@) > key(other@) {
            Some(core::cmp::Ordering::Less)
        } else {
            match (self@.sub_pos, other@.sub_pos) {
                (None, None) => Some(core::cmp::Ordering::Equal),
                (None, Some(_)) => Some(core::cmp::Ordering::Less),
                (Some(_), None) => Some(core::cmp::Ordering::Greater),
                (Some(x), Some(y)) => if x < y {
                    Some(core::cmp::Ordering::Less)
                } else if x > y {
                    Some(core::cmp::Ordering::Greater)
                } else {
                    Some(core::cmp::Ordering::Equal)
                },
            }
        }
    }
}

/// The comparison agrees with the emission order: a chunk compares
/// less-or-equal to another exactly when it may be emitted no later.
pub proof fn lemma_partial_cmp_matches_emission(a: Chunk, b: Chunk)
    ensures
        (a.partial_cmp_spec(&b) matches Some(
            core::cmp::Ordering::Less
            | core::cmp::Ordering::Equal,
        )) <==> emit_le(a@, b@),
{
}

impl View for Chunk {
    type V = ChunkModel;

    open spec fn view(&self) -> ChunkModel {
        ChunkModel {
            text: self.prompt@,
            pos: match self.pos {
                Some(p) => Some(p as int),
                None => None,
            },
            sub_pos: match self.sub_pos {
                Some(p) => Some(p as int),
                None => None,
            },
        }
    }
}

/// The effective clause key of a chunk: `pos`, with an absent key read as 0.
pub open spec fn key(c: ChunkModel) -> int {
    match c.pos {
        Some(p) => p,
        None => 0,
    }
}

/// Emission order: `emit_le(a, b)` holds when `a` may be emitted no later
/// than `b`. Chunks with a larger clause key come first; on equal keys a
/// chunk without a `sub_pos` precedes any chunk that has one, and two
/// present `sub_pos` keys are emitted in increasing order.
pub open spec fn emit_le(a: ChunkModel, b: ChunkModel) -> bool {
    ||| key(a) > key(b)
    ||| (key(a) == key(b) && match (a.sub_pos, b.sub_pos) {
        (None, _) => true,
        (Some(_), None) => false,
        (Some(x), Some(y)) => x <= y,
    })
}

/// `emit_le` is total: any two chunks are comparable.
pub proof fn lemma_emit_le_total(a: ChunkModel, b: ChunkModel)
    ensures
        emit_le(a, b) || emit_le(b, a),
{
}

/// `emit_le` is transitive.
pub proof fn lemma_emit_le_trans(a: ChunkModel, b: ChunkModel, c: ChunkModel)
    ensures
        emit_le(a, b) && emit_le(b, c) ==> emit_le(a, c),
{
}

/// The mathematical model of a chunk group: the always-included defaults
/// (an absent `defaults` field reads as the empty sequence) and the named
/// variant slots in declaration order.
pub ghost struct ChunksModel {
    pub defaults: Seq<ChunkModel>,
    pub variants: Seq<(Seq<char>, Seq<ChunkModel>)>,
}

/// A chunk group as one definition file declares it: optional default
/// chunks, plus named slots of candidate chunks from which one is chosen
/// per generation. Slot names are unique; the declaration order is kept.
#[derive(Debug)]
pub struct Chunks {
    pub defaults: Option<Vec<Chunk>>,
    pub variants: Vec<(String, Vec<Chunk>)>,
}

/// The model of a slot list: each slot name with the models of its
/// candidates.
pub open spec fn variants_model(s: Seq<(String, Vec<Chunk>)>) -> Seq<(Seq<char>, Seq<ChunkModel>)> {
    s.map_values(|p: (String, Vec<Chunk>)| (p.0@, models(p.1@)))
}

impl View for Chunks {
    type V = ChunksModel;

    open spec fn view(&self) -> ChunksModel {
        ChunksModel {
            defaults: match self.defaults {
                Some(d) => models(d@),
                None => Seq::empty(),
            },
            variants: variants_model(self.variants@),
        }
    }
}

/// The index of the first slot named `name`, or -1 when no slot has that
/// name.
pub open spec fn slot_index(vs: Seq<(Seq<char>, Seq<ChunkModel>)>, name: Seq<char>) -> int
    decreases vs.len(),
{
    if vs.len() == 0 {
        -1
    } else if vs[0].0 == name {
        0
    } else {
        let rest = slot_index(vs.drop_first(), name);
        if rest < 0 {
            -1
        } else {
            rest + 1
        }
    }
}

/// Whether the group declares a slot named `name`.
pub open spec fn has_slot(g: ChunksModel, name: Seq<char>) -> bool {
    slot_index(g.variants, name) >= 0
}

/// Every slot of the group offers at least one candidate, the load-time
/// invariant that makes generation total.
pub open spec fn slots_nonempty(g: ChunksModel) -> bool {
    forall|k: int| 0 <= k < g.variants.len() ==> g.variants[k].1.len() > 0
}

/// `slot_index` returns a sound index: in range, with the requested name.
pub proof fn lemma_slot_index_sound(vs: Seq<(Seq<char>, Seq<ChunkModel>)>, name: Seq<char>)
    ensures
        slot_index(vs, name) >= 0 ==> 0 <= slot_index(vs, name) < vs.len()
            && vs[slot_index(vs, name)].0 == name,
        slot_index(vs, name) < 0 ==> forall|k: int| 0 <= k < vs.len() ==> vs[k].0 != name,
    decreases vs.len(),
{
    if vs.len() > 0 && vs[0].0 != name {
        lemma_slot_index_sound(vs.drop_first(), name);
        if slot_index(vs, name) < 0 {
            assert forall|k: int| 0 <= k < vs.len() implies vs[k].0 != name by {
                if k > 0 {
                    assert(vs.drop_first()[k - 1] == vs[k]);
                }
            }
        }
    }
}

/// A linear first-match search agrees with `slot_index`: if the first `j`
/// names all differ from `name`, the match at `j` (or the failure at the
/// end) is the spec-level answer.
proof fn lemma_slot_index_first_match(
    vs: Seq<(Seq<char>, Seq<ChunkModel>)>,
    name: Seq<char>,
    j: int,
)
    requires
        0 <= j <= vs.len(),
        forall|k: int| 0 <= k < j ==> vs[k].0 != name,
        j < vs.len() ==> vs[j].0 == name,
    ensures
        slot_index(vs, name) == if j == vs.len() { -1int } else { j },
    decreases j,
{
    if j > 0 {
        lemma_slot_index_first_match(vs.drop_first(), name, j - 1);
    }
}

/// Mapping a sequence commutes with appending one element.
pub proof fn lemma_map_values_push<A, B>(s: Seq<A>, f: spec_fn(A) -> B, x: A)
    ensures
        s.push(x).map_values(f) == s.map_values(f).push(f(x)),
{
    assert(s.push(x).map_values(f) =~= s.map_values(f).push(f(x)));
}

/// An element-wise copy of a chunk vector.
fn clone_chunk_vec(v: &Vec<Chunk>) -> (r: Vec<Chunk>)
    ensures
        r@ == v@,
{
    let mut r: Vec<Chunk> = Vec::new();
    let mut i: usize = 0;
    while i < v.len()
        invariant
            i <= v@.len(),
            r@ == v@.take(i as int),
        decreases v@.len() - i,
    {
        r.push(v[i].clone());
        proof {
            assert(r@ =~= v@.take(i + 1));
        }
        i += 1;
    }
    proof {
        assert(v@.take(v@.len() as int) =~= v@);
    }
    r
}

impl Clone for Chunks {
    fn clone(&self) -> (r: Self)
        ensures
            r@ == self@,
    {
        let defaults = match &self.defaults {
            Some(d) => Some(clone_chunk_vec(d)),
            None => None,
        };
        let mut variants: Vec<(String, Vec<Chunk>)> = Vec::new();
        let mut i: usize = 0;
        while i < self.variants.len()
            invariant
                i <= self.variants@.len(),
                variants_model(variants@) == variants_model(self.variants@).take(i as int),
            decreases self.variants@.len() - i,
        {
            let pair = &self.variants[i];
            let name_c = pair.0.clone();
            let candidates_c = clone_chunk_vec(&pair.1);
            let ghost prev = variants@;
            variants.push((name_c, candidates_c));
            proof {
                assert(variants_model(prev).len() == prev.len());
                assert(prev.len() == i);
                assert(variants@ == prev.push(variants@[i as int]));
                assert forall|k: int| 0 <= k < i + 1 implies variants_model(variants@)[k]
                    == variants_model(self.variants@).take(i + 1)[k] by {
                    if k < i {
                        assert(variants@[k] == prev[k]);
                        assert(variants_model(prev)[k] == variants_model(self.variants@).take(
                            i as int,
                        )[k]);
                    } else {
                        assert(variants@[k] == (name_c, candidates_c));
                        assert(variants_model(variants@)[k] == (name_c@, models(candidates_c@)));
                        assert(models(candidates_c@) == models(pair.1@));
                    }
                }
                assert(variants_model(variants@) =~= variants_model(self.variants@).take(i + 1));
            }
            i += 1;
        }
        proof {
            let n = self.variants@.len() as int;
            assert(variants_model(self.variants@).take(n) =~= variants_model(self.variants@));
        }
        Chunks { defaults, variants }
    }
}

impl Chunks {
    /// The position of the slot named `name`, when the group declares one.
    pub(crate) fn find_slot(&self, name: &String) -> (r: Option<usize>)
        ensures
            match r {
                Some(j) => slot_index(self@.variants, name@) == j as int,
                None => slot_index(self@.variants, name@) == -1,
            },
    {
        let mut j: usize = 0;
        loop
            invariant
                j <= self.variants@.len(),
                forall|k: int| 0 <= k < j ==> self@.variants[k].0 != name@,
            ensures
                j == self.variants@.len(),
                forall|k: int| 0 <= k < j ==> self@.variants[k].0 != name@,
            decreases self.variants@.len() - j,
        {
            if j == self.variants.len() {
                break;
            }
            if self.variants[j].0.eq(name) {
                proof {
                    lemma_slot_index_first_match(self@.variants, name@, j as int);
                }
                return Some(j);
            }
            j += 1;
        }
        proof {
            lemma_slot_index_first_match(self@.variants, name@, self@.variants.len() as int);
        }
        None
    }
}

impl Chunk {
    /// Decides the emission order of two chunks, the comparator under which
    /// the composer sorts.
    pub fn emit_before_eq(&self, other: &Chunk) -> (r: bool)
        ensures
            r == emit_le(self@, other@),
    {
        let ka = match self.pos {
            Some(p) => p,
            None => 0,
        };
        let kb = match other.pos {
            Some(p) => p,
            None => 0,
        };
        if ka > kb {
            true
        } else if ka < kb {
            false
        } else {
            match (self.sub_pos, other.sub_pos) {
                (None, _) => true,
                (Some(_), None) => false,
                (Some(x), Some(y)) => x <= y,
            }
        }
    }
}

} // verus!
