//! Bookkeeping around the approximate-nearest-neighbour graph.
//!
//! The graph itself works on internal indices and knows nothing of
//! identifiers. This module decides which index a vector is inserted under,
//! which indices are retired, and which of the graph's answers are still
//! addressable. The graph is driven by the caller: [`HnswBackend::insert`]
//! returns the index to insert under, and [`HnswBackend::search_with_ef`]
//! takes the graph's answer as an argument.

use vstd::prelude::*;
use crate::ident::{IdMap, Slots, holds_at, is_live, retired, live_count, live_pairs};
use crate::score::{distinct_hits, law_rank_order_unique, lemma_distinct_scores, rank, ranked};
use crate::text::{decimal, push_decimal, push_str, string_of, chars_of};

verus! {

/// Distance function of a collection.
#[derive(Clone, Copy, Debug, PartialEq, Eq, Structural)]
pub enum Distance {
    Cosine,
    Euclidean,
    DotProduct,
}

/// How a distance reported by the graph becomes a score.
#[derive(Clone, Copy, Debug, PartialEq, Eq, Structural)]
pub enum ScoreRule {
    /// `1 - distance`.
    OneMinusDistance,
    /// `1 / (1 + distance)`.
    InverseOnePlusDistance,
}

impl Distance {
    /// The score rule of each distance: the inverse form for squared
    /// Euclidean distance, one minus the distance for the other two.
    pub open spec fn spec_score_rule(self) -> ScoreRule {
        match self {
            Distance::Euclidean => ScoreRule::InverseOnePlusDistance,
            _ => ScoreRule::OneMinusDistance,
        }
    }

    /// The rule by which a distance under `self` turns into a score.
    pub fn score_rule(self) -> (r: ScoreRule)
        ensures
            r == self.spec_score_rule(),
    {
        match self {
            Distance::Euclidean => ScoreRule::InverseOnePlusDistance,
            Distance::Cosine => ScoreRule::OneMinusDistance,
            Distance::DotProduct => ScoreRule::OneMinusDistance,
        }
    }
}

/// Parameters of the graph, fixed when a collection is created.
#[derive(Clone, Copy, Debug, PartialEq, Eq, Structural)]
pub struct GraphParams {
    /// Maximum number of bidirectional connections per node.
    pub m: usize,
    /// Size of the candidate list during insertion.
    pub ef_construction: usize,
    /// Upper bound on the layer index.
    pub max_layer: usize,
    /// Capacity hint.
    pub max_elements: usize,
}

impl GraphParams {
    /// `16`, `200`, `16`, `100000`.
    pub open spec fn spec_default() -> GraphParams {
        GraphParams { m: 16, ef_construction: 200, max_layer: 16, max_elements: 100000 }
    }

    /// The default parameters.
    pub fn defaults() -> (p: GraphParams)
        ensures
            p == Self::spec_default(),
    {
        GraphParams { m: 16, ef_construction: 200, max_layer: 16, max_elements: 100000 }
    }

    /// Every parameter is positive.
    pub open spec fn spec_valid(self) -> bool {
        self.m > 0 && self.ef_construction > 0 && self.max_layer > 0 && self.max_elements > 0
    }

    /// Whether the parameters can be used to create a graph.
    pub fn valid(&self) -> (b: bool)
        ensures
            b == self.spec_valid(),
    {
        self.m > 0 && self.ef_construction > 0 && self.max_layer > 0 && self.max_elements > 0
    }
}

/// Size of the dynamic candidate list when a search names none.
pub const DEFAULT_EF_SEARCH: usize = 200;

/// Why a backend operation was refused.
#[derive(Debug)]
pub enum BackendError {
    /// A vector to insert has the wrong length.
    VectorDimension { expected: usize, got: usize },
    /// A query vector has the wrong length.
    QueryDimension { expected: usize, got: usize },
    /// The identifier is not live.
    IdNotFound(String),
    /// The mappings handed to `restore` name one identifier twice.
    DuplicateId(String),
    /// The graph cannot be drawn.
    NoVisualizer,
}

/// The text of a dimension complaint.
pub open spec fn dimension_message(what: Seq<char>, expected: nat, got: nat) -> Seq<char> {
    what + " dimension mismatch: expected "@ + decimal(expected) + ", got "@ + decimal(got)
}

impl BackendError {
    /// The message of each error.
    pub open spec fn spec_message(self) -> Seq<char> {
        match self {
            BackendError::VectorDimension { expected, got } => dimension_message(
                "Vector"@,
                expected as nat,
                got as nat,
            ),
            BackendError::QueryDimension { expected, got } => dimension_message(
                "Query"@,
                expected as nat,
                got as nat,
            ),
            BackendError::IdNotFound(id) => "ID not found: "@ + id@,
            BackendError::DuplicateId(id) => "Duplicate ID: "@ + id@,
            BackendError::NoVisualizer => "Graph visualization is not supported on native targets."@,
        }
    }

    /// The error as a line of text.
    pub fn message(&self) -> (s: String)
        ensures
            s@ == self.spec_message(),
    {
        let mut out: Vec<char> = Vec::new();
        match self {
            BackendError::VectorDimension { expected, got } => {
                push_str(&mut out, "Vector");
                push_str(&mut out, " dimension mismatch: expected ");
                push_decimal(&mut out, *expected);
                push_str(&mut out, ", got ");
                push_decimal(&mut out, *got);
            },
            BackendError::QueryDimension { expected, got } => {
                push_str(&mut out, "Query");
                push_str(&mut out, " dimension mismatch: expected ");
                push_decimal(&mut out, *expected);
                push_str(&mut out, ", got ");
                push_decimal(&mut out, *got);
            },
            BackendError::IdNotFound(id) => {
                push_str(&mut out, "ID not found: ");
                push_str(&mut out, id.as_str());
            },
            BackendError::DuplicateId(id) => {
                push_str(&mut out, "Duplicate ID: ");
                push_str(&mut out, id.as_str());
            },
            BackendError::NoVisualizer => {
                push_str(&mut out, "Graph visualization is not supported on native targets.");
            },
        }
        assert(out@ =~= self.spec_message());
        string_of(&out)
    }
}

/// `s` after `id` was given a fresh index: its old slot, if any, is a
/// tombstone and a new slot at the end holds it.
pub open spec fn assigned(s: Slots, id: Seq<char>) -> Slots {
    retired(s, id).push(Some(id))
}

/// `s` after each of `ids` was given a fresh index, in order.
pub open spec fn assigned_all(s: Slots, ids: Seq<Seq<char>>) -> Slots
    decreases ids.len(),
{
    if ids.len() == 0 {
        s
    } else {
        assigned(assigned_all(s, ids.drop_last()), ids.last())
    }
}

/// The identifiers of a batch, in order.
pub open spec fn batch_ids(items: Seq<(String, Vec<u32>)>) -> Seq<Seq<char>> {
    items.map_values(|it: (String, Vec<u32>)| it.0@)
}

/// A vector of length `len` fits a backend of dimension `dim`; dimension 0
/// accepts every length.
pub open spec fn fits(dim: usize, len: nat) -> bool {
    dim == 0 || len == dim
}

/// Item `j` is the first of the batch whose vector does not fit.
pub open spec fn first_misfit(dim: usize, items: Seq<(String, Vec<u32>)>, j: int) -> bool {
    &&& 0 <= j < items.len()
    &&& !fits(dim, items[j].1@.len())
    &&& forall|i: int| 0 <= i < j ==> fits(dim, (#[trigger] items[i]).1@.len())
}

/// Every vector of the batch fits.
pub open spec fn all_fit(dim: usize, items: Seq<(String, Vec<u32>)>) -> bool {
    forall|i: int| 0 <= i < items.len() ==> fits(dim, (#[trigger] items[i]).1@.len())
}

/// The slots that a list of optional identifiers stands for.
pub open spec fn slot_views(slots: Seq<Option<String>>) -> Slots {
    slots.map_values(|o: Option<String>| crate::ident::slot_view(o))
}

/// One answer of the graph: an internal index and the bits of its score.
pub type Hit = (usize, u32);

/// The first `k` of the answers that are still addressable, each with its
/// identifier and score, in the order given.
pub open spec fn resolved(s: Slots, hits: Seq<Hit>, k: nat) -> Seq<(Seq<char>, u32)>
    decreases hits.len(),
{
    if hits.len() == 0 {
        Seq::empty()
    } else {
        let h = hits.last();
        let rest = resolved(s, hits.drop_last(), k);
        if rest.len() < k && h.0 < s.len() && s[h.0 as int] is Some {
            rest.push((s[h.0 as int]->0, h.1))
        } else {
            rest
        }
    }
}

/// `out` answers a search for `k` results to which the graph gave `hits`:
/// it is the first `k` of the addressable answers of a ranking of `hits`.
pub open spec fn answers_search(slots: Slots, hits: Seq<Hit>, k: nat, out: Seq<(Seq<char>, u32)>) -> bool {
    exists|order: Seq<Hit>|
        ranked(order) && order.to_multiset() == hits.to_multiset() && out == #[trigger] resolved(
            slots,
            order,
            k,
        )
}

/// Backends that hold the same identifiers, as one that was restored from
/// the mappings of another does, give the same answers to a search for
/// which the graph gave the same answer, where that answer names no index
/// twice.
pub proof fn law_search_agrees(
    slots: Slots,
    hits: Seq<Hit>,
    k: nat,
    a: Seq<(Seq<char>, u32)>,
    b: Seq<(Seq<char>, u32)>,
)
    requires
        distinct_hits(hits),
        answers_search(slots, hits, k, a),
        answers_search(slots, hits, k, b),
    ensures
        a == b,
{
    let x = choose|order: Seq<Hit>|
        ranked(order) && order.to_multiset() == hits.to_multiset() && a == #[trigger] resolved(
            slots,
            order,
            k,
        );
    let y = choose|order: Seq<Hit>|
        ranked(order) && order.to_multiset() == hits.to_multiset() && b == #[trigger] resolved(
            slots,
            order,
            k,
        );
    lemma_distinct_scores(hits);
    law_rank_order_unique(x, y);
}

/// No more than `k` answers are resolved.
pub proof fn lemma_resolved_len(s: Slots, hits: Seq<Hit>, k: nat)
    ensures
        resolved(s, hits, k).len() <= k,
        resolved(s, hits, k).len() <= hits.len(),
    decreases hits.len(),
{
    if hits.len() > 0 {
        lemma_resolved_len(s, hits.drop_last(), k);
    }
}

/// The identifier side of the graph: which index each identifier owns, and
/// the dimension and distance that the graph was made for.
pub struct HnswBackend {
    ids: IdMap,
    dimension: usize,
    distance: Distance,
}

impl View for HnswBackend {
    type V = Slots;

    closed spec fn view(&self) -> Slots {
        self.ids@
    }
}

impl HnswBackend {
    /// The dimension that vectors must have; 0 accepts every length.
    pub closed spec fn spec_dimension(&self) -> usize {
        self.dimension
    }

    /// The distance function.
    pub closed spec fn spec_distance(&self) -> Distance {
        self.distance
    }

    /// The two directions of the identifier map agree.
    pub closed spec fn wf(&self) -> bool {
        self.ids.wf()
    }

    /// A well-formed backend never holds an identifier twice.
    pub proof fn lemma_distinct(&self)
        requires
            self.wf(),
        ensures
            crate::ident::distinct(self@),
    {
        self.ids.lemma_wf();
    }

    /// A backend without any identifier.
    pub fn new(dimension: usize, distance: Distance) -> (b: HnswBackend)
        ensures
            b.wf(),
            b@ == Seq::<Option<Seq<char>>>::empty(),
            b.spec_dimension() == dimension,
            b.spec_distance() == distance,
    {
        HnswBackend { ids: IdMap::new(), dimension, distance }
    }

    /// A backend with the given mappings: position `i` of `slots` holds the
    /// identifier that owns index `i`, or nothing. Mappings that name one
    /// identifier twice are refused, with the first identifier that comes
    /// again.
    pub fn restore(dimension: usize, distance: Distance, slots: Vec<Option<String>>) -> (r: Result<
        HnswBackend,
        BackendError,
    >)
        ensures
            r is Ok <==> crate::ident::distinct(slot_views(slots@)),
            r is Ok ==> r->Ok_0.wf() && r->Ok_0@ == slot_views(slots@) && r->Ok_0.spec_dimension()
                == dimension && r->Ok_0.spec_distance() == distance,
            r is Err ==> r->Err_0 is DuplicateId && exists|i: int, j: int|
                0 <= i < j < slots@.len() && slot_views(slots@)[j] == Some(r->Err_0->DuplicateId_0@)
                    && slot_views(slots@)[i] == slot_views(slots@)[j],
    {
        let ghost want = slot_views(slots@);
        let n = slots.len();
        let mut items = slots;
        let mut ids = IdMap::new();
        let mut k: usize = 0;
        assert(want.take(0) =~= Seq::empty());
        while k < n
            invariant
                n == items@.len(),
                n == want.len(),
                want == slot_views(slots@),
                k <= n,
                forall|j: int| k <= j < n ==> crate::ident::slot_view(#[trigger] items@[j]) == want[j],
                ids.wf(),
                ids@ == want.take(k as int),
            decreases n - k,
        {
            let mut slot: Option<String> = None;
            items.set_and_swap(k, &mut slot);
            let name = match &slot {
                Some(id) => id.clone(),
                None => String::new(),
            };
            let ghost before = ids@;
            if !ids.push_slot(slot) {
                proof {
                    let id = want[k as int]->Some_0;
                    assert(name@ == id);
                    let j = choose|j: int| holds_at(before, j, id);
                    assert(holds_at(want, j, id));
                    assert(holds_at(want, k as int, id));
                    assert(0 <= j < k < want.len() && want[k as int] == Some(name@) && want[j]
                        == want[k as int]);
                    assert(!crate::ident::distinct(want));
                }
                return Err(BackendError::DuplicateId(name));
            }
            assert(want.take(k as int + 1) =~= want.take(k as int).push(want[k as int]));
            k += 1;
        }
        proof {
            assert(want.take(n as int) =~= want);
            ids.lemma_wf();
        }
        Ok(HnswBackend { ids, dimension, distance })
    }

    /// Replaces the mappings, as [`HnswBackend::restore`] sets them.
    /// Mappings that are refused change nothing.
    pub fn set_mappings(&mut self, slots: Vec<Option<String>>) -> (r: Result<(), BackendError>)
        requires
            old(self).wf(),
        ensures
            final(self).wf(),
            final(self).spec_dimension() == old(self).spec_dimension(),
            final(self).spec_distance() == old(self).spec_distance(),
            r is Ok <==> crate::ident::distinct(slot_views(slots@)),
            r is Ok ==> final(self)@ == slot_views(slots@),
            r is Err ==> final(self)@ == old(self)@,
    {
        match HnswBackend::restore(self.dimension, self.distance, slots) {
            Ok(b) => {
                *self = b;
                Ok(())
            },
            Err(e) => Err(e),
        }
    }

    /// The dimension that vectors must have; 0 accepts every length.
    pub fn dimension(&self) -> (d: usize)
        ensures
            d == self.spec_dimension(),
    {
        self.dimension
    }

    /// The distance function.
    pub fn distance(&self) -> (d: Distance)
        ensures
            d == self.spec_distance(),
    {
        self.distance
    }

    /// Number of live identifiers.
    pub fn len(&self) -> (n: usize)
        requires
            self.wf(),
        ensures
            n == live_count(self@),
    {
        self.ids.len()
    }

    /// Registers `vector` under `id` and returns the index under which the
    /// graph must insert it. A vector of the wrong length is refused and
    /// nothing changes.
    pub fn insert(&mut self, id: String, vector: &[u32]) -> (r: Result<usize, BackendError>)
        requires
            old(self).wf(),
        ensures
            final(self).wf(),
            final(self).spec_dimension() == old(self).spec_dimension(),
            final(self).spec_distance() == old(self).spec_distance(),
            r is Ok <==> fits(old(self).spec_dimension(), vector@.len()),
            match r {
                Ok(idx) => idx == old(self)@.len() && final(self)@ == assigned(old(self)@, id@),
                Err(e) => final(self)@ == old(self)@ && e == (BackendError::VectorDimension {
                    expected: old(self).spec_dimension(),
                    got: vector@.len() as usize,
                }),
            },
    {
        if self.dimension > 0 && vector.len() != self.dimension {
            return Err(BackendError::VectorDimension { expected: self.dimension, got: vector.len() });
        }
        Ok(self.ids.assign_new(id))
    }

    /// Checks a whole batch, then registers every item in order. Returns the
    /// indices under which the graph must insert the vectors, one per item.
    /// The first vector of the wrong length fails the batch and nothing
    /// changes.
    pub fn batch_insert(&mut self, items: Vec<(String, Vec<u32>)>) -> (r: Result<
        Vec<usize>,
        BackendError,
    >)
        requires
            old(self).wf(),
        ensures
            final(self).wf(),
            final(self).spec_dimension() == old(self).spec_dimension(),
            final(self).spec_distance() == old(self).spec_distance(),
            r is Ok <==> all_fit(old(self).spec_dimension(), items@),
            match r {
                Ok(indices) => {
                    &&& final(self)@ == assigned_all(old(self)@, batch_ids(items@))
                    &&& indices@.len() == items@.len()
                    &&& forall|k: int|
                        0 <= k < indices@.len() ==> #[trigger] indices@[k] == old(self)@.len() + k
                },
                Err(e) => {
                    &&& final(self)@ == old(self)@
                    &&& exists|j: int|
                        first_misfit(old(self).spec_dimension(), items@, j) && e == (
                        BackendError::VectorDimension {
                            expected: old(self).spec_dimension(),
                            got: items@[j].1@.len() as usize,
                        })
                },
            },
    {
        let n = items.len();
        let mut j: usize = 0;
        while j < n
            invariant
                n == items@.len(),
                j <= n,
                *self == *old(self),
                self.wf(),
                forall|i: int| 0 <= i < j ==> fits(self.dimension, (#[trigger] items@[i]).1@.len()),
            decreases n - j,
        {
            let len = items[j].1.len();
            if self.dimension > 0 && len != self.dimension {
                let e = BackendError::VectorDimension { expected: self.dimension, got: len };
                assert(first_misfit(self.dimension, items@, j as int) && e == (
                BackendError::VectorDimension {
                    expected: old(self).spec_dimension(),
                    got: items@[j as int].1@.len() as usize,
                }));
                return Err(e);
            }
            j += 1;
        }
        let mut indices: Vec<usize> = Vec::new();
        let ghost ids = batch_ids(items@);
        let mut items = items;
        let mut k: usize = 0;
        assert(ids.take(0) =~= Seq::<Seq<char>>::empty());
        while k < n
            invariant
                n == ids.len(),
                k <= n,
                items@.len() == n,
                forall|i: int| k <= i < n ==> (#[trigger] items@[i]).0@ == ids[i],
                self.wf(),
                self.dimension == old(self).dimension,
                self.distance == old(self).distance,
                self@ == assigned_all(old(self)@, ids.take(k as int)),
                self@.len() == old(self)@.len() + k,
                indices@.len() == k,
                forall|i: int| 0 <= i < k ==> #[trigger] indices@[i] == old(self)@.len() + i,
            decreases n - k,
        {
            let mut taken = (String::new(), Vec::new());
            items.set_and_swap(k, &mut taken);
            let (id, _v) = taken;
            proof {
                assert(ids.take(k as int + 1).drop_last() =~= ids.take(k as int));
                assert(ids.take(k as int + 1).last() == ids[k as int]);
            }
            let idx = self.ids.assign_new(id);
            indices.push(idx);
            k += 1;
        }
        assert(ids.take(n as int) =~= ids);
        Ok(indices)
    }

    /// Forgets `id`. The graph keeps its point until the next rebuild, but no
    /// search will name it again.
    pub fn remove(&mut self, id: &str) -> (r: Result<(), BackendError>)
        requires
            old(self).wf(),
        ensures
            final(self).wf(),
            final(self).spec_dimension() == old(self).spec_dimension(),
            final(self).spec_distance() == old(self).spec_distance(),
            r is Ok <==> is_live(old(self)@, id@),
            final(self)@ == retired(old(self)@, id@),
            r is Err ==> final(self)@ == old(self)@,
            match r {
                Ok(_) => true,
                Err(BackendError::IdNotFound(s)) => s@ == id@,
                Err(_) => false,
            },
    {
        match self.ids.retire(id) {
            Some(_) => Ok(()),
            None => {
                proof {
                    crate::ident::lemma_retired_absent(old(self)@, id@);
                }
                Err(BackendError::IdNotFound(string_of(&chars_of(id))))
            },
        }
    }

    /// Whether a query vector of length `len` may be handed to the graph.
    pub fn check_query(&self, len: usize) -> (r: Result<(), BackendError>)
        ensures
            r is Ok <==> fits(self.spec_dimension(), len as nat),
            r is Err ==> r->Err_0 == (BackendError::QueryDimension {
                expected: self.spec_dimension(),
                got: len,
            }),
    {
        if self.dimension > 0 && len != self.dimension {
            Err(BackendError::QueryDimension { expected: self.dimension, got: len })
        } else {
            Ok(())
        }
    }

    /// [`HnswBackend::search_with_ef`] with the default candidate list size.
    pub fn search(&self, query: &[u32], k: usize, hits: &Vec<Hit>) -> (r: Result<
        Vec<(String, u32)>,
        BackendError,
    >)
        ensures
            r is Ok <==> fits(self.spec_dimension(), query@.len()),
            r is Err ==> r->Err_0 == (BackendError::QueryDimension {
                expected: self.spec_dimension(),
                got: query@.len() as usize,
            }),
            r is Ok ==> r->Ok_0@.len() <= k && answers_search(
                self@,
                hits@,
                k as nat,
                named(r->Ok_0@),
            ),
    {
        self.search_with_ef(query, k, DEFAULT_EF_SEARCH, hits)
    }

    /// Turns the graph's answer to a search into at most `k` named answers.
    /// `hits` is what the graph returned for `query`, `k` and `ef_search`.
    /// The answers are put in rank order, best score first and level scores
    /// by smaller index; those whose index is retired are dropped; the
    /// first `k` of the others are returned with their identifiers. A query
    /// of the wrong length is refused.
    pub fn search_with_ef(&self, query: &[u32], k: usize, ef_search: usize, hits: &Vec<Hit>) -> (r:
        Result<Vec<(String, u32)>, BackendError>)
        ensures
            r is Ok <==> fits(self.spec_dimension(), query@.len()),
            r is Err ==> r->Err_0 == (BackendError::QueryDimension {
                expected: self.spec_dimension(),
                got: query@.len() as usize,
            }),
            r is Ok ==> r->Ok_0@.len() <= k && answers_search(
                self@,
                hits@,
                k as nat,
                named(r->Ok_0@),
            ),
    {
        if self.dimension > 0 && query.len() != self.dimension {
            return Err(BackendError::QueryDimension { expected: self.dimension, got: query.len() });
        }
        let order = rank(hits);
        let mut out: Vec<(String, u32)> = Vec::new();
        let mut i: usize = 0;
        assert(order@.take(0) =~= Seq::<Hit>::empty());
        assert(named(out@) =~= resolved(self@, order@.take(0), k as nat));
        while i < order.len()
            invariant
                i <= order.len(),
                named(out@) == resolved(self@, order@.take(i as int), k as nat),
            decreases order.len() - i,
        {
            let (idx, score) = order[i];
            proof {
                assert(order@.take(i as int + 1).drop_last() =~= order@.take(i as int));
                assert(order@.take(i as int + 1).last() == order@[i as int]);
            }
            let ghost before = out@;
            if out.len() < k {
                match self.ids.reverse(idx) {
                    Some(id) => {
                        out.push((id.clone(), score));
                        assert(named(out@) =~= named(before).push((id@, score)));
                    },
                    None => {},
                }
            }
            i += 1;
        }
        proof {
            assert(order@.take(i as int) =~= order@);
            lemma_resolved_len(self@, order@, k as nat);
        }
        let r = Ok(out);
        assert(named(r->Ok_0@) == resolved(self@, order@, k as nat));
        r
    }

    /// Starts over: forgets every identifier, then registers `vectors` in
    /// order from index 0. Returns the indices under which the graph, built
    /// anew, must insert them. A vector of the wrong length fails the whole
    /// rebuild and nothing changes.
    pub fn rebuild_from_vectors(&mut self, vectors: Vec<(String, Vec<u32>)>) -> (r: Result<
        Vec<usize>,
        BackendError,
    >)
        requires
            old(self).wf(),
        ensures
            final(self).wf(),
            final(self).spec_dimension() == old(self).spec_dimension(),
            final(self).spec_distance() == old(self).spec_distance(),
            r is Ok <==> all_fit(old(self).spec_dimension(), vectors@),
            match r {
                Ok(indices) => {
                    &&& final(self)@ == assigned_all(Seq::empty(), batch_ids(vectors@))
                    &&& indices@.len() == vectors@.len()
                    &&& forall|k: int| 0 <= k < indices@.len() ==> #[trigger] indices@[k] == k
                },
                Err(_) => final(self)@ == old(self)@,
            },
    {
        let mut fresh = HnswBackend::new(self.dimension, self.distance);
        let r = fresh.batch_insert(vectors);
        if r.is_ok() {
            *self = fresh;
        }
        r
    }

    /// Rebuilds from `vectors` and reports how many live entries went away.
    pub fn optimize(&mut self, vectors: Vec<(String, Vec<u32>)>) -> (r: Result<usize, BackendError>)
        requires
            old(self).wf(),
        ensures
            final(self).wf(),
            final(self).spec_dimension() == old(self).spec_dimension(),
            final(self).spec_distance() == old(self).spec_distance(),
            r is Ok <==> all_fit(old(self).spec_dimension(), vectors@),
            match r {
                Ok(removed) => {
                    &&& final(self)@ == assigned_all(Seq::empty(), batch_ids(vectors@))
                    &&& removed as int == if live_count(old(self)@) >= live_count(final(self)@) {
                        live_count(old(self)@) - live_count(final(self)@)
                    } else {
                        0
                    }
                },
                Err(_) => final(self)@ == old(self)@,
            },
    {
        let old_size = self.ids.len();
        match self.rebuild_from_vectors(vectors) {
            Ok(_) => {
                let new_size = self.ids.len();
                Ok(if old_size >= new_size { old_size - new_size } else { 0 })
            },
            Err(e) => Err(e),
        }
    }

    /// The live identifiers with their indices, by increasing index.
    pub fn get_id_to_idx_map(&self) -> (out: Vec<(String, usize)>)
        ensures
            out@.len() == live_pairs(self@).len(),
            forall|k: int| 0 <= k < out@.len() ==> (#[trigger] out@[k]).1 as int == live_pairs(self@)[k].0
                && out@[k].0@ == live_pairs(self@)[k].1,
    {
        let pairs = self.ids.live();
        let mut out: Vec<(String, usize)> = Vec::new();
        let mut i: usize = 0;
        while i < pairs.len()
            invariant
                i <= pairs.len(),
                out@.len() == i,
                forall|k: int| 0 <= k < i ==> (#[trigger] out@[k]).1 == pairs@[k].0 && out@[k].0@
                    == pairs@[k].1@,
            decreases pairs.len() - i,
        {
            out.push((pairs[i].1.clone(), pairs[i].0));
            i += 1;
        }
        out
    }

    /// The live indices with their identifiers, by increasing index.
    pub fn get_idx_to_id_map(&self) -> (out: Vec<(usize, String)>)
        ensures
            out@.len() == live_pairs(self@).len(),
            forall|k: int| 0 <= k < out@.len() ==> (#[trigger] out@[k]).0 as int == live_pairs(self@)[k].0
                && out@[k].1@ == live_pairs(self@)[k].1,
    {
        self.ids.live()
    }

    /// The index that the next insert will use.
    pub fn get_next_idx(&self) -> (n: usize)
        ensures
            n == self@.len(),
    {
        self.ids.next_index()
    }

    /// The identifier living at `idx`, if any.
    pub fn id_at(&self, idx: usize) -> (r: Option<&String>)
        ensures
            match r {
                Some(s) => holds_at(self@, idx as int, s@),
                None => idx >= self@.len() || self@[idx as int] is None,
            },
    {
        self.ids.reverse(idx)
    }

    /// The index at which `id` lives, if it is live.
    pub fn index_of(&self, id: &str) -> (r: Option<usize>)
        requires
            self.wf(),
        ensures
            match r {
                Some(i) => holds_at(self@, i as int, id@),
                None => !is_live(self@, id@),
            },
    {
        self.ids.lookup(id)
    }

    /// Always refuses: the graph does not expose its edges.
    pub fn to_visualizer(&self) -> (r: Result<(), BackendError>)
        ensures
            r == Err::<(), BackendError>(BackendError::NoVisualizer),
    {
        Err(BackendError::NoVisualizer)
    }
}

/// The identifiers of named answers, as character sequences.
pub open spec fn named(out: Seq<(String, u32)>) -> Seq<(Seq<char>, u32)> {
    out.map_values(|p: (String, u32)| (p.0@, p.1))
}

} // verus!
