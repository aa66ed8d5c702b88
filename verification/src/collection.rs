//! The collection engine: identifiers, vectors and metadata documents kept
//! in step, and the decisions of a query.
//!
//! The engine owns everything but the graph. A write returns the internal
//! index under which the caller inserts the vector into the graph; a query
//! is answered from what the graph returned for it.

use vstd::prelude::*;
use vstd::utf8::encode_utf8;
use crate::backend::{assigned, Distance, GraphParams, Hit};
use crate::ident::{distinct, holds_at, is_live, live_count, retired, IdMap, Slots};
use crate::value::{json_parse, parse_json, Json, JsonValue};
use crate::filter::{compile, holds, paths_ok, satisfied, Filter, FilterExpr};
use crate::score::{distinct_hits, law_rank_order_unique, lemma_distinct_scores, rank, ranked};

verus! {

/// Longest identifier, in bytes.
pub const MAX_ID_BYTES: usize = 1024;

/// Why the engine refused an operation.
#[derive(Clone, Copy, Debug, PartialEq, Eq, Structural)]
pub enum EngineError {
    /// The identifier is empty.
    EmptyId,
    /// The identifier is longer than [`MAX_ID_BYTES`].
    IdTooLong { len: usize },
    /// A vector has the wrong length, or is empty where the collection has
    /// no dimension yet.
    DimensionMismatch { expected: usize, got: usize },
    /// The metadata is not one JSON object.
    BadMetadata,
    /// A filter names a malformed path.
    MalformedFilter,
    /// The identifier is not live.
    NotFound,
    /// A graph parameter is zero.
    InvalidParams,
}

/// What a collection holds, as mathematics. Position `i` of the three lists
/// belongs to internal index `i`.
pub struct State {
    /// Length of every vector; 0 until the first vector fixes it.
    pub dimension: usize,
    pub distance: Distance,
    pub params: GraphParams,
    /// Number of saves so far.
    pub generation: u64,
    pub slots: Slots,
    pub vectors: Seq<Seq<u32>>,
    /// The metadata documents, as JSON text.
    pub texts: Seq<Seq<u8>>,
}

/// The text is one JSON object.
pub open spec fn metadata_ok(text: Seq<u8>) -> bool {
    json_parse(text) is Some && json_parse(text)->Some_0 is Object
}

/// The lists of `s` are in step, no identifier lives twice, every
/// identifier is acceptable, every vector has the collection's dimension
/// and every document is a JSON object.
pub open spec fn state_ok(s: State) -> bool {
    &&& s.vectors.len() == s.slots.len()
    &&& s.texts.len() == s.slots.len()
    &&& distinct(s.slots)
    &&& s.params.spec_valid()
    &&& s.dimension == 0 ==> s.slots.len() == 0
    &&& forall|i: int| 0 <= i < s.vectors.len() ==> (#[trigger] s.vectors[i]).len() == s.dimension
    &&& forall|i: int| 0 <= i < s.texts.len() ==> metadata_ok(#[trigger] s.texts[i])
    &&& forall|i: int| 0 <= i < s.texts.len() ==> (#[trigger] s.texts[i]).len() <= usize::MAX
    &&& forall|i: int|
        0 <= i < s.slots.len() && (#[trigger] s.slots[i]) is Some ==> id_ok(s.slots[i]->Some_0)
}

/// What a caller can observe of the records: each live identifier with its
/// vector and its metadata text.
pub open spec fn live_records(s: State) -> Map<Seq<char>, (Seq<u32>, Seq<u8>)> {
    Map::new(
        |id: Seq<char>| is_live(s.slots, id),
        |id: Seq<char>|
            {
                let i = choose|i: int| holds_at(s.slots, i, id);
                (s.vectors[i], s.texts[i])
            },
    )
}

/// An identifier is acceptable: not empty and at most [`MAX_ID_BYTES`] bytes.
pub open spec fn id_ok(id: Seq<char>) -> bool {
    0 < encode_utf8(id).len() <= MAX_ID_BYTES
}

/// A vector of length `len` is acceptable for dimension `dim`. Without a
/// dimension yet, every vector but the empty one is.
pub open spec fn vector_ok(dim: usize, len: nat) -> bool {
    if dim == 0 {
        len > 0
    } else {
        len == dim
    }
}

/// The first reason, in the order identifier, vector, metadata, for which a
/// record is refused; `None` where it is accepted.
pub open spec fn record_error(dim: usize, id: Seq<char>, len: nat, text: Seq<u8>) -> Option<
    EngineError,
> {
    if encode_utf8(id).len() == 0 {
        Some(EngineError::EmptyId)
    } else if encode_utf8(id).len() > MAX_ID_BYTES {
        Some(EngineError::IdTooLong { len: encode_utf8(id).len() as usize })
    } else if !vector_ok(dim, len) {
        Some(EngineError::DimensionMismatch { expected: dim, got: len as usize })
    } else if !metadata_ok(text) {
        Some(EngineError::BadMetadata)
    } else {
        None
    }
}

/// `s` after the record was written: the identifier's old slot, if any, is
/// a tombstone, and a new last position holds the record. A first vector
/// fixes the dimension.
pub open spec fn upserted(s: State, id: Seq<char>, vector: Seq<u32>, text: Seq<u8>) -> State {
    State {
        dimension: if s.dimension == 0 {
            vector.len() as usize
        } else {
            s.dimension
        },
        slots: assigned(s.slots, id),
        vectors: s.vectors.push(vector),
        texts: s.texts.push(text),
        ..s
    }
}

/// `s` after the identifier was deleted.
pub open spec fn deleted(s: State, id: Seq<char>) -> State {
    State { slots: retired(s.slots, id), ..s }
}

/// One stored record.
pub struct Row {
    pub(crate) vector: Vec<u32>,
    pub(crate) text: Vec<u8>,
    pub(crate) doc: JsonValue,
}

/// A record to write.
pub struct Record {
    pub id: String,
    pub vector: Vec<u32>,
    /// The metadata document, as JSON text.
    pub metadata: Vec<u8>,
}

/// Counts and settings of a collection.
#[derive(Clone, Copy, Debug, PartialEq, Eq, Structural)]
pub struct Stats {
    /// Live records.
    pub count: usize,
    /// Retired records that the next optimize will drop.
    pub tombstones: usize,
    pub dimension: usize,
    pub metric: Distance,
    pub params: GraphParams,
    pub generation: u64,
}

/// A single collection.
pub struct Collection {
    pub(crate) ids: IdMap,
    pub(crate) rows: Vec<Row>,
    pub(crate) dimension: usize,
    pub(crate) distance: Distance,
    pub(crate) params: GraphParams,
    pub(crate) generation: u64,
}

impl View for Collection {
    type V = State;

    open(crate) spec fn view(&self) -> State {
        State {
            dimension: self.dimension,
            distance: self.distance,
            params: self.params,
            generation: self.generation,
            slots: self.ids@,
            vectors: Seq::new(self.rows@.len(), |i: int| self.rows@[i].vector@),
            texts: Seq::new(self.rows@.len(), |i: int| self.rows@[i].text@),
        }
    }
}

impl Collection {
    /// The identifier map is consistent, every row holds the parsed form of
    /// its text, and the state is in order.
    pub open(crate) spec fn wf(&self) -> bool {
        &&& self.ids.wf()
        &&& state_ok(self@)
        &&& forall|i: int|
            0 <= i < self.rows@.len() ==> Some((#[trigger] self.rows@[i]).doc@) == json_parse(
                self.rows@[i].text@,
            )
    }

    /// A well-formed collection has a state in order, with as many live
    /// identifiers in one direction of the map as in the other.
    pub proof fn lemma_wf(&self)
        requires
            self.wf(),
        ensures
            state_ok(self@),
            live_records(self@).dom().finite(),
            live_records(self@).dom().len() == live_count(self@.slots),
    {
        self.ids.lemma_wf();
        assert(live_records(self@).dom() =~= self.ids.forward().dom());
        self.ids.lemma_forward_finite();
    }

    /// An empty collection. `dimension` 0 leaves the dimension to the first
    /// vector. Parameters with a zero are refused.
    pub fn new(dimension: usize, distance: Distance, params: GraphParams) -> (r: Result<
        Collection,
        EngineError,
    >)
        ensures
            r is Ok <==> params.spec_valid(),
            r is Err ==> r->Err_0 == EngineError::InvalidParams,
            r is Ok ==> r->Ok_0.wf() && r->Ok_0@ == (State {
                dimension,
                distance,
                params,
                generation: 0,
                slots: Seq::empty(),
                vectors: Seq::empty(),
                texts: Seq::empty(),
            }),
    {
        if !params.valid() {
            return Err(EngineError::InvalidParams);
        }
        let c = Collection {
            ids: IdMap::new(),
            rows: Vec::new(),
            dimension,
            distance,
            params,
            generation: 0,
        };
        assert(c@.vectors =~= Seq::empty());
        assert(c@.texts =~= Seq::empty());
        Ok(c)
    }

    /// Number of live records.
    pub fn len(&self) -> (n: usize)
        requires
            self.wf(),
        ensures
            n == live_count(self@.slots),
    {
        self.ids.len()
    }

    /// Whether no record is live.
    pub fn is_empty(&self) -> (b: bool)
        requires
            self.wf(),
        ensures
            b == (live_count(self@.slots) == 0),
    {
        self.ids.len() == 0
    }

    /// Length of every vector; 0 until the first vector fixes it.
    pub fn dimension(&self) -> (d: usize)
        ensures
            d == self@.dimension,
    {
        self.dimension
    }

    /// The distance function.
    pub fn metric(&self) -> (d: Distance)
        ensures
            d == self@.distance,
    {
        self.distance
    }

    /// The graph parameters.
    pub fn params(&self) -> (p: GraphParams)
        ensures
            p == self@.params,
    {
        self.params
    }

    /// Number of saves so far.
    pub fn generation(&self) -> (g: u64)
        ensures
            g == self@.generation,
    {
        self.generation
    }

    /// Counts and settings.
    pub fn stats(&self) -> (s: Stats)
        requires
            self.wf(),
        ensures
            s == (Stats {
                count: live_count(self@.slots) as usize,
                tombstones: (self@.slots.len() - live_count(self@.slots)) as usize,
                dimension: self@.dimension,
                metric: self@.distance,
                params: self@.params,
                generation: self@.generation,
            }),
    {
        proof {
            crate::ident::lemma_live_count_bound(self@.slots);
        }
        let count = self.ids.len();
        Stats {
            count,
            tombstones: self.ids.next_index() - count,
            dimension: self.dimension,
            metric: self.distance,
            params: self.params,
            generation: self.generation,
        }
    }

    /// Whether a record would be accepted; the reason where it would not.
    pub fn check(&self, id: &str, len: usize, metadata: &[u8]) -> (r: Result<JsonValue, EngineError>)
        ensures
            r is Err <==> record_error(self@.dimension, id@, len as nat, metadata@) is Some,
            r is Err ==> Some(r->Err_0) == record_error(self@.dimension, id@, len as nat, metadata@),
            r is Ok ==> Some(r->Ok_0@) == json_parse(metadata@),
    {
        check_record(self.dimension, id, len, metadata)
    }

    /// Writes a record: retires the index that `id` had, if any, and stores
    /// vector and metadata under a fresh index, which is returned for the
    /// graph. A refused record changes nothing.
    pub fn upsert(&mut self, id: String, vector: Vec<u32>, metadata: Vec<u8>) -> (r: Result<
        usize,
        EngineError,
    >)
        requires
            old(self).wf(),
        ensures
            final(self).wf(),
            match record_error(old(self)@.dimension, id@, vector@.len(), metadata@) {
                Some(e) => r == Err::<usize, EngineError>(e) && final(self)@ == old(self)@,
                None => r == Ok::<usize, EngineError>(old(self)@.slots.len() as usize)
                    && final(self)@ == upserted(old(self)@, id@, vector@, metadata@),
            },
    {
        let doc = match check_record(self.dimension, id.as_str(), vector.len(), metadata.as_slice()) {
            Ok(doc) => doc,
            Err(e) => {
                return Err(e);
            },
        };
        Ok(self.apply(id, vector, metadata, doc))
    }

    /// Stores a record that was checked.
    fn apply(&mut self, id: String, vector: Vec<u32>, metadata: Vec<u8>, doc: JsonValue) -> (idx:
        usize)
        requires
            old(self).wf(),
            record_error(old(self)@.dimension, id@, vector@.len(), metadata@) is None,
            Some(doc@) == json_parse(metadata@),
        ensures
            final(self).wf(),
            idx == old(self)@.slots.len(),
            final(self)@ == upserted(old(self)@, id@, vector@, metadata@),
    {
        proof {
            old(self).ids.lemma_wf();
            lemma_assigned_distinct(old(self)@.slots, id@);
        }
        if self.dimension == 0 {
            self.dimension = vector.len();
        }
        let idx = self.ids.assign_new(id);
        let text_len = metadata.len();
        assert(metadata@.len() <= usize::MAX);
        self.rows.push(Row { vector, text: metadata, doc });
        proof {
            let want = upserted(old(self)@, id@, vector@, metadata@);
            assert(self@.vectors =~= want.vectors);
            assert(self@.texts =~= want.texts);
            assert(self@ == want);
            assert forall|i: int| 0 <= i < self@.vectors.len() implies (#[trigger] self@.vectors[i]).len()
                == self@.dimension by {
                if i < old(self)@.vectors.len() {
                    assert(self@.vectors[i] == old(self)@.vectors[i]);
                }
            }
            assert forall|i: int| 0 <= i < self@.texts.len() implies metadata_ok(
                #[trigger] self@.texts[i],
            ) && self@.texts[i].len() <= usize::MAX by {
                if i < old(self)@.texts.len() {
                    assert(self@.texts[i] == old(self)@.texts[i]);
                }
            }
            assert forall|i: int|
                0 <= i < self@.slots.len() && (#[trigger] self@.slots[i]) is Some implies id_ok(
                self@.slots[i]->Some_0,
            ) by {
                if i < old(self)@.slots.len() {
                    assert(self@.slots[i] == old(self)@.slots[i]);
                }
            }
        }
        idx
    }

    /// Writes a batch. Every record is checked before anything is written:
    /// the first refused record fails the batch and nothing changes.
    /// Otherwise the records are written in order, as by [`Collection::upsert`],
    /// and their indices are returned for the graph.
    pub fn batch_upsert(&mut self, items: Vec<Record>) -> (r: Result<Vec<usize>, EngineError>)
        requires
            old(self).wf(),
        ensures
            final(self).wf(),
            match batch_error(old(self)@.dimension, batch_view(items@)) {
                Some(e) => r == Err::<Vec<usize>, EngineError>(e) && final(self)@ == old(self)@,
                None => {
                    &&& r is Ok
                    &&& final(self)@ == upserted_all(old(self)@, batch_view(items@))
                    &&& r->Ok_0@.len() == items@.len()
                    &&& forall|k: int|
                        0 <= k < items@.len() ==> #[trigger] r->Ok_0@[k] == old(self)@.slots.len() + k
                },
            },
    {
        let ghost batch = batch_view(items@);
        let n = items.len();
        let mut docs: Vec<JsonValue> = Vec::new();
        let mut dim = self.dimension;
        let mut i: usize = 0;
        assert(batch.take(0) =~= Seq::empty());
        while i < n
            invariant
                *self == *old(self),
                self.wf(),
                n == items@.len(),
                batch == batch_view(items@),
                i <= n,
                docs@.len() == i,
                dim == dim_after(self.dimension, batch.take(i as int)),
                batch_error(self.dimension, batch.take(i as int)) is None,
                forall|j: int| 0 <= j < i ==> Some((#[trigger] docs@[j])@) == json_parse(batch[j].2),
            decreases n - i,
        {
            let item = &items[i];
            proof {
                assert(batch.take(i as int + 1).drop_last() =~= batch.take(i as int));
                assert(batch.take(i as int + 1).last() == batch[i as int]);
                assert(batch[i as int] == (item.id@, item.vector@, item.metadata@));
            }
            match check_record(dim, item.id.as_str(), item.vector.len(), item.metadata.as_slice()) {
                Ok(doc) => {
                    docs.push(doc);
                    if dim == 0 {
                        dim = item.vector.len();
                    }
                },
                Err(e) => {
                    proof {
                        lemma_batch_error_prefix(self.dimension, batch, i as int + 1);
                    }
                    return Err(e);
                },
            }
            i += 1;
        }
        assert(batch.take(n as int) =~= batch);
        let mut items = items;
        let mut indices: Vec<usize> = Vec::new();
        let mut k: usize = 0;
        while k < n
            invariant
                self.wf(),
                n == batch.len(),
                items@.len() == n,
                docs@.len() == n,
                k <= n,
                forall|j: int| k <= j < n ==> batch[j] == record_view(#[trigger] items@[j]),
                forall|j: int| k <= j < n ==> Some((#[trigger] docs@[j])@) == json_parse(batch[j].2),
                batch_error(old(self)@.dimension, batch) is None,
                self@ == upserted_all(old(self)@, batch.take(k as int)),
                self@.dimension == dim_after(old(self)@.dimension, batch.take(k as int)),
                self@.slots.len() == old(self)@.slots.len() + k,
                indices@.len() == k,
                forall|j: int| 0 <= j < k ==> #[trigger] indices@[j] == old(self)@.slots.len() + j,
            decreases n - k,
        {
            let mut item = Record { id: String::new(), vector: Vec::new(), metadata: Vec::new() };
            let mut doc = JsonValue::Null;
            items.set_and_swap(k, &mut item);
            docs.set_and_swap(k, &mut doc);
            proof {
                assert(batch.take(k as int + 1).drop_last() =~= batch.take(k as int));
                assert(batch.take(k as int + 1).last() == batch[k as int]);
                assert(batch[k as int] == record_view(item));
                lemma_batch_ok_item(old(self)@.dimension, batch, k as int);
            }
            let Record { id, vector, metadata } = item;
            let idx = self.apply(id, vector, metadata, doc);
            indices.push(idx);
            k += 1;
        }
        assert(batch.take(n as int) =~= batch);
        Ok(indices)
    }

    /// Deletes a record: its index is retired and its identifier is gone.
    /// The index is returned. An identifier that is not live is reported
    /// and nothing changes.
    pub fn delete(&mut self, id: &str) -> (r: Result<usize, EngineError>)
        requires
            old(self).wf(),
        ensures
            final(self).wf(),
            r is Ok <==> is_live(old(self)@.slots, id@),
            r is Err ==> r->Err_0 == EngineError::NotFound && final(self)@ == old(self)@,
            r is Ok ==> holds_at(old(self)@.slots, r->Ok_0 as int, id@) && final(self)@ == deleted(
                old(self)@,
                id@,
            ),
    {
        proof {
            old(self).ids.lemma_wf();
            lemma_retired_distinct(old(self)@.slots, id@);
        }
        match self.ids.retire(id) {
            Some(i) => {
                assert(self@.vectors =~= old(self)@.vectors);
                assert(self@.texts =~= old(self)@.texts);
                Ok(i)
            },
            None => {
                proof {
                    crate::ident::lemma_retired_absent(old(self)@.slots, id@);
                }
                assert(self@.vectors =~= old(self)@.vectors);
                assert(self@.texts =~= old(self)@.texts);
                Err(EngineError::NotFound)
            },
        }
    }

    /// The first `q.k` of the candidates `hits`, in the order given, whose
    /// index is live and whose metadata passes the filter, each with its
    /// identifier, vector and metadata. A query of the wrong dimension or
    /// with a malformed filter is refused.
    pub fn select(&self, q: &Query, hits: &Vec<Hit>) -> (r: Result<Vec<Neighbor>, EngineError>)
        requires
            self.wf(),
        ensures
            match query_error(self@, q.vector@.len(), q.filter) {
                Some(e) => r is Err && r->Err_0 == e,
                None => r is Ok && shows(
                    self@,
                    r->Ok_0@,
                    selected(self@, q.filter, hits@, q.k as nat),
                ),
            },
    {
        if self.dimension != 0 && q.vector.len() != self.dimension {
            return Err(
                EngineError::DimensionMismatch { expected: self.dimension, got: q.vector.len() },
            );
        }
        let compiled: Option<Filter> = match &q.filter {
            Some(e) => match compile(e) {
                Ok(f) => Some(f),
                Err(_) => {
                    return Err(EngineError::MalformedFilter);
                },
            },
            None => None,
        };
        let mut out: Vec<Neighbor> = Vec::new();
        let mut i: usize = 0;
        assert(hits@.take(0) =~= Seq::<Hit>::empty());
        while i < hits.len()
            invariant
                self.wf(),
                i <= hits.len(),
                compiled is Some <==> q.filter is Some,
                compiled is Some ==> forall|doc: Json| #[trigger]
                    satisfied(compiled->Some_0, doc) == holds(q.filter->Some_0, doc),
                shows(self@, out@, selected(self@, q.filter, hits@.take(i as int), q.k as nat)),
            decreases hits.len() - i,
        {
            let h = hits[i];
            proof {
                assert(hits@.take(i as int + 1).drop_last() =~= hits@.take(i as int));
                assert(hits@.take(i as int + 1).last() == h);
            }
            let ghost rest = selected(self@, q.filter, hits@.take(i as int), q.k as nat);
            let ghost out0 = out@;
            if out.len() < q.k && h.0 < self.rows.len() {
                match self.ids.reverse(h.0) {
                    Some(id) => {
                        let row = &self.rows[h.0];
                        assert(self@.texts[h.0 as int] == row.text@);
                        assert(self@.vectors[h.0 as int] == row.vector@);
                        let pass = match &compiled {
                            Some(f) => f.eval(&row.doc),
                            None => true,
                        };
                        assert(pass == passes(q.filter, json_parse(self@.texts[h.0 as int])->Some_0));
                        if pass {
                            let n = Neighbor {
                                id: id.clone(),
                                index: h.0,
                                score: h.1,
                                vector: Some(row.vector.clone()),
                                metadata: Some(row.doc.copy()),
                            };
                            out.push(n);
                            assert(answers(self@, n, h));
                            assert forall|j: int| 0 <= j < out@.len() implies answers(
                                self@,
                                #[trigger] out@[j],
                                rest.push(h)[j],
                            ) by {
                                if j < out0.len() {
                                    assert(out@[j] == out0[j]);
                                }
                            }
                        }
                    },
                    None => {},
                }
            }
            i += 1;
        }
        assert(hits@.take(i as int) =~= hits@);
        Ok(out)
    }

    /// First step of a query. A query that is refused gives its error. A
    /// query for no results, or on a collection without live records, is
    /// answered at once with nothing, and the graph is not asked. Otherwise
    /// the graph is to be asked for the first fetch.
    pub fn begin_query(&self, q: &Query) -> (r: Result<Step, EngineError>)
        requires
            self.wf(),
        ensures
            match query_error(self@, q.vector@.len(), q.filter) {
                Some(e) => r is Err && r->Err_0 == e,
                None => r is Ok && if q.k == 0 || live_count(self@.slots) == 0 {
                    r->Ok_0 is Done && r->Ok_0->Done_0@.len() == 0
                } else {
                    r->Ok_0 == (Step::Fetch {
                        count: first_fetch(q.k, q.filter is Some),
                        ef_search: ef_for(first_fetch(q.k, q.filter is Some)),
                    })
                },
            },
    {
        if self.dimension != 0 && q.vector.len() != self.dimension {
            return Err(
                EngineError::DimensionMismatch { expected: self.dimension, got: q.vector.len() },
            );
        }
        match &q.filter {
            Some(e) => {
                if compile(e).is_err() {
                    return Err(EngineError::MalformedFilter);
                }
            },
            None => {},
        }
        if q.k == 0 || self.ids.len() == 0 {
            return Ok(Step::Done(Vec::new()));
        }
        let count = fetch_size(q.k, q.filter.is_some());
        Ok(Step::Fetch { count, ef_search: candidate_list(count) })
    }

    /// Next step of a query, after the graph answered a fetch of size
    /// `fetched` with `hits`. The candidates are ranked, then selected as by
    /// [`Collection::select`]. The selection is the answer when it has `q.k`
    /// results, when there is no filter, or when the fetch was at the
    /// ceiling; otherwise the graph is to be asked for twice as many.
    pub fn continue_query(&self, q: &Query, fetched: usize, hits: &Vec<Hit>) -> (r: Result<
        Step,
        EngineError,
    >)
        requires
            self.wf(),
        ensures
            match query_error(self@, q.vector@.len(), q.filter) {
                Some(e) => r is Err && r->Err_0 == e,
                None => r is Ok && step_for(self@, q.filter, q.k, fetched, hits@, r->Ok_0),
            },
    {
        let order = rank(hits);
        let found = match self.select(q, &order) {
            Ok(found) => found,
            Err(e) => {
                return Err(e);
            },
        };
        let step = if found.len() >= q.k || q.filter.is_none() || fetched >= FETCH_CEILING {
            Step::Done(found)
        } else {
            let count = double_fetch(fetched);
            Step::Fetch { count, ef_search: candidate_list(count) }
        };
        assert(ranked(order@) && order@.to_multiset() == hits@.to_multiset() && step_after(
            self@,
            q.filter,
            q.k,
            fetched,
            order@,
            step,
        ));
        let r = Ok(step);
        assert(r->Ok_0 == step);
        r
    }

    /// Compacts the collection: tombstoned rows are dropped, the live
    /// records keep their order and are numbered anew from 0. Returns the
    /// number of rows dropped. The graph is then to be rebuilt from
    /// [`Collection::vectors`].
    pub fn optimize(&mut self) -> (dropped: usize)
        requires
            old(self).wf(),
        ensures
            final(self).wf(),
            final(self)@ == compacted(old(self)@),
            dropped == old(self)@.slots.len() - live_count(old(self)@.slots),
    {
        let ghost s0 = old(self)@;
        let mut old_rows: Vec<Row> = Vec::new();
        core::mem::swap(&mut self.rows, &mut old_rows);
        let n = old_rows.len();
        let mut ids = IdMap::new();
        let mut rows: Vec<Row> = Vec::new();
        let mut i: usize = 0;
        proof {
            old(self).ids.lemma_wf();
            assert(s0.slots.take(0) =~= Seq::empty());
            assert(s0.vectors.take(0) =~= Seq::empty());
            assert(s0.texts.take(0) =~= Seq::empty());
            assert(row_vectors(rows@) =~= Seq::empty());
            assert(row_texts(rows@) =~= Seq::empty());
        }
        while i < n
            invariant
                i <= n,
                n == s0.slots.len(),
                state_ok(s0),
                self.ids == old(self).ids,
                self.ids@ == s0.slots,
                self.dimension == s0.dimension,
                old_rows@.len() == n,
                forall|j: int|
                    i <= j < n ==> (#[trigger] old_rows@[j]).vector@ == s0.vectors[j] && old_rows@[j].text@
                        == s0.texts[j] && Some(old_rows@[j].doc@) == json_parse(s0.texts[j]),
                ids.wf(),
                ids@ == kept(s0.slots.take(i as int), s0.slots.take(i as int)),
                row_vectors(rows@) == kept(s0.slots.take(i as int), s0.vectors.take(i as int)),
                row_texts(rows@) == kept(s0.slots.take(i as int), s0.texts.take(i as int)),
                rows@.len() == ids@.len(),
                forall|x: Seq<char>| is_live(ids@, x) ==> exists|j: int| 0 <= j < i && holds_at(s0.slots, j, x),
                forall|j: int|
                    0 <= j < rows@.len() ==> (#[trigger] rows@[j]).vector@.len() == s0.dimension
                        && metadata_ok(rows@[j].text@) && Some(rows@[j].doc@) == json_parse(
                        rows@[j].text@,
                    ),
            decreases n - i,
        {
            let ghost ids0 = ids@;
            let ghost rows0 = rows@;
            proof {
                assert(s0.slots.take(i as int + 1).drop_last() =~= s0.slots.take(i as int));
                assert(s0.vectors.take(i as int + 1).drop_last() =~= s0.vectors.take(i as int));
                assert(s0.texts.take(i as int + 1).drop_last() =~= s0.texts.take(i as int));
                assert(s0.slots.take(i as int + 1).last() == s0.slots[i as int]);
                assert(s0.vectors.take(i as int + 1).last() == s0.vectors[i as int]);
                assert(s0.texts.take(i as int + 1).last() == s0.texts[i as int]);
            }
            match self.ids.reverse(i) {
                Some(id) => {
                    let mut row = Row { vector: Vec::new(), text: Vec::new(), doc: JsonValue::Null };
                    old_rows.set_and_swap(i, &mut row);
                    proof {
                        if is_live(ids0, id@) {
                            let j = choose|j: int| 0 <= j < i && holds_at(s0.slots, j, id@);
                            assert(holds_at(s0.slots, i as int, id@));
                        }
                        crate::ident::lemma_retired_absent(ids0, id@);
                        assert(s0.vectors[i as int].len() == s0.dimension);
                        assert(metadata_ok(s0.texts[i as int]));
                    }
                    let _ = ids.assign_new(id.clone());
                    rows.push(row);
                    proof {
                        assert(row_vectors(rows@) =~= row_vectors(rows0).push(s0.vectors[i as int]));
                        assert(row_texts(rows@) =~= row_texts(rows0).push(s0.texts[i as int]));
                        assert forall|x: Seq<char>| is_live(ids@, x) implies exists|j: int|
                            0 <= j < i + 1 && holds_at(s0.slots, j, x) by {
                            let a = choose|a: int| holds_at(ids@, a, x);
                            if a < ids0.len() {
                                assert(holds_at(ids0, a, x));
                                assert(is_live(ids0, x));
                                let j = choose|j: int| 0 <= j < i && holds_at(s0.slots, j, x);
                                assert(0 <= j < i + 1 && holds_at(s0.slots, j, x));
                            } else {
                                assert(holds_at(s0.slots, i as int, x));
                            }
                        }
                    }
                },
                None => {},
            }
            i += 1;
        }
        proof {
            assert(s0.slots.take(n as int) =~= s0.slots);
            assert(s0.vectors.take(n as int) =~= s0.vectors);
            assert(s0.texts.take(n as int) =~= s0.texts);
            lemma_kept_len(s0.slots, s0.slots);
            crate::ident::lemma_live_count_bound(s0.slots);
            ids.lemma_wf();
        }
        let dropped = n - rows.len();
        self.ids = ids;
        self.rows = rows;
        proof {
            assert(self@.vectors =~= row_vectors(self.rows@));
            assert(self@.texts =~= row_texts(self.rows@));
            assert(self@ == compacted(s0));
            assert forall|j: int| 0 <= j < self@.vectors.len() implies (#[trigger] self@.vectors[j]).len()
                == self@.dimension by {
                assert(self@.vectors[j] == self.rows@[j].vector@);
            }
            assert forall|j: int| 0 <= j < self@.texts.len() implies metadata_ok(
                #[trigger] self@.texts[j],
            ) && self@.texts[j].len() <= usize::MAX by {
                let i = lemma_kept_origin(s0.slots, s0.texts, j);
            }
            assert forall|j: int|
                0 <= j < self@.slots.len() && (#[trigger] self@.slots[j]) is Some implies id_ok(
                self@.slots[j]->Some_0,
            ) by {
                let i = lemma_kept_origin(s0.slots, s0.slots, j);
            }
        }
        dropped
    }

    /// The live records by increasing index: index, identifier and vector.
    /// After [`Collection::optimize`] this is what the graph is rebuilt
    /// from.
    pub fn vectors(&self) -> (out: Vec<(usize, String, Vec<u32>)>)
        requires
            self.wf(),
        ensures
            out@.len() == live_count(self@.slots),
            forall|k: int|
                0 <= k < out@.len() ==> holds_at(self@.slots, (#[trigger] out@[k]).0 as int, out@[k].1@)
                    && out@[k].2@ == self@.vectors[out@[k].0 as int],
            forall|a: int, b: int| 0 <= a < b < out@.len() ==> out@[a].0 < out@[b].0,
    {
        let mut out: Vec<(usize, String, Vec<u32>)> = Vec::new();
        let mut i: usize = 0;
        assert(self@.slots.take(0) =~= Seq::empty());
        while i < self.rows.len()
            invariant
                self.wf(),
                i <= self.rows@.len(),
                out@.len() == live_count(self@.slots.take(i as int)),
                forall|k: int|
                    0 <= k < out@.len() ==> holds_at(
                        self@.slots,
                        (#[trigger] out@[k]).0 as int,
                        out@[k].1@,
                    ) && out@[k].2@ == self@.vectors[out@[k].0 as int] && out@[k].0 < i,
                forall|a: int, b: int| 0 <= a < b < out@.len() ==> out@[a].0 < out@[b].0,
            decreases self.rows@.len() - i,
        {
            proof {
                assert(self@.slots.take(i as int + 1).drop_last() =~= self@.slots.take(i as int));
                assert(self@.slots.take(i as int + 1).last() == self@.slots[i as int]);
            }
            match self.ids.reverse(i) {
                Some(id) => {
                    assert(self@.vectors[i as int] == self.rows@[i as int].vector@);
                    out.push((i, id.clone(), self.rows[i].vector.clone()));
                },
                None => {},
            }
            i += 1;
        }
        assert(self@.slots.take(i as int) =~= self@.slots);
        out
    }

    /// The index, vector and metadata of a live record.
    pub fn get(&self, id: &str) -> (r: Option<(usize, &Vec<u32>, &JsonValue)>)
        requires
            self.wf(),
        ensures
            r is Some <==> is_live(self@.slots, id@),
            r is Some ==> {
                let (i, v, d) = r->Some_0;
                &&& holds_at(self@.slots, i as int, id@)
                &&& v@ == self@.vectors[i as int]
                &&& Some(d@) == json_parse(self@.texts[i as int])
            },
    {
        match self.ids.lookup(id) {
            Some(i) => {
                let row = &self.rows[i];
                Some((i, &row.vector, &row.doc))
            },
            None => None,
        }
    }
}

/// Candidates asked for per requested result when a filter is set.
pub const OVERFETCH: usize = 4;

/// Fewest candidates asked for when a filter is set, and smallest candidate
/// list that a search runs with.
pub const EF_SEARCH_MIN: usize = 200;

/// A fetch of this size or more is never enlarged.
pub const FETCH_CEILING: usize = 10000;

/// A similarity query.
pub struct Query {
    pub vector: Vec<u32>,
    /// Number of results wanted.
    pub k: usize,
    pub filter: Option<FilterExpr>,
}

/// One result of a query.
pub struct Neighbor {
    pub id: String,
    /// The internal index under which the record is stored.
    pub index: usize,
    /// The score, as the bits of a 32-bit float.
    pub score: u32,
    pub vector: Option<Vec<u32>>,
    pub metadata: Option<JsonValue>,
}

/// What the engine wants next while it answers a query.
pub enum Step {
    /// Ask the graph for `count` candidates, with a candidate list of
    /// `ef_search`, and come back with them.
    Fetch { count: usize, ef_search: usize },
    /// The answer.
    Done(Vec<Neighbor>),
}

/// The reason for which a query is refused, the vector first, then the
/// filter; `None` where it is accepted.
pub open spec fn query_error(s: State, len: nat, filter: Option<FilterExpr>) -> Option<EngineError> {
    if s.dimension != 0 && len != s.dimension {
        Some(EngineError::DimensionMismatch { expected: s.dimension, got: len as usize })
    } else if filter is Some && !paths_ok(filter->Some_0) {
        Some(EngineError::MalformedFilter)
    } else {
        None
    }
}

/// Size of the first fetch of a query: `k` without a filter; with one,
/// `k` times [`OVERFETCH`] but at least [`EF_SEARCH_MIN`].
pub open spec fn first_fetch(k: usize, filtered: bool) -> usize {
    if !filtered {
        k
    } else if k * OVERFETCH <= EF_SEARCH_MIN {
        EF_SEARCH_MIN
    } else if k * OVERFETCH <= usize::MAX {
        (k * OVERFETCH) as usize
    } else {
        usize::MAX
    }
}

/// Size of the fetch after one of size `n`: twice as much, but not past the
/// ceiling.
pub open spec fn next_fetch(n: usize) -> usize {
    if 2 * n <= FETCH_CEILING {
        (2 * n) as usize
    } else {
        FETCH_CEILING
    }
}

/// Candidate list size for a fetch of size `n`.
pub open spec fn ef_for(n: usize) -> usize {
    if n >= EF_SEARCH_MIN {
        n
    } else {
        EF_SEARCH_MIN
    }
}

/// The filter, if any, holds of the document.
pub open spec fn passes(filter: Option<FilterExpr>, doc: Json) -> bool {
    filter is Some ==> holds(filter->Some_0, doc)
}

/// Candidate `h` can be returned: its index is live and its metadata
/// passes the filter.
pub open spec fn admits(s: State, filter: Option<FilterExpr>, h: Hit) -> bool {
    &&& h.0 < s.slots.len()
    &&& s.slots[h.0 as int] is Some
    &&& passes(filter, json_parse(s.texts[h.0 as int])->Some_0)
}

/// The first `k` candidates that can be returned, in the order given.
pub open spec fn selected(s: State, filter: Option<FilterExpr>, hits: Seq<Hit>, k: nat) -> Seq<Hit>
    decreases hits.len(),
{
    if hits.len() == 0 {
        Seq::empty()
    } else {
        let rest = selected(s, filter, hits.drop_last(), k);
        if rest.len() < k && admits(s, filter, hits.last()) {
            rest.push(hits.last())
        } else {
            rest
        }
    }
}

/// Result `n` reports candidate `h`: its identifier, index and score, with
/// the vector and the metadata stored under that index.
pub open spec fn answers(s: State, n: Neighbor, h: Hit) -> bool {
    &&& h.0 < s.slots.len()
    &&& s.slots[h.0 as int] == Some(n.id@)
    &&& n.index == h.0
    &&& n.score == h.1
    &&& n.vector is Some
    &&& n.vector->Some_0@ == s.vectors[h.0 as int]
    &&& n.metadata is Some
    &&& Some(n.metadata->Some_0@) == json_parse(s.texts[h.0 as int])
}

/// The results report the candidates, one for one and in order.
pub open spec fn shows(s: State, out: Seq<Neighbor>, sel: Seq<Hit>) -> bool {
    out.len() == sel.len() && forall|i: int| 0 <= i < out.len() ==> answers(s, #[trigger] out[i], sel[i])
}

/// Step `r` is the right one after a fetch of size `fetched` gave the
/// candidates `order`: the answer when enough candidates can be returned,
/// when there is no filter, or when the fetch was at the ceiling; a larger
/// fetch otherwise.
pub open spec fn step_after(
    s: State,
    filter: Option<FilterExpr>,
    k: usize,
    fetched: usize,
    order: Seq<Hit>,
    r: Step,
) -> bool {
    let sel = selected(s, filter, order, k as nat);
    if sel.len() >= k || filter is None || fetched >= FETCH_CEILING {
        r is Done && shows(s, r->Done_0@, sel)
    } else {
        r == (Step::Fetch { count: next_fetch(fetched), ef_search: ef_for(next_fetch(fetched)) })
    }
}

/// No more than `k` candidates are selected, each of them can be returned,
/// and each is one of the candidates given.
pub proof fn lemma_selected(s: State, filter: Option<FilterExpr>, hits: Seq<Hit>, k: nat)
    ensures
        selected(s, filter, hits, k).len() <= k,
        selected(s, filter, hits, k).len() <= hits.len(),
        forall|i: int|
            0 <= i < selected(s, filter, hits, k).len() ==> admits(
                s,
                filter,
                #[trigger] selected(s, filter, hits, k)[i],
            ) && hits.contains(selected(s, filter, hits, k)[i]),
    decreases hits.len(),
{
    if hits.len() > 0 {
        lemma_selected(s, filter, hits.drop_last(), k);
        let rest = selected(s, filter, hits.drop_last(), k);
        assert forall|i: int| 0 <= i < selected(s, filter, hits, k).len() implies hits.contains(
            #[trigger] selected(s, filter, hits, k)[i],
        ) by {
            if i < rest.len() {
                let j = choose|j: int| 0 <= j < hits.drop_last().len() && hits.drop_last()[j] == rest[i];
                assert(hits[j] == rest[i]);
            } else {
                assert(hits[hits.len() - 1] == hits.last());
            }
        }
    }
}

/// What the engine reads of a record: identifier, vector, metadata text.
pub open spec fn record_view(r: Record) -> (Seq<char>, Seq<u32>, Seq<u8>) {
    (r.id@, r.vector@, r.metadata@)
}

/// What the engine reads of a batch.
pub open spec fn batch_view(items: Seq<Record>) -> Seq<(Seq<char>, Seq<u32>, Seq<u8>)> {
    items.map_values(|r: Record| record_view(r))
}

/// The dimension after the records of a batch were accepted: the first
/// vector fixes a dimension that was not set.
pub open spec fn dim_after(dim: usize, items: Seq<(Seq<char>, Seq<u32>, Seq<u8>)>) -> usize
    decreases items.len(),
{
    if items.len() == 0 {
        dim
    } else {
        let d = dim_after(dim, items.drop_last());
        if d == 0 {
            items.last().1.len() as usize
        } else {
            d
        }
    }
}

/// The error of the first record of a batch that is refused, each record
/// being checked against the dimension that the records before it leave.
pub open spec fn batch_error(dim: usize, items: Seq<(Seq<char>, Seq<u32>, Seq<u8>)>) -> Option<
    EngineError,
>
    decreases items.len(),
{
    if items.len() == 0 {
        None
    } else {
        match batch_error(dim, items.drop_last()) {
            Some(e) => Some(e),
            None => record_error(
                dim_after(dim, items.drop_last()),
                items.last().0,
                items.last().1.len(),
                items.last().2,
            ),
        }
    }
}

/// `s` after the records of a batch were written in order.
pub open spec fn upserted_all(s: State, items: Seq<(Seq<char>, Seq<u32>, Seq<u8>)>) -> State
    decreases items.len(),
{
    if items.len() == 0 {
        s
    } else {
        upserted(
            upserted_all(s, items.drop_last()),
            items.last().0,
            items.last().1,
            items.last().2,
        )
    }
}

/// An error among the first `n` records is the error of the whole batch.
pub proof fn lemma_batch_error_prefix(
    dim: usize,
    items: Seq<(Seq<char>, Seq<u32>, Seq<u8>)>,
    n: int,
)
    requires
        0 <= n <= items.len(),
        batch_error(dim, items.take(n)) is Some,
    ensures
        batch_error(dim, items) == batch_error(dim, items.take(n)),
    decreases items.len() - n,
{
    if n < items.len() {
        assert(items.take(n + 1).drop_last() =~= items.take(n));
        lemma_batch_error_prefix(dim, items, n + 1);
    } else {
        assert(items.take(n) =~= items);
    }
}

/// In a batch without error, each record passes the check against the
/// dimension that the records before it leave.
pub proof fn lemma_batch_ok_item(dim: usize, items: Seq<(Seq<char>, Seq<u32>, Seq<u8>)>, k: int)
    requires
        0 <= k < items.len(),
        batch_error(dim, items) is None,
    ensures
        record_error(dim_after(dim, items.take(k)), items[k].0, items[k].1.len(), items[k].2)
            is None,
    decreases items.len(),
{
    if k == items.len() - 1 {
        assert(items.take(k) =~= items.drop_last());
    } else {
        assert(items.drop_last().take(k) =~= items.take(k));
        lemma_batch_ok_item(dim, items.drop_last(), k);
    }
}

/// Checks a record in the order identifier, vector, metadata, and parses
/// its metadata.
pub fn check_record(dim: usize, id: &str, len: usize, metadata: &[u8]) -> (r: Result<
    JsonValue,
    EngineError,
>)
    ensures
        r is Err <==> record_error(dim, id@, len as nat, metadata@) is Some,
        r is Err ==> Some(r->Err_0) == record_error(dim, id@, len as nat, metadata@),
        r is Ok ==> Some(r->Ok_0@) == json_parse(metadata@),
{
    let n = id.as_bytes().len();
    if n == 0 {
        return Err(EngineError::EmptyId);
    }
    if n > MAX_ID_BYTES {
        return Err(EngineError::IdTooLong { len: n });
    }
    if (dim == 0 && len == 0) || (dim != 0 && len != dim) {
        return Err(EngineError::DimensionMismatch { expected: dim, got: len });
    }
    match parse_json(metadata) {
        Ok(doc) => match doc {
            JsonValue::Object(_) => Ok(doc),
            _ => Err(EngineError::BadMetadata),
        },
        Err(_) => Err(EngineError::BadMetadata),
    }
}

/// The vectors of a list of rows.
pub closed spec fn row_vectors(rows: Seq<Row>) -> Seq<Seq<u32>> {
    Seq::new(rows.len(), |i: int| rows[i].vector@)
}

/// The metadata texts of a list of rows.
pub closed spec fn row_texts(rows: Seq<Row>) -> Seq<Seq<u8>> {
    Seq::new(rows.len(), |i: int| rows[i].text@)
}

/// The elements of `xs` at the occupied positions of `slots`, in order.
pub open spec fn kept<T>(slots: Slots, xs: Seq<T>) -> Seq<T>
    decreases slots.len(),
{
    if slots.len() == 0 || xs.len() != slots.len() {
        Seq::empty()
    } else {
        let r = kept(slots.drop_last(), xs.drop_last());
        if slots.last() is Some {
            r.push(xs.last())
        } else {
            r
        }
    }
}

/// `s` without its tombstones: the live records in their order, numbered
/// anew from 0.
pub open spec fn compacted(s: State) -> State {
    State {
        slots: kept(s.slots, s.slots),
        vectors: kept(s.slots, s.vectors),
        texts: kept(s.slots, s.texts),
        ..s
    }
}

/// As many elements are kept as slots are occupied.
pub proof fn lemma_kept_len<T>(slots: Slots, xs: Seq<T>)
    requires
        xs.len() == slots.len(),
    ensures
        kept(slots, xs).len() == live_count(slots),
    decreases slots.len(),
{
    if slots.len() > 0 {
        lemma_kept_len(slots.drop_last(), xs.drop_last());
    }
}

/// The element at occupied position `i` is kept, at the position that
/// counts the occupied slots before `i`.
pub proof fn lemma_kept_index<T>(slots: Slots, xs: Seq<T>, i: int)
    requires
        xs.len() == slots.len(),
        0 <= i < slots.len(),
        slots[i] is Some,
    ensures
        live_count(slots.take(i)) < kept(slots, xs).len(),
        kept(slots, xs)[live_count(slots.take(i)) as int] == xs[i],
    decreases slots.len(),
{
    let n = slots.len() - 1;
    lemma_kept_len(slots.drop_last(), xs.drop_last());
    if i == n {
        assert(slots.take(i) =~= slots.drop_last());
    } else {
        lemma_kept_index(slots.drop_last(), xs.drop_last(), i);
        assert(slots.drop_last().take(i) =~= slots.take(i));
    }
}

/// Every kept element comes from an occupied position, the one before
/// which as many slots are occupied as the element's new position says.
pub proof fn lemma_kept_origin<T>(slots: Slots, xs: Seq<T>, j: int) -> (i: int)
    requires
        xs.len() == slots.len(),
        0 <= j < kept(slots, xs).len(),
    ensures
        0 <= i < slots.len(),
        slots[i] is Some,
        live_count(slots.take(i)) == j,
        kept(slots, xs)[j] == xs[i],
    decreases slots.len(),
{
    let n = slots.len() - 1;
    lemma_kept_len(slots.drop_last(), xs.drop_last());
    if slots.last() is Some && j == kept(slots.drop_last(), xs.drop_last()).len() {
        assert(slots.take(n) =~= slots.drop_last());
        n
    } else {
        let i = lemma_kept_origin(slots.drop_last(), xs.drop_last(), j);
        assert(slots.drop_last().take(i) =~= slots.take(i));
        i
    }
}

/// Every kept slot is occupied.
pub proof fn lemma_kept_slots_occupied(slots: Slots)
    ensures
        forall|j: int| 0 <= j < kept(slots, slots).len() ==> (#[trigger] kept(slots, slots)[j]) is Some,
    decreases slots.len(),
{
    if slots.len() > 0 {
        lemma_kept_slots_occupied(slots.drop_last());
    }
}

/// Where every slot is occupied, everything is kept.
pub proof fn lemma_kept_all<T>(slots: Slots, xs: Seq<T>)
    requires
        xs.len() == slots.len(),
        forall|j: int| 0 <= j < slots.len() ==> (#[trigger] slots[j]) is Some,
    ensures
        kept(slots, xs) == xs,
    decreases slots.len(),
{
    if slots.len() > 0 {
        assert forall|j: int| 0 <= j < slots.drop_last().len() implies (#[trigger] slots.drop_last()[j]) is Some by {
            assert(slots.drop_last()[j] == slots[j]);
        }
        lemma_kept_all(slots.drop_last(), xs.drop_last());
        assert(slots[slots.len() - 1] is Some);
        assert(xs.drop_last().push(xs.last()) =~= xs);
    } else {
        assert(xs =~= Seq::empty());
    }
}

/// Number of candidates that can be returned.
pub open spec fn admitted_count(s: State, filter: Option<FilterExpr>, hits: Seq<Hit>) -> nat
    decreases hits.len(),
{
    if hits.len() == 0 {
        0
    } else {
        admitted_count(s, filter, hits.drop_last()) + if admits(s, filter, hits.last()) {
            1nat
        } else {
            0nat
        }
    }
}

/// The selection has `k` candidates, or all that can be returned where
/// those are fewer.
pub proof fn lemma_selected_len(s: State, filter: Option<FilterExpr>, hits: Seq<Hit>, k: nat)
    ensures
        selected(s, filter, hits, k).len() == if admitted_count(s, filter, hits) < k {
            admitted_count(s, filter, hits)
        } else {
            k
        },
    decreases hits.len(),
{
    if hits.len() > 0 {
        lemma_selected_len(s, filter, hits.drop_last(), k);
    }
}

/// Step `r` may follow a fetch of size `fetched` that the graph answered
/// with `hits`: it is the right step for a ranking of `hits`.
pub open spec fn step_for(
    s: State,
    filter: Option<FilterExpr>,
    k: usize,
    fetched: usize,
    hits: Seq<Hit>,
    r: Step,
) -> bool {
    exists|order: Seq<Hit>|
        ranked(order) && order.to_multiset() == hits.to_multiset() && #[trigger] step_after(
            s,
            filter,
            k,
            fetched,
            order,
            r,
        )
}

/// Two results report the same record with the same score.
pub open spec fn same_neighbor(a: Neighbor, b: Neighbor) -> bool {
    &&& a.id@ == b.id@
    &&& a.index == b.index
    &&& a.score == b.score
    &&& a.vector is Some && b.vector is Some && a.vector->Some_0@ == b.vector->Some_0@
    &&& a.metadata is Some && b.metadata is Some && a.metadata->Some_0@ == b.metadata->Some_0@
}

/// Two steps are the same: the same fetch, or answers that report the same
/// records in the same order.
pub open spec fn same_step(a: Step, b: Step) -> bool {
    match a {
        Step::Fetch { count, ef_search } => b == (Step::Fetch { count, ef_search }),
        Step::Done(x) => b is Done && x@.len() == b->Done_0@.len() && forall|i: int|
            0 <= i < x@.len() ==> same_neighbor(#[trigger] x@[i], b->Done_0@[i]),
    }
}

/// Collections in the same state, as one that was restored from the
/// backup of another is, take the same step with the same results after
/// the graph gave the same answer, where that answer names no index twice.
pub proof fn law_equal_states_answer_alike(
    s: State,
    filter: Option<FilterExpr>,
    k: usize,
    fetched: usize,
    hits: Seq<Hit>,
    a: Step,
    b: Step,
)
    requires
        distinct_hits(hits),
        step_for(s, filter, k, fetched, hits, a),
        step_for(s, filter, k, fetched, hits, b),
    ensures
        same_step(a, b),
{
    let x = choose|order: Seq<Hit>|
        ranked(order) && order.to_multiset() == hits.to_multiset() && #[trigger] step_after(
            s,
            filter,
            k,
            fetched,
            order,
            a,
        );
    let y = choose|order: Seq<Hit>|
        ranked(order) && order.to_multiset() == hits.to_multiset() && #[trigger] step_after(
            s,
            filter,
            k,
            fetched,
            order,
            b,
        );
    lemma_distinct_scores(hits);
    law_rank_order_unique(x, y);
    let sel = selected(s, filter, x, k as nat);
    if a is Done {
        assert forall|i: int| 0 <= i < a->Done_0@.len() implies same_neighbor(
            #[trigger] a->Done_0@[i],
            b->Done_0@[i],
        ) by {
            assert(answers(s, a->Done_0@[i], sel[i]));
            assert(answers(s, b->Done_0@[i], sel[i]));
        }
    }
}

/// At every point in time there are as many live identifiers as occupied
/// slots of the reverse direction, and as many as vectors that a query can
/// return.
pub proof fn law_counts_agree(c: Collection)
    requires
        c.wf(),
    ensures
        live_records(c@).dom().finite(),
        live_records(c@).dom().len() == live_count(c@.slots),
        kept(c@.slots, c@.vectors).len() == live_count(c@.slots),
{
    c.lemma_wf();
    lemma_kept_len(c@.slots, c@.vectors);
}

/// Without a filter, every result is a live record, and there are
/// `k` results, or as many as the candidates name live records where those
/// are fewer.
pub proof fn law_unfiltered_results(s: State, hits: Seq<Hit>, k: nat)
    ensures
        forall|i: int|
            0 <= i < selected(s, None, hits, k).len() ==> {
                let h = #[trigger] selected(s, None, hits, k)[i];
                h.0 < s.slots.len() && s.slots[h.0 as int] is Some && is_live(
                    s.slots,
                    s.slots[h.0 as int]->Some_0,
                )
            },
        selected(s, None, hits, k).len() == if admitted_count(s, None, hits) < k {
            admitted_count(s, None, hits)
        } else {
            k
        },
{
    lemma_selected(s, None, hits, k);
    lemma_selected_len(s, None, hits, k);
    assert forall|i: int| 0 <= i < selected(s, None, hits, k).len() implies {
        let h = #[trigger] selected(s, None, hits, k)[i];
        h.0 < s.slots.len() && s.slots[h.0 as int] is Some && is_live(
            s.slots,
            s.slots[h.0 as int]->Some_0,
        )
    } by {
        let h = selected(s, None, hits, k)[i];
        assert(admits(s, None, h));
        assert(holds_at(s.slots, h.0 as int, s.slots[h.0 as int]->Some_0));
    }
}

/// The indices that are live.
pub open spec fn live_set(slots: Slots) -> Set<int> {
    Set::new(|i: int| 0 <= i < slots.len() && slots[i] is Some)
}

/// The live indices that the candidates name.
pub open spec fn named_lives(slots: Slots, hits: Seq<Hit>) -> Set<int> {
    Set::new(
        |i: int|
            0 <= i < slots.len() && slots[i] is Some && exists|p: int|
                0 <= p < hits.len() && (#[trigger] hits[p]).0 == i,
    )
}

/// Every live index is named by a candidate.
pub open spec fn covers(slots: Slots, hits: Seq<Hit>) -> bool {
    forall|i: int|
        0 <= i < slots.len() && (#[trigger] slots[i]) is Some ==> exists|p: int|
            0 <= p < hits.len() && (#[trigger] hits[p]).0 == i
}

/// There are as many live indices as occupied slots.
pub proof fn lemma_live_set(slots: Slots)
    ensures
        live_set(slots).finite(),
        live_set(slots).len() == live_count(slots),
    decreases slots.len(),
{
    if slots.len() == 0 {
        assert(live_set(slots) =~= Set::<int>::empty());
    } else {
        let d = slots.drop_last();
        lemma_live_set(d);
        let last = slots.len() - 1;
        if slots.last() is Some {
            assert(live_set(slots) =~= live_set(d).insert(last)) by {
                assert forall|i: int| live_set(slots).contains(i) == live_set(d).insert(last).contains(
                    i,
                ) by {
                    if 0 <= i < last {
                        assert(d[i] == slots[i]);
                    }
                }
            }
            assert(!live_set(d).contains(last));
        } else {
            assert(live_set(slots) =~= live_set(d)) by {
                assert forall|i: int| live_set(slots).contains(i) == live_set(d).contains(i) by {
                    if 0 <= i < last {
                        assert(d[i] == slots[i]);
                    }
                }
            }
        }
    }
}

/// Candidates that name no index twice name as many live indices as there
/// are candidates that can be returned.
pub proof fn lemma_named_lives(s: State, hits: Seq<Hit>)
    requires
        distinct_hits(hits),
    ensures
        named_lives(s.slots, hits).finite(),
        named_lives(s.slots, hits).len() == admitted_count(s, None, hits),
    decreases hits.len(),
{
    if hits.len() == 0 {
        assert(named_lives(s.slots, hits) =~= Set::<int>::empty());
    } else {
        let d = hits.drop_last();
        let h = hits.last();
        let n = hits.len() - 1;
        assert(distinct_hits(d)) by {
            assert forall|p: int, q: int| 0 <= p < q < d.len() implies (#[trigger] d[p]).0 != (
            #[trigger] d[q]).0 by {
                assert(d[p] == hits[p] && d[q] == hits[q]);
            }
        }
        lemma_named_lives(s, d);
        assert(hits[n] == h);
        if admits(s, None, h) {
            let i = h.0 as int;
            assert(!named_lives(s.slots, d).contains(i)) by {
                if named_lives(s.slots, d).contains(i) {
                    let p = choose|p: int| 0 <= p < d.len() && (#[trigger] d[p]).0 == i;
                    assert(d[p] == hits[p]);
                    assert(hits[p].0 != hits[n].0);
                }
            }
            assert(named_lives(s.slots, hits) =~= named_lives(s.slots, d).insert(i)) by {
                assert forall|x: int| named_lives(s.slots, hits).contains(x) == named_lives(
                    s.slots,
                    d,
                ).insert(i).contains(x) by {
                    if named_lives(s.slots, hits).contains(x) {
                        let p = choose|p: int| 0 <= p < hits.len() && (#[trigger] hits[p]).0 == x;
                        if p < n {
                            assert(d[p] == hits[p]);
                        }
                    }
                    if named_lives(s.slots, d).contains(x) {
                        let p = choose|p: int| 0 <= p < d.len() && (#[trigger] d[p]).0 == x;
                        assert(hits[p] == d[p]);
                    }
                }
            }
        } else {
            assert(named_lives(s.slots, hits) =~= named_lives(s.slots, d)) by {
                assert forall|x: int| named_lives(s.slots, hits).contains(x) == named_lives(
                    s.slots,
                    d,
                ).contains(x) by {
                    if named_lives(s.slots, hits).contains(x) {
                        let p = choose|p: int| 0 <= p < hits.len() && (#[trigger] hits[p]).0 == x;
                        if p < n {
                            assert(d[p] == hits[p]);
                        }
                    }
                    if named_lives(s.slots, d).contains(x) {
                        let p = choose|p: int| 0 <= p < d.len() && (#[trigger] d[p]).0 == x;
                        assert(hits[p] == d[p]);
                    }
                }
            }
        }
    }
}

/// Without a filter, where the candidates name every live index and none
/// twice, there are `k` results, or as many as there are live records
/// where those are fewer.
pub proof fn law_unfiltered_count(s: State, hits: Seq<Hit>, k: nat)
    requires
        distinct_hits(hits),
        covers(s.slots, hits),
    ensures
        selected(s, None, hits, k).len() == if live_count(s.slots) < k {
            live_count(s.slots)
        } else {
            k
        },
{
    lemma_selected_len(s, None, hits, k);
    lemma_live_set(s.slots);
    lemma_named_lives(s, hits);
    assert(named_lives(s.slots, hits) =~= live_set(s.slots));
}

/// With a filter, every result is a live record whose metadata satisfies
/// the filter, and there are at most `k` results.
pub proof fn law_filtered_results(s: State, filter: FilterExpr, hits: Seq<Hit>, k: nat)
    ensures
        selected(s, Some(filter), hits, k).len() <= k,
        forall|i: int|
            0 <= i < selected(s, Some(filter), hits, k).len() ==> {
                let h = #[trigger] selected(s, Some(filter), hits, k)[i];
                h.0 < s.slots.len() && s.slots[h.0 as int] is Some && holds(
                    filter,
                    json_parse(s.texts[h.0 as int])->Some_0,
                )
            },
{
    lemma_selected(s, Some(filter), hits, k);
    assert forall|i: int| 0 <= i < selected(s, Some(filter), hits, k).len() implies {
        let h = #[trigger] selected(s, Some(filter), hits, k)[i];
        h.0 < s.slots.len() && s.slots[h.0 as int] is Some && holds(
            filter,
            json_parse(s.texts[h.0 as int])->Some_0,
        )
    } by {
        let h = selected(s, Some(filter), hits, k)[i];
        assert(admits(s, Some(filter), h));
    }
}

/// Compaction changes no record: the same identifiers are live, each with
/// the vector and the metadata it had.
pub proof fn law_optimize_keeps_records(s: State)
    requires
        state_ok(s),
    ensures
        live_records(compacted(s)) == live_records(s),
        distinct(compacted(s).slots),
{
    let c = compacted(s);
    lemma_kept_len(s.slots, s.slots);
    lemma_kept_len(s.slots, s.vectors);
    lemma_kept_len(s.slots, s.texts);
    assert forall|a: int, b: int, x: Seq<char>| holds_at(c.slots, a, x) && holds_at(c.slots, b, x) implies a
        == b by {
        let i = lemma_kept_origin(s.slots, s.slots, a);
        let j = lemma_kept_origin(s.slots, s.slots, b);
        assert(holds_at(s.slots, i, x) && holds_at(s.slots, j, x));
    }
    assert forall|x: Seq<char>| is_live(c.slots, x) == is_live(s.slots, x) by {
        if is_live(c.slots, x) {
            let a = choose|a: int| holds_at(c.slots, a, x);
            let i = lemma_kept_origin(s.slots, s.slots, a);
            assert(holds_at(s.slots, i, x));
        }
        if is_live(s.slots, x) {
            let i = choose|i: int| holds_at(s.slots, i, x);
            lemma_kept_index(s.slots, s.slots, i);
            assert(holds_at(c.slots, live_count(s.slots.take(i)) as int, x));
        }
    }
    assert forall|x: Seq<char>| is_live(s.slots, x) implies live_records(c)[x] == live_records(s)[x] by {
        let i = choose|i: int| holds_at(s.slots, i, x);
        let a = choose|a: int| holds_at(c.slots, a, x);
        lemma_kept_index(s.slots, s.slots, i);
        lemma_kept_index(s.slots, s.vectors, i);
        lemma_kept_index(s.slots, s.texts, i);
        let a2 = live_count(s.slots.take(i)) as int;
        assert(holds_at(c.slots, a2, x));
        assert(holds_at(c.slots, a, x));
        assert(a == a2);
    }
    assert(live_records(c) =~= live_records(s));
}

/// Compacting twice gives what compacting once gives.
pub proof fn law_optimize_idempotent(s: State)
    requires
        state_ok(s),
    ensures
        compacted(compacted(s)) == compacted(s),
{
    let c = compacted(s);
    lemma_kept_len(s.slots, s.slots);
    lemma_kept_len(s.slots, s.vectors);
    lemma_kept_len(s.slots, s.texts);
    lemma_kept_slots_occupied(s.slots);
    lemma_kept_all(c.slots, c.slots);
    lemma_kept_all(c.slots, c.vectors);
    lemma_kept_all(c.slots, c.texts);
}

/// Writing the same identifier twice leaves one live record for it, with
/// the second vector and metadata.
pub proof fn law_second_write_wins(
    s: State,
    id: Seq<char>,
    v1: Seq<u32>,
    t1: Seq<u8>,
    v2: Seq<u32>,
    t2: Seq<u8>,
)
    requires
        state_ok(s),
    ensures
        distinct(upserted(upserted(s, id, v1, t1), id, v2, t2).slots),
        live_records(upserted(upserted(s, id, v1, t1), id, v2, t2)).contains_key(id),
        live_records(upserted(upserted(s, id, v1, t1), id, v2, t2))[id] == (v2, t2),
{
    let a = upserted(s, id, v1, t1);
    let b = upserted(a, id, v2, t2);
    lemma_assigned_distinct(s.slots, id);
    lemma_assigned_distinct(a.slots, id);
    let last = b.slots.len() - 1;
    assert(holds_at(b.slots, last, id));
    let i = choose|i: int| holds_at(b.slots, i, id);
    assert(i == last);
}

/// Size of the first fetch of a query.
pub fn fetch_size(k: usize, filtered: bool) -> (n: usize)
    ensures
        n == first_fetch(k, filtered),
{
    if !filtered {
        k
    } else if k <= EF_SEARCH_MIN / OVERFETCH {
        EF_SEARCH_MIN
    } else if k <= usize::MAX / OVERFETCH {
        k * OVERFETCH
    } else {
        usize::MAX
    }
}

/// Size of the fetch after one of size `n`.
pub fn double_fetch(n: usize) -> (r: usize)
    ensures
        r == next_fetch(n),
{
    if n <= FETCH_CEILING / 2 {
        n * 2
    } else {
        FETCH_CEILING
    }
}

/// Candidate list size for a fetch of size `n`.
pub fn candidate_list(n: usize) -> (r: usize)
    ensures
        r == ef_for(n),
{
    if n >= EF_SEARCH_MIN {
        n
    } else {
        EF_SEARCH_MIN
    }
}

/// Retiring keeps a slot list free of repeats.
pub proof fn lemma_retired_distinct(s: Slots, id: Seq<char>)
    requires
        distinct(s),
    ensures
        distinct(retired(s, id)),
        !is_live(retired(s, id), id),
{
    assert forall|i: int, j: int, x: Seq<char>|
        holds_at(retired(s, id), i, x) && holds_at(retired(s, id), j, x) implies i == j by {
        assert(holds_at(s, i, x) && holds_at(s, j, x));
    }
}

/// Assigning keeps a slot list free of repeats.
pub proof fn lemma_assigned_distinct(s: Slots, id: Seq<char>)
    requires
        distinct(s),
    ensures
        distinct(assigned(s, id)),
{
    lemma_retired_distinct(s, id);
    let r = retired(s, id);
    let a = assigned(s, id);
    assert forall|i: int, j: int, x: Seq<char>| holds_at(a, i, x) && holds_at(a, j, x) implies i
        == j by {
        if i < r.len() {
            assert(holds_at(r, i, x));
        }
        if j < r.len() {
            assert(holds_at(r, j, x));
        }
    }
}

} // verus!
