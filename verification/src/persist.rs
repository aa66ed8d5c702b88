//! Saving and opening a collection.
//!
//! A saved collection is a manifest and three files: the identifier list,
//! the packed vectors and the metadata documents. The library turns a
//! collection into the bytes of these files and back, and checks what it
//! opens; reading and writing the files is the caller's part.

use vstd::prelude::*;

use crate::backend::{Distance, GraphParams};
use crate::codec::{
    dec_frames,
    dec_rows,
    dec_slot,
    decode_frames,
    decode_rows,
    decode_slot,
    enc_frames,
    enc_rows,
    enc_slot,
    encode_frames,
    encode_rows,
    encode_slot,
    frames_fit,
    law_frames_round_trip,
    law_rows_round_trip,
    law_slot_round_trip,
    rows_fit,
    rows_view,
};
use crate::collection::{id_ok, metadata_ok, state_ok, Collection, Row, State, MAX_ID_BYTES};
use crate::ident::{distinct, holds_at, slot_view, IdMap, Slots};
use crate::value::{json_parse, parse_json, JsonValue};

verus! {

/// The format that this library writes and reads.
pub const FORMAT_VERSION: u32 = 1;

/// The manifest of a saved collection.
#[derive(Clone, Copy, Debug, PartialEq, Eq, Structural)]
pub struct Manifest {
    pub format_version: u32,
    pub dimension: usize,
    pub metric: Distance,
    pub graph_params: GraphParams,
    /// Number of saves, this one included.
    pub generation: u64,
}

/// A saved collection: the manifest and the bytes of the three files.
pub struct Files {
    pub manifest: Manifest,
    pub identifiers: Vec<u8>,
    pub vectors: Vec<u8>,
    pub metadata: Vec<u8>,
}

/// A saved collection, as mathematics.
pub struct FilesModel {
    pub manifest: Manifest,
    pub identifiers: Seq<u8>,
    pub vectors: Seq<u8>,
    pub metadata: Seq<u8>,
}

impl View for Files {
    type V = FilesModel;

    open spec fn view(&self) -> FilesModel {
        FilesModel {
            manifest: self.manifest,
            identifiers: self.identifiers@,
            vectors: self.vectors@,
            metadata: self.metadata@,
        }
    }
}

/// Why a saved collection was not opened.
#[derive(Clone, Copy, Debug, PartialEq, Eq, Structural)]
#[allow(inconsistent_fields)]
pub enum LoadError {
    /// The manifest file is no JSON document, or lacks a field of a
    /// manifest, or holds one that is not of its kind.
    CorruptManifest,
    /// The manifest names a format that this library does not read.
    UnsupportedVersion { version: u32 },
    /// The caller expects another dimension than the manifest holds.
    DimensionMismatch { expected: usize, found: usize },
    /// The caller expects another metric than the manifest holds.
    MetricMismatch,
    /// A graph parameter of the manifest is zero.
    InvalidParams,
    /// The identifier list is cut short, or holds what is no identifier.
    CorruptIdentifiers,
    /// The identifier list holds one identifier twice.
    DuplicateIdentifier,
    /// The vectors have another length than the identifier list and the
    /// dimension ask for.
    CorruptVectors,
    /// The metadata is cut short, has another number of documents than the
    /// identifier list has slots, or holds what is no JSON object.
    CorruptMetadata,
    /// A file does not have the content hash that was recorded for it.
    ChecksumMismatch,
    /// A backup archive is cut short or lacks a part.
    TruncatedArchive,
    /// The header of a backup archive names a format that this library
    /// does not read.
    UnsupportedArchive { version: u64 },
}

/// The chunks of the identifier list, one per slot.
pub open spec fn slot_chunks(slots: Slots) -> Seq<Seq<u8>> {
    slots.map_values(|s: Option<Seq<char>>| enc_slot(s))
}

/// The files that record state `s`.
pub open spec fn encode_state(s: State) -> FilesModel {
    FilesModel {
        manifest: Manifest {
            format_version: FORMAT_VERSION,
            dimension: s.dimension,
            metric: s.distance,
            graph_params: s.params,
            generation: s.generation,
        },
        identifiers: enc_frames(slot_chunks(s.slots)),
        vectors: enc_rows(s.vectors),
        metadata: enc_frames(s.texts),
    }
}

/// Every chunk encodes a slot, and every identifier among them is
/// acceptable.
pub open spec fn chunks_ok(chunks: Seq<Seq<u8>>) -> bool {
    forall|i: int|
        0 <= i < chunks.len() ==> {
            let d = dec_slot(#[trigger] chunks[i]);
            d is Some && (d->Some_0 is Some ==> id_ok(d->Some_0->Some_0))
        }
}

/// The slots that the chunks encode.
pub open spec fn chunk_slots(chunks: Seq<Seq<u8>>) -> Slots {
    chunks.map_values(|c: Seq<u8>| dec_slot(c)->Some_0)
}

/// Every text is one JSON object.
pub open spec fn texts_ok(texts: Seq<Seq<u8>>) -> bool {
    forall|i: int| 0 <= i < texts.len() ==> metadata_ok(#[trigger] texts[i])
}

/// The state that the files record, or the first reason, in the order of
/// the checks, for which they are refused: the manifest against what the
/// caller expects, then the identifiers, the vectors and the metadata.
pub open spec fn decode_state(
    f: FilesModel,
    want_dimension: Option<usize>,
    want_metric: Option<Distance>,
) -> Result<State, LoadError> {
    let m = f.manifest;
    if m.format_version != FORMAT_VERSION {
        Err(LoadError::UnsupportedVersion { version: m.format_version })
    } else if want_dimension is Some && want_dimension->Some_0 != m.dimension {
        Err(LoadError::DimensionMismatch { expected: want_dimension->Some_0, found: m.dimension })
    } else if want_metric is Some && want_metric->Some_0 != m.metric {
        Err(LoadError::MetricMismatch)
    } else if !m.graph_params.spec_valid() {
        Err(LoadError::InvalidParams)
    } else if dec_frames(f.identifiers) is None || !chunks_ok(dec_frames(f.identifiers)->Some_0) {
        Err(LoadError::CorruptIdentifiers)
    } else {
        let slots = chunk_slots(dec_frames(f.identifiers)->Some_0);
        if !distinct(slots) {
            Err(LoadError::DuplicateIdentifier)
        } else if (m.dimension == 0 && slots.len() > 0) || dec_rows(
            f.vectors,
            m.dimension as nat,
            slots.len(),
        ) is None {
            Err(LoadError::CorruptVectors)
        } else if dec_frames(f.metadata) is None || dec_frames(f.metadata)->Some_0.len()
            != slots.len() || !texts_ok(dec_frames(f.metadata)->Some_0) {
            Err(LoadError::CorruptMetadata)
        } else {
            Ok(
                State {
                    dimension: m.dimension,
                    distance: m.metric,
                    params: m.graph_params,
                    generation: m.generation,
                    slots,
                    vectors: dec_rows(f.vectors, m.dimension as nat, slots.len())->Some_0,
                    texts: dec_frames(f.metadata)->Some_0,
                },
            )
        }
    }
}

/// `s` after one more save.
pub open spec fn saved(s: State) -> State {
    State {
        generation: if s.generation < u64::MAX {
            (s.generation + 1) as u64
        } else {
            s.generation
        },
        ..s
    }
}

/// Opening what was saved gives the collection back: identifiers,
/// vectors, metadata, metric, dimension, parameters and generation. This
/// holds whether the caller names the dimension and the metric it expects
/// or not.
pub proof fn law_open_save(s: State)
    requires
        state_ok(s),
    ensures
        decode_state(encode_state(s), None, None) == Ok::<State, LoadError>(s),
        decode_state(encode_state(s), Some(s.dimension), Some(s.distance)) == Ok::<State, LoadError>(
            s,
        ),
{
    let f = encode_state(s);
    let chunks = slot_chunks(s.slots);
    assert(frames_fit(chunks)) by {
        assert forall|i: int| 0 <= i < chunks.len() implies (#[trigger] chunks[i]).len() <= u64::MAX by {
            if s.slots[i] is Some {
                assert(id_ok(s.slots[i]->Some_0));
            }
        }
    }
    law_frames_round_trip(chunks);
    assert forall|i: int| 0 <= i < chunks.len() implies {
        let d = dec_slot(#[trigger] chunks[i]);
        d is Some && (d->Some_0 is Some ==> id_ok(d->Some_0->Some_0))
    } by {
        law_slot_round_trip(s.slots[i]);
    }
    assert(chunk_slots(chunks) =~= s.slots) by {
        assert forall|i: int| 0 <= i < chunks.len() implies chunk_slots(chunks)[i] == s.slots[i] by {
            law_slot_round_trip(s.slots[i]);
        }
    }
    assert(rows_fit(s.vectors, s.dimension as nat));
    law_rows_round_trip(s.vectors, s.dimension as nat);
    assert(frames_fit(s.texts));
    law_frames_round_trip(s.texts);
}

impl Collection {
    /// The files that record the collection as it stands.
    pub fn export(&self) -> (f: Files)
        requires
            self.wf(),
        ensures
            f@ == encode_state(self@),
    {
        let n = self.rows.len();
        let mut chunks: Vec<Vec<u8>> = Vec::new();
        let mut vectors: Vec<Vec<u32>> = Vec::new();
        let mut texts: Vec<Vec<u8>> = Vec::new();
        let mut i: usize = 0;
        proof {
            self.lemma_wf();
        }
        while i < n
            invariant
                self.wf(),
                n == self.rows@.len(),
                n == self@.slots.len(),
                n == self@.vectors.len(),
                n == self@.texts.len(),
                i <= n,
                chunks@.len() == i,
                vectors@.len() == i,
                texts@.len() == i,
                forall|k: int| 0 <= k < i ==> (#[trigger] chunks@[k])@ == enc_slot(self@.slots[k]),
                forall|k: int| 0 <= k < i ==> (#[trigger] vectors@[k])@ == self@.vectors[k],
                forall|k: int| 0 <= k < i ==> (#[trigger] texts@[k])@ == self@.texts[k],
            decreases n - i,
        {
            let slot = self.ids.reverse(i);
            chunks.push(encode_slot(slot));
            assert(self@.vectors[i as int] == self.rows@[i as int].vector@);
            assert(self@.texts[i as int] == self.rows@[i as int].text@);
            vectors.push(self.rows[i].vector.clone());
            texts.push(self.rows[i].text.clone());
            i += 1;
        }
        proof {
            assert(chunks@.map_values(|f: Vec<u8>| f@) =~= slot_chunks(self@.slots));
            assert(rows_view(vectors@) =~= self@.vectors);
            assert(texts@.map_values(|f: Vec<u8>| f@) =~= self@.texts);
        }
        Files {
            manifest: Manifest {
                format_version: FORMAT_VERSION,
                dimension: self.dimension,
                metric: self.distance,
                graph_params: self.params,
                generation: self.generation,
            },
            identifiers: encode_frames(&chunks),
            vectors: encode_rows(&vectors),
            metadata: encode_frames(&texts),
        }
    }

    /// Counts one more save and returns the files that record the
    /// collection. What the files hold opens as the collection that is
    /// left.
    pub fn save(&mut self) -> (f: Files)
        requires
            old(self).wf(),
        ensures
            final(self).wf(),
            final(self)@ == saved(old(self)@),
            f@ == encode_state(final(self)@),
            decode_state(f@, None, None) == Ok::<State, LoadError>(final(self)@),
    {
        if self.generation < u64::MAX {
            self.generation = self.generation + 1;
        }
        proof {
            assert(self@.vectors =~= old(self)@.vectors);
            assert(self@.texts =~= old(self)@.texts);
            assert(self@ == saved(old(self)@));
            assert(self.rows == old(self).rows);
            self.lemma_wf();
            law_open_save(self@);
        }
        self.export()
    }

    /// Opens a saved collection. The manifest is held against what the
    /// caller expects, where it expects something; then the three files are
    /// decoded and checked against each other. The result is the state
    /// that the files record, or the first reason for which they are
    /// refused.
    #[verifier::loop_isolation(false)]
    pub fn open(f: &Files, want_dimension: Option<usize>, want_metric: Option<Distance>) -> (r:
        Result<Collection, LoadError>)
        ensures
            match decode_state(f@, want_dimension, want_metric) {
                Ok(s) => r is Ok && r->Ok_0.wf() && r->Ok_0@ == s,
                Err(e) => r is Err && r->Err_0 == e,
            },
    {
        let m = f.manifest;
        if m.format_version != FORMAT_VERSION {
            return Err(LoadError::UnsupportedVersion { version: m.format_version });
        }
        match want_dimension {
            Some(d) => {
                if d != m.dimension {
                    return Err(LoadError::DimensionMismatch { expected: d, found: m.dimension });
                }
            },
            None => {},
        }
        match want_metric {
            Some(d) => {
                if d != m.metric {
                    return Err(LoadError::MetricMismatch);
                }
            },
            None => {},
        }
        if !m.graph_params.valid() {
            return Err(LoadError::InvalidParams);
        }
        let chunks = match decode_frames(f.identifiers.as_slice()) {
            Some(c) => c,
            None => {
                return Err(LoadError::CorruptIdentifiers);
            },
        };
        let ghost cs = dec_frames(f@.identifiers)->Some_0;
        let n = chunks.len();
        let mut slots: Vec<Option<String>> = Vec::new();
        let mut i: usize = 0;
        while i < n
            invariant
                n == chunks@.len(),
                cs == chunks@.map_values(|f: Vec<u8>| f@),
                i <= n,
                slots@.len() == i,
                forall|k: int|
                    0 <= k < i ==> {
                        let d = dec_slot(#[trigger] cs[k]);
                        d is Some && (d->Some_0 is Some ==> id_ok(d->Some_0->Some_0))
                    },
                forall|k: int| 0 <= k < i ==> slot_view(#[trigger] slots@[k]) == dec_slot(cs[k])->Some_0,
            decreases n - i,
        {
            assert(cs[i as int] == chunks@[i as int]@);
            match decode_slot(chunks[i].as_slice()) {
                Some(slot) => {
                    match &slot {
                        Some(id) => {
                            let len = id.as_str().as_bytes().len();
                            if len == 0 || len > MAX_ID_BYTES {
                                return Err(LoadError::CorruptIdentifiers);
                            }
                        },
                        None => {},
                    }
                    slots.push(slot);
                },
                None => {
                    return Err(LoadError::CorruptIdentifiers);
                },
            }
            i += 1;
        }
        let ghost want = chunk_slots(cs);
        assert(chunks_ok(cs));
        let mut ids = IdMap::new();
        let mut k: usize = 0;
        assert(want.take(0) =~= Seq::empty());
        while k < n
            invariant
                n == slots@.len(),
                n == want.len(),
                k <= n,
                forall|j: int| k <= j < n ==> slot_view(#[trigger] slots@[j]) == want[j],
                ids.wf(),
                ids@ == want.take(k as int),
            decreases n - k,
        {
            let mut slot: Option<String> = None;
            slots.set_and_swap(k, &mut slot);
            let ghost before = ids@;
            if !ids.push_slot(slot) {
                proof {
                    let id = want[k as int]->Some_0;
                    let j = choose|j: int| holds_at(before, j, id);
                    assert(holds_at(want, j, id));
                    assert(holds_at(want, k as int, id));
                }
                return Err(LoadError::DuplicateIdentifier);
            }
            assert(want.take(k as int + 1) =~= want.take(k as int).push(want[k as int]));
            k += 1;
        }
        proof {
            assert(want.take(n as int) =~= want);
            ids.lemma_wf();
        }
        if m.dimension == 0 && n > 0 {
            return Err(LoadError::CorruptVectors);
        }
        let mut vectors = match decode_rows(f.vectors.as_slice(), m.dimension, n) {
            Some(v) => v,
            None => {
                return Err(LoadError::CorruptVectors);
            },
        };
        let ghost vs = dec_rows(f@.vectors, m.dimension as nat, n as nat)->Some_0;
        let mut texts = match decode_frames(f.metadata.as_slice()) {
            Some(t) => t,
            None => {
                return Err(LoadError::CorruptMetadata);
            },
        };
        let ghost ts = dec_frames(f@.metadata)->Some_0;
        if texts.len() != n {
            return Err(LoadError::CorruptMetadata);
        }
        proof {
            lemma_dec_rows_shape(f@.vectors, m.dimension as nat, n as nat);
        }
        let mut rows: Vec<Row> = Vec::new();
        let mut j: usize = 0;
        while j < n
            invariant
                j <= n,
                vectors@.len() == n,
                texts@.len() == n,
                vs.len() == n,
                ts.len() == n,
                forall|a: int| j <= a < n ==> (#[trigger] vectors@[a])@ == vs[a],
                forall|a: int| j <= a < n ==> (#[trigger] texts@[a])@ == ts[a],
                rows@.len() == j,
                forall|a: int|
                    0 <= a < j ==> (#[trigger] rows@[a]).vector@ == vs[a] && rows@[a].text@ == ts[a] && Some(
                        rows@[a].doc@,
                    ) == json_parse(ts[a]) && metadata_ok(ts[a]) && ts[a].len() <= usize::MAX,
            decreases n - j,
        {
            let mut vector: Vec<u32> = Vec::new();
            let mut text: Vec<u8> = Vec::new();
            vectors.set_and_swap(j, &mut vector);
            texts.set_and_swap(j, &mut text);
            let text_len = text.len();
            assert(ts[j as int].len() <= usize::MAX);
            let doc = match parse_json(text.as_slice()) {
                Ok(d) => match d {
                    JsonValue::Object(_) => d,
                    _ => {
                        assert(!metadata_ok(ts[j as int]));
                        return Err(LoadError::CorruptMetadata);
                    },
                },
                Err(_) => {
                    assert(!metadata_ok(ts[j as int]));
                    return Err(LoadError::CorruptMetadata);
                },
            };
            rows.push(Row { vector, text, doc });
            j += 1;
        }
        let c = Collection {
            ids,
            rows,
            dimension: m.dimension,
            distance: m.metric,
            params: m.graph_params,
            generation: m.generation,
        };
        proof {
            let s = decode_state(f@, want_dimension, want_metric)->Ok_0;
            assert(c@.vectors =~= vs);
            assert(c@.texts =~= ts);
            assert(c@ == s);
            assert forall|a: int| 0 <= a < c@.texts.len() implies (#[trigger] c@.texts[a]).len()
                <= usize::MAX by {
                assert(c@.texts[a] == ts[a]);
            }
            assert forall|a: int|
                0 <= a < c@.slots.len() && (#[trigger] c@.slots[a]) is Some implies id_ok(
                c@.slots[a]->Some_0,
            ) by {
                assert(c@.slots[a] == dec_slot(cs[a])->Some_0);
            }
        }
        Ok(c)
    }
}

/// Decoded rows are as many as asked for, of the dimension asked for.
pub proof fn lemma_dec_rows_shape(b: Seq<u8>, dim: nat, count: nat)
    requires
        dec_rows(b, dim, count) is Some,
    ensures
        dec_rows(b, dim, count)->Some_0.len() == count,
        forall|i: int| 0 <= i < count ==> (#[trigger] dec_rows(b, dim, count)->Some_0[i]).len() == dim,
    decreases count,
{
    if count > 0 {
        lemma_dec_rows_shape(b.skip(4 * dim as int), dim, (count - 1) as nat);
        crate::codec::lemma_dec_words_len(b.take(4 * dim as int), dim);
    }
}

} // verus!
