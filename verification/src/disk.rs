//! A saved collection as bytes: the files of its directory, and the backup
//! archive that is made of them.
//!
//! The directory holds the manifest, the identifier list, the vectors, the
//! metadata, the serialized graph and the checksum file. The library makes
//! the bytes of each and reads them back; moving them to and from the disk
//! is the caller's part. The graph is a cache: the library never looks into
//! it, and opens a collection whose graph is missing or damaged.

use vstd::prelude::*;
use vstd::utf8::encode_utf8;
use crate::backend::Distance;
use crate::backup::{
    backup_fits,
    checksums,
    copy_bytes,
    dec_backup,
    dec_checksums,
    decode_backup,
    decode_checksums,
    enc_backup,
    enc_checksums,
    encode_backup,
    encode_checksums,
    integrity,
    law_backup_round_trip,
    law_checksums_round_trip,
    sums_of,
    verify,
    Backup,
    BackupModel,
    GraphUse,
};
use crate::collection::{state_ok, Collection, State};
use crate::ident::{lemma_live_count_bound, live_count};
use crate::manifest::{law_manifest_round_trip, manifest_in, manifest_text, read_manifest, write_manifest};
use crate::persist::{
    decode_state, encode_state, law_open_save, Files, FilesModel, LoadError, FORMAT_VERSION,
};

verus! {

/// The files of a saved collection.
pub struct Stored {
    pub manifest: Vec<u8>,
    pub identifiers: Vec<u8>,
    pub vectors: Vec<u8>,
    pub metadata: Vec<u8>,
    /// The serialized graph, where there is one.
    pub graph: Option<Vec<u8>>,
    pub checksum: Vec<u8>,
}

/// The files of a saved collection, as mathematics.
pub struct StoredModel {
    pub manifest: Seq<u8>,
    pub identifiers: Seq<u8>,
    pub vectors: Seq<u8>,
    pub metadata: Seq<u8>,
    pub graph: Option<Seq<u8>>,
    pub checksum: Seq<u8>,
}

/// The bytes of an optional file.
pub open spec fn opt_bytes(g: Option<Vec<u8>>) -> Option<Seq<u8>> {
    match g {
        Some(b) => Some(b@),
        None => None,
    }
}

impl View for Stored {
    type V = StoredModel;

    open spec fn view(&self) -> StoredModel {
        StoredModel {
            manifest: self.manifest@,
            identifiers: self.identifiers@,
            vectors: self.vectors@,
            metadata: self.metadata@,
            graph: opt_bytes(self.graph),
            checksum: self.checksum@,
        }
    }
}

/// The files of a directory: the manifest as text, the three files as
/// they are, the graph, and the hashes of all five.
pub open spec fn stored(f: FilesModel, graph: Seq<u8>) -> StoredModel {
    let manifest = encode_utf8(manifest_text(f.manifest));
    StoredModel {
        manifest,
        identifiers: f.identifiers,
        vectors: f.vectors,
        metadata: f.metadata,
        graph: Some(graph),
        checksum: enc_checksums(sums_of(manifest, f.identifiers, f.vectors, f.metadata, graph)),
    }
}

/// What is to be done with the graph of a collection that was opened in
/// state `s`, where the graph file is as `checked` says: the file is
/// loaded where it is sound and the collection holds no retired record,
/// and the graph is rebuilt from the live vectors otherwise.
pub open spec fn graph_use_for(s: State, checked: GraphUse) -> GraphUse {
    if checked == GraphUse::Load && live_count(s.slots) == s.slots.len() {
        GraphUse::Load
    } else {
        GraphUse::Rebuild
    }
}

/// What opening the files of a directory gives: the state that they
/// record and what is to be done with the graph, or the first reason for
/// which they are refused. The checksum file is read first, then the files
/// are held against it, then the manifest is read, then the files are
/// decoded.
pub open spec fn opened(
    d: StoredModel,
    want_dimension: Option<usize>,
    want_metric: Option<Distance>,
) -> Result<(State, GraphUse), LoadError> {
    match dec_checksums(d.checksum) {
        None => Err(LoadError::ChecksumMismatch),
        Some(sums) => match integrity(
            d.manifest,
            d.identifiers,
            d.vectors,
            d.metadata,
            d.graph,
            sums,
        ) {
            Err(e) => Err(e),
            Ok(graph_use) => match manifest_in(d.manifest) {
                Err(e) => Err(e),
                Ok(m) => match decode_state(
                    FilesModel {
                        manifest: m,
                        identifiers: d.identifiers,
                        vectors: d.vectors,
                        metadata: d.metadata,
                    },
                    want_dimension,
                    want_metric,
                ) {
                    Err(e) => Err(e),
                    Ok(s) => Ok((s, graph_use_for(s, graph_use))),
                },
            },
        },
    }
}

/// The files of a directory without its graph.
pub open spec fn without_graph(d: StoredModel) -> StoredModel {
    StoredModel { graph: None, ..d }
}

/// Opening the files that were written for a collection gives the
/// collection back; its graph is to be loaded where it holds no retired
/// record, and rebuilt where it does. Without the graph file the
/// collection is given back all the same, and its graph is to be rebuilt.
pub proof fn law_open_stored(s: State, graph: Seq<u8>)
    requires
        state_ok(s),
    ensures
        opened(stored(encode_state(s), graph), None, None) == Ok::<(State, GraphUse), LoadError>(
            (s, graph_use_for(s, GraphUse::Load)),
        ),
        opened(stored(encode_state(s), graph), Some(s.dimension), Some(s.distance)) == Ok::<
            (State, GraphUse),
            LoadError,
        >((s, graph_use_for(s, GraphUse::Load))),
        opened(without_graph(stored(encode_state(s), graph)), None, None) == Ok::<
            (State, GraphUse),
            LoadError,
        >((s, GraphUse::Rebuild)),
{
    let f = encode_state(s);
    let d = stored(f, graph);
    law_checksums_round_trip(sums_of(d.manifest, d.identifiers, d.vectors, d.metadata, graph));
    law_manifest_round_trip(f.manifest);
    law_open_save(s);
    assert(FilesModel {
        manifest: f.manifest,
        identifiers: d.identifiers,
        vectors: d.vectors,
        metadata: d.metadata,
    } == f);
}

/// Makes the files of a directory from the files of a collection and its
/// serialized graph.
pub fn store(files: Files, graph: Vec<u8>) -> (d: Stored)
    ensures
        d@ == stored(files@, graph@),
{
    let text = write_manifest(&files.manifest);
    let manifest = copy_bytes(text.as_str().as_bytes());
    let sums = checksums(
        manifest.as_slice(),
        files.identifiers.as_slice(),
        files.vectors.as_slice(),
        files.metadata.as_slice(),
        graph.as_slice(),
    );
    Stored {
        manifest,
        identifiers: files.identifiers,
        vectors: files.vectors,
        metadata: files.metadata,
        graph: Some(graph),
        checksum: encode_checksums(&sums),
    }
}

/// The bytes of an optional file, borrowed.
fn graph_of(d: &Stored) -> (g: Option<&[u8]>)
    ensures
        match g {
            Some(b) => d@.graph == Some(b@),
            None => d@.graph is None,
        },
{
    match &d.graph {
        Some(b) => Some(b.as_slice()),
        None => None,
    }
}

/// What is to be done with the graph of a collection whose graph file is
/// as `checked` says.
pub fn graph_use_of(c: &Collection, checked: GraphUse) -> (r: GraphUse)
    requires
        c.wf(),
    ensures
        r == graph_use_for(c@, checked),
{
    proof {
        lemma_live_count_bound(c@.slots);
    }
    let slots = c.ids.next_index();
    let live = c.len();
    match checked {
        GraphUse::Load => if slots == live {
            GraphUse::Load
        } else {
            GraphUse::Rebuild
        },
        GraphUse::Rebuild => GraphUse::Rebuild,
    }
}

/// Opens the files of a directory. The result is the collection that they
/// record, with what is to be done with the graph, or the first reason for
/// which they are refused.
pub fn open_stored(d: &Stored, want_dimension: Option<usize>, want_metric: Option<Distance>) -> (r:
    Result<(Collection, GraphUse), LoadError>)
    ensures
        match opened(d@, want_dimension, want_metric) {
            Ok(x) => r is Ok && r->Ok_0.0.wf() && r->Ok_0.0@ == x.0 && r->Ok_0.1 == x.1,
            Err(e) => r is Err && r->Err_0 == e,
        },
{
    let sums = match decode_checksums(d.checksum.as_slice()) {
        Some(s) => s,
        None => {
            return Err(LoadError::ChecksumMismatch);
        },
    };
    let graph_use = match verify(
        d.manifest.as_slice(),
        d.identifiers.as_slice(),
        d.vectors.as_slice(),
        d.metadata.as_slice(),
        graph_of(d),
        &sums,
    ) {
        Ok(u) => u,
        Err(e) => {
            return Err(e);
        },
    };
    let manifest = match read_manifest(d.manifest.as_slice()) {
        Ok(m) => m,
        Err(e) => {
            return Err(e);
        },
    };
    let files = Files {
        manifest,
        identifiers: copy_bytes(d.identifiers.as_slice()),
        vectors: copy_bytes(d.vectors.as_slice()),
        metadata: copy_bytes(d.metadata.as_slice()),
    };
    match Collection::open(&files, want_dimension, want_metric) {
        Ok(c) => {
            let kept = graph_use_of(&c, graph_use);
            Ok((c, kept))
        },
        Err(e) => Err(e),
    }
}

/// The backup of the files of a directory: the header, then the files. A
/// directory without a graph is backed up with an empty one.
pub open spec fn backup_of(d: StoredModel, origin: Seq<char>, timestamp: u64) -> BackupModel {
    BackupModel {
        origin,
        timestamp,
        format_version: FORMAT_VERSION as u64,
        manifest: d.manifest,
        identifiers: d.identifiers,
        vectors: d.vectors,
        metadata: d.metadata,
        graph: match d.graph {
            Some(g) => g,
            None => Seq::empty(),
        },
        checksum: d.checksum,
    }
}

/// The files of a directory that a backup holds.
pub open spec fn stored_in(b: BackupModel) -> StoredModel {
    StoredModel {
        manifest: b.manifest,
        identifiers: b.identifiers,
        vectors: b.vectors,
        metadata: b.metadata,
        graph: Some(b.graph),
        checksum: b.checksum,
    }
}

/// What restoring an archive gives: the state that its files record and
/// what is to be done with the graph, or the reason for which the archive
/// is refused: it is cut short, its header names another format, or its
/// files do not open.
pub open spec fn restored(archive: Seq<u8>) -> Result<(State, GraphUse), LoadError> {
    match dec_backup(archive) {
        None => Err(LoadError::TruncatedArchive),
        Some(b) => if b.format_version != FORMAT_VERSION as u64 {
            Err(LoadError::UnsupportedArchive { version: b.format_version })
        } else {
            opened(stored_in(b), None, None)
        },
    }
}

/// Restoring the backup of a collection gives the collection back; its
/// graph is to be loaded where it holds no retired record.
pub proof fn law_restore_backup(s: State, graph: Seq<u8>, origin: Seq<char>, timestamp: u64)
    requires
        state_ok(s),
        backup_fits(backup_of(stored(encode_state(s), graph), origin, timestamp)),
    ensures
        restored(enc_backup(backup_of(stored(encode_state(s), graph), origin, timestamp))) == Ok::<
            (State, GraphUse),
            LoadError,
        >((s, graph_use_for(s, GraphUse::Load))),
{
    let d = stored(encode_state(s), graph);
    let b = backup_of(d, origin, timestamp);
    law_backup_round_trip(b);
    law_open_stored(s, graph);
    assert(stored_in(b) == d);
}

/// What a restore gives.
pub struct Restored {
    pub collection: Collection,
    /// Name of the collection that the backup came from.
    pub origin: String,
    /// Wall-clock time of the backup, in seconds.
    pub timestamp: u64,
    /// The serialized graph of the archive.
    pub graph: Vec<u8>,
    /// Whether that graph can be loaded.
    pub graph_use: GraphUse,
}

/// Writes the archive of a backup of the files of a directory, made at
/// `timestamp` of the collection `origin`.
pub fn backup(d: Stored, origin: &str, timestamp: u64) -> (archive: Vec<u8>)
    ensures
        archive@ == enc_backup(backup_of(d@, origin@, timestamp)),
{
    let graph = match d.graph {
        Some(g) => g,
        None => Vec::new(),
    };
    let b = Backup {
        origin: origin.to_owned(),
        timestamp,
        format_version: FORMAT_VERSION as u64,
        manifest: d.manifest,
        identifiers: d.identifiers,
        vectors: d.vectors,
        metadata: d.metadata,
        graph,
        checksum: d.checksum,
    };
    encode_backup(&b)
}

/// Restores an archive: reads the backup, then opens its files.
pub fn restore(archive: &[u8]) -> (r: Result<Restored, LoadError>)
    ensures
        match restored(archive@) {
            Ok(x) => r is Ok && r->Ok_0.collection.wf() && r->Ok_0.collection@ == x.0
                && r->Ok_0.graph_use == x.1 && dec_backup(archive@) is Some && r->Ok_0.origin@
                == dec_backup(archive@)->Some_0.origin && r->Ok_0.timestamp == dec_backup(
                archive@,
            )->Some_0.timestamp && r->Ok_0.graph@ == dec_backup(archive@)->Some_0.graph,
            Err(e) => r is Err && r->Err_0 == e,
        },
{
    let b = match decode_backup(archive) {
        Ok(b) => b,
        Err(e) => {
            return Err(e);
        },
    };
    if b.format_version != FORMAT_VERSION as u64 {
        return Err(LoadError::UnsupportedArchive { version: b.format_version });
    }
    let d = Stored {
        manifest: b.manifest,
        identifiers: b.identifiers,
        vectors: b.vectors,
        metadata: b.metadata,
        graph: Some(b.graph),
        checksum: b.checksum,
    };
    assert(d@ == stored_in(dec_backup(archive@)->Some_0));
    match open_stored(&d, None, None) {
        Ok((collection, graph_use)) => {
            let graph = match d.graph {
                Some(g) => g,
                None => Vec::new(),
            };
            Ok(Restored { collection, origin: b.origin, timestamp: b.timestamp, graph, graph_use })
        },
        Err(e) => Err(e),
    }
}

} // verus!
