//! Content hashes of the saved files, and the backup archive.
//!
//! A backup is one self-describing archive: a header with the name of the
//! collection it came from, the time it was made and the format version,
//! then the files of the collection, each as one frame.

use vstd::prelude::*;
use vstd::bytes::{
    lemma_auto_spec_u64_to_from_le_bytes,
    spec_u64_from_le_bytes,
    spec_u64_to_le_bytes,
    u64_from_le_bytes,
    u64_to_le_bytes,
};
use vstd::slice::slice_subrange;
use vstd::utf8::{
    decode_utf8,
    encode_utf8,
    encode_utf8_decode_utf8,
    encode_utf8_valid_utf8,
    valid_utf8,
};
use crate::codec::{
    content_hash,
    dec_frames,
    decode_frames,
    enc_frames,
    encode_frames,
    frames_fit,
    hash_of,
    law_frames_round_trip,
};
use crate::persist::LoadError;
use crate::text::string_from_utf8;

verus! {

/// The content hash of each file of a saved collection.
#[derive(Clone, Copy, Debug, PartialEq, Eq, Structural)]
pub struct Checksums {
    pub manifest: u64,
    pub identifiers: u64,
    pub vectors: u64,
    pub metadata: u64,
    pub graph: u64,
}

/// What to do with the serialized graph when a collection is opened.
#[derive(Clone, Copy, Debug, PartialEq, Eq, Structural)]
pub enum GraphUse {
    /// The graph file is sound and can be loaded.
    Load,
    /// The graph file is missing or damaged; the graph is to be rebuilt
    /// from the vectors.
    Rebuild,
}

/// The hashes of the given files.
pub open spec fn sums_of(
    manifest: Seq<u8>,
    identifiers: Seq<u8>,
    vectors: Seq<u8>,
    metadata: Seq<u8>,
    graph: Seq<u8>,
) -> Checksums {
    Checksums {
        manifest: hash_of(manifest),
        identifiers: hash_of(identifiers),
        vectors: hash_of(vectors),
        metadata: hash_of(metadata),
        graph: hash_of(graph),
    }
}

/// Hashes the files of a saved collection.
pub fn checksums(
    manifest: &[u8],
    identifiers: &[u8],
    vectors: &[u8],
    metadata: &[u8],
    graph: &[u8],
) -> (c: Checksums)
    ensures
        c == sums_of(manifest@, identifiers@, vectors@, metadata@, graph@),
{
    Checksums {
        manifest: content_hash(manifest),
        identifiers: content_hash(identifiers),
        vectors: content_hash(vectors),
        metadata: content_hash(metadata),
        graph: content_hash(graph),
    }
}

/// What the recorded hashes say of the files: a manifest, identifier
/// list, vector file or metadata file with another hash is an error; a
/// graph that is missing or has another hash is to be rebuilt.
pub open spec fn integrity(
    manifest: Seq<u8>,
    identifiers: Seq<u8>,
    vectors: Seq<u8>,
    metadata: Seq<u8>,
    graph: Option<Seq<u8>>,
    sums: Checksums,
) -> Result<GraphUse, LoadError> {
    if hash_of(manifest) != sums.manifest || hash_of(identifiers) != sums.identifiers || hash_of(
        vectors,
    ) != sums.vectors || hash_of(metadata) != sums.metadata {
        Err(LoadError::ChecksumMismatch)
    } else if graph is None || hash_of(graph->Some_0) != sums.graph {
        Ok(GraphUse::Rebuild)
    } else {
        Ok(GraphUse::Load)
    }
}

/// Holds the files against their recorded hashes.
pub fn verify(
    manifest: &[u8],
    identifiers: &[u8],
    vectors: &[u8],
    metadata: &[u8],
    graph: Option<&[u8]>,
    sums: &Checksums,
) -> (r: Result<GraphUse, LoadError>)
    ensures
        r == integrity(
            manifest@,
            identifiers@,
            vectors@,
            metadata@,
            match graph {
                Some(g) => Some(g@),
                None => None,
            },
            *sums,
        ),
{
    if content_hash(manifest) != sums.manifest || content_hash(identifiers) != sums.identifiers
        || content_hash(vectors) != sums.vectors || content_hash(metadata) != sums.metadata {
        return Err(LoadError::ChecksumMismatch);
    }
    match graph {
        Some(g) => {
            if content_hash(g) != sums.graph {
                Ok(GraphUse::Rebuild)
            } else {
                Ok(GraphUse::Load)
            }
        },
        None => Ok(GraphUse::Rebuild),
    }
}

/// Files that were hashed pass the check against these hashes.
pub proof fn law_hashed_files_verify(
    manifest: Seq<u8>,
    identifiers: Seq<u8>,
    vectors: Seq<u8>,
    metadata: Seq<u8>,
    graph: Seq<u8>,
)
    ensures
        integrity(
            manifest,
            identifiers,
            vectors,
            metadata,
            Some(graph),
            sums_of(manifest, identifiers, vectors, metadata, graph),
        ) == Ok::<GraphUse, LoadError>(GraphUse::Load),
        integrity(
            manifest,
            identifiers,
            vectors,
            metadata,
            None,
            sums_of(manifest, identifiers, vectors, metadata, graph),
        ) == Ok::<GraphUse, LoadError>(GraphUse::Rebuild),
{
}

/// The checksum file: the five hashes, 8 little-endian bytes each, in the
/// order manifest, identifiers, vectors, metadata, graph.
pub open spec fn enc_checksums(c: Checksums) -> Seq<u8> {
    spec_u64_to_le_bytes(c.manifest) + spec_u64_to_le_bytes(c.identifiers) + spec_u64_to_le_bytes(
        c.vectors,
    ) + spec_u64_to_le_bytes(c.metadata) + spec_u64_to_le_bytes(c.graph)
}

/// The hashes that a checksum file holds, or nothing where it is not 40
/// bytes long.
pub open spec fn dec_checksums(b: Seq<u8>) -> Option<Checksums> {
    if b.len() != 40 {
        None
    } else {
        Some(
            Checksums {
                manifest: spec_u64_from_le_bytes(b.subrange(0, 8)),
                identifiers: spec_u64_from_le_bytes(b.subrange(8, 16)),
                vectors: spec_u64_from_le_bytes(b.subrange(16, 24)),
                metadata: spec_u64_from_le_bytes(b.subrange(24, 32)),
                graph: spec_u64_from_le_bytes(b.subrange(32, 40)),
            },
        )
    }
}

/// Reading a written checksum file gives the hashes back.
pub proof fn law_checksums_round_trip(c: Checksums)
    ensures
        dec_checksums(enc_checksums(c)) == Some(c),
{
    lemma_auto_spec_u64_to_from_le_bytes();
    let b = enc_checksums(c);
    assert(b.subrange(0, 8) =~= spec_u64_to_le_bytes(c.manifest));
    assert(b.subrange(8, 16) =~= spec_u64_to_le_bytes(c.identifiers));
    assert(b.subrange(16, 24) =~= spec_u64_to_le_bytes(c.vectors));
    assert(b.subrange(24, 32) =~= spec_u64_to_le_bytes(c.metadata));
    assert(b.subrange(32, 40) =~= spec_u64_to_le_bytes(c.graph));
}

/// Writes the checksum file.
pub fn encode_checksums(c: &Checksums) -> (out: Vec<u8>)
    ensures
        out@ == enc_checksums(*c),
{
    let mut out = u64_to_le_bytes(c.manifest);
    let mut b = u64_to_le_bytes(c.identifiers);
    out.append(&mut b);
    let mut b = u64_to_le_bytes(c.vectors);
    out.append(&mut b);
    let mut b = u64_to_le_bytes(c.metadata);
    out.append(&mut b);
    let mut b = u64_to_le_bytes(c.graph);
    out.append(&mut b);
    out
}

/// Reads the checksum file.
pub fn decode_checksums(b: &[u8]) -> (r: Option<Checksums>)
    ensures
        r == dec_checksums(b@),
{
    if b.len() != 40 {
        return None;
    }
    Some(
        Checksums {
            manifest: u64_from_le_bytes(slice_subrange(b, 0, 8)),
            identifiers: u64_from_le_bytes(slice_subrange(b, 8, 16)),
            vectors: u64_from_le_bytes(slice_subrange(b, 16, 24)),
            metadata: u64_from_le_bytes(slice_subrange(b, 24, 32)),
            graph: u64_from_le_bytes(slice_subrange(b, 32, 40)),
        },
    )
}

/// A backup, as mathematics.
pub struct BackupModel {
    /// Name of the collection that the backup came from.
    pub origin: Seq<char>,
    /// Wall-clock time of the backup, in seconds.
    pub timestamp: u64,
    pub format_version: u64,
    pub manifest: Seq<u8>,
    pub identifiers: Seq<u8>,
    pub vectors: Seq<u8>,
    pub metadata: Seq<u8>,
    pub graph: Seq<u8>,
    pub checksum: Seq<u8>,
}

/// A backup: the header and the files of a saved collection.
pub struct Backup {
    /// Name of the collection that the backup came from.
    pub origin: String,
    /// Wall-clock time of the backup, in seconds.
    pub timestamp: u64,
    pub format_version: u64,
    pub manifest: Vec<u8>,
    pub identifiers: Vec<u8>,
    pub vectors: Vec<u8>,
    pub metadata: Vec<u8>,
    pub graph: Vec<u8>,
    pub checksum: Vec<u8>,
}

impl View for Backup {
    type V = BackupModel;

    open spec fn view(&self) -> BackupModel {
        BackupModel {
            origin: self.origin@,
            timestamp: self.timestamp,
            format_version: self.format_version,
            manifest: self.manifest@,
            identifiers: self.identifiers@,
            vectors: self.vectors@,
            metadata: self.metadata@,
            graph: self.graph@,
            checksum: self.checksum@,
        }
    }
}

/// The frames of an archive: name, time, version, then the six files.
pub open spec fn backup_frames(b: BackupModel) -> Seq<Seq<u8>> {
    seq![
        encode_utf8(b.origin),
        spec_u64_to_le_bytes(b.timestamp),
        spec_u64_to_le_bytes(b.format_version),
        b.manifest,
        b.identifiers,
        b.vectors,
        b.metadata,
        b.graph,
        b.checksum,
    ]
}

/// The archive of a backup.
pub open spec fn enc_backup(b: BackupModel) -> Seq<u8> {
    enc_frames(backup_frames(b))
}

/// The backup that an archive holds. An archive that is cut short, lacks a
/// part, or has a header that cannot be read is refused.
pub open spec fn dec_backup(a: Seq<u8>) -> Option<BackupModel> {
    match dec_frames(a) {
        None => None,
        Some(fs) => if fs.len() != 9 || !valid_utf8(fs[0]) || fs[1].len() != 8 || fs[2].len() != 8 {
            None
        } else {
            Some(
                BackupModel {
                    origin: decode_utf8(fs[0]),
                    timestamp: spec_u64_from_le_bytes(fs[1]),
                    format_version: spec_u64_from_le_bytes(fs[2]),
                    manifest: fs[3],
                    identifiers: fs[4],
                    vectors: fs[5],
                    metadata: fs[6],
                    graph: fs[7],
                    checksum: fs[8],
                },
            )
        },
    }
}

/// No part of the backup is too long for its length to be written.
pub open spec fn backup_fits(b: BackupModel) -> bool {
    &&& encode_utf8(b.origin).len() <= u64::MAX
    &&& b.manifest.len() <= u64::MAX
    &&& b.identifiers.len() <= u64::MAX
    &&& b.vectors.len() <= u64::MAX
    &&& b.metadata.len() <= u64::MAX
    &&& b.graph.len() <= u64::MAX
    &&& b.checksum.len() <= u64::MAX
}

/// Reading a written archive gives the backup back.
pub proof fn law_backup_round_trip(b: BackupModel)
    requires
        backup_fits(b),
    ensures
        dec_backup(enc_backup(b)) == Some(b),
{
    lemma_auto_spec_u64_to_from_le_bytes();
    let fs = backup_frames(b);
    assert(frames_fit(fs));
    law_frames_round_trip(fs);
    encode_utf8_valid_utf8(b.origin);
    encode_utf8_decode_utf8(b.origin);
}

/// A copy of `b`.
pub fn copy_bytes(b: &[u8]) -> (out: Vec<u8>)
    ensures
        out@ == b@,
{
    let mut out: Vec<u8> = Vec::new();
    let mut i: usize = 0;
    while i < b.len()
        invariant
            i <= b.len(),
            out@ == b@.take(i as int),
        decreases b.len() - i,
    {
        out.push(b[i]);
        i += 1;
        assert(out@ =~= b@.take(i as int));
    }
    assert(b@.take(i as int) =~= b@);
    out
}

/// Writes the archive of a backup.
pub fn encode_backup(b: &Backup) -> (out: Vec<u8>)
    ensures
        out@ == enc_backup(b@),
{
    let mut fs: Vec<Vec<u8>> = Vec::new();
    fs.push(copy_bytes(b.origin.as_str().as_bytes()));
    fs.push(u64_to_le_bytes(b.timestamp));
    fs.push(u64_to_le_bytes(b.format_version));
    fs.push(copy_bytes(b.manifest.as_slice()));
    fs.push(copy_bytes(b.identifiers.as_slice()));
    fs.push(copy_bytes(b.vectors.as_slice()));
    fs.push(copy_bytes(b.metadata.as_slice()));
    fs.push(copy_bytes(b.graph.as_slice()));
    fs.push(copy_bytes(b.checksum.as_slice()));
    assert(fs@.map_values(|f: Vec<u8>| f@) =~= backup_frames(b@));
    encode_frames(&fs)
}

/// Reads the archive of a backup. An archive that is cut short, lacks a
/// part, or has a header that cannot be read is refused.
pub fn decode_backup(a: &[u8]) -> (r: Result<Backup, LoadError>)
    ensures
        r is Ok <==> dec_backup(a@) is Some,
        r is Ok ==> r->Ok_0@ == dec_backup(a@)->Some_0,
        r is Err ==> r->Err_0 == LoadError::TruncatedArchive,
{
    let mut fs = match decode_frames(a) {
        Some(fs) => fs,
        None => {
            return Err(LoadError::TruncatedArchive);
        },
    };
    let ghost all = dec_frames(a@)->Some_0;
    if fs.len() != 9 {
        return Err(LoadError::TruncatedArchive);
    }
    assert(forall|i: int| 0 <= i < 9 ==> all[i] == (#[trigger] fs@[i])@);
    if fs[1].len() != 8 || fs[2].len() != 8 {
        assert(all[1] == fs@[1]@ && all[2] == fs@[2]@);
        return Err(LoadError::TruncatedArchive);
    }
    let timestamp = u64_from_le_bytes(fs[1].as_slice());
    let format_version = u64_from_le_bytes(fs[2].as_slice());
    let checksum = fs.pop().unwrap();
    let graph = fs.pop().unwrap();
    let metadata = fs.pop().unwrap();
    let vectors = fs.pop().unwrap();
    let identifiers = fs.pop().unwrap();
    let manifest = fs.pop().unwrap();
    let _ = fs.pop();
    let _ = fs.pop();
    let name = fs.pop().unwrap();
    assert(name@ == all[0]);
    match string_from_utf8(name) {
        Some(origin) => Ok(
            Backup {
                origin,
                timestamp,
                format_version,
                manifest,
                identifiers,
                vectors,
                metadata,
                graph,
                checksum,
            },
        ),
        None => Err(LoadError::TruncatedArchive),
    }
}

} // verus!
