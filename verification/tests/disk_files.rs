use vecstore::backend::{Distance, GraphParams};
use vecstore::backup::GraphUse;
use vecstore::collection::Collection;
use vecstore::disk::{backup, graph_use_of, open_stored, restore, store};
use vecstore::manifest::{
    manifest_from, metric_named, metric_word, params_from, parse_manifest, read_manifest,
    write_manifest,
};
use vecstore::persist::{LoadError, Manifest};
use vecstore::text::parse_natural;
use vecstore::value::parse_json;

fn sample() -> Manifest {
    Manifest {
        format_version: 1,
        dimension: 3,
        metric: Distance::Cosine,
        graph_params: GraphParams::defaults(),
        generation: 7,
    }
}

const WRITTEN: &str = "{\"format_version\":1,\"dimension\":3,\"metric\":\"cosine\",\"graph_params\":{\"M\":16,\"ef_construction\":200,\"max_layer\":16,\"max_elements\":100000},\"generation\":7}";

fn two_records() -> Collection {
    let mut c = Collection::new(2, Distance::Euclidean, GraphParams::defaults()).unwrap();
    let one = [1.0f32.to_bits(), 0.0f32.to_bits()].to_vec();
    let two = [0.0f32.to_bits(), 2.5f32.to_bits()].to_vec();
    c.upsert("one".to_string(), one, b"{\"n\":1}".to_vec()).unwrap();
    c.upsert("two".to_string(), two, b"{}".to_vec()).unwrap();
    c
}

#[test]
fn manifest_is_written_in_one_form() {
    assert_eq!(write_manifest(&sample()), WRITTEN);
    let other = Manifest {
        format_version: 0,
        dimension: 0,
        metric: Distance::DotProduct,
        graph_params: GraphParams { m: 1, ef_construction: 2, max_layer: 3, max_elements: 4 },
        generation: u64::MAX,
    };
    assert_eq!(
        write_manifest(&other),
        "{\"format_version\":0,\"dimension\":0,\"metric\":\"dot\",\"graph_params\":{\"M\":1,\"ef_construction\":2,\"max_layer\":3,\"max_elements\":4},\"generation\":18446744073709551615}"
    );
    assert_eq!(parse_manifest(&write_manifest(&other)), Some(other));
}

#[test]
fn written_manifest_is_read_back() {
    let m = sample();
    assert_eq!(parse_manifest(WRITTEN), Some(m));
    assert_eq!(read_manifest(WRITTEN.as_bytes()), Ok(m));
    let euclid = Manifest { metric: Distance::Euclidean, ..m };
    assert_eq!(read_manifest(write_manifest(&euclid).as_bytes()), Ok(euclid));
    // The written form is exact: nothing may stand before, between or behind.
    assert_eq!(parse_manifest(&format!(" {}", WRITTEN)), None);
    assert_eq!(parse_manifest(&format!("{}\n", WRITTEN)), None);
    assert_eq!(parse_manifest(&WRITTEN.replace("cosine", "manhattan")), None);
    assert_eq!(parse_manifest(&WRITTEN.replace(":3,", ":,")), None);
    assert_eq!(parse_manifest(&WRITTEN.replace(":1,", ":4294967296,")), None);
    assert_eq!(parse_manifest(&WRITTEN.replace(":7}", ":18446744073709551616}")), None);
    assert_eq!(parse_manifest(""), None);
    // Zeros before a number are passed over.
    assert_eq!(parse_manifest(&WRITTEN.replace(":3,", ":003,")), Some(m));
}

#[test]
fn manifest_is_read_from_any_json_object_with_its_fields() {
    let spaced = "{\n  \"generation\": 7,\n  \"metric\": \"cosine\",\n  \"dimension\": 3,\n  \"graph_params\": {\"max_elements\": 100000, \"max_layer\": 16, \"M\": 16, \"ef_construction\": 200},\n  \"note\": [1, 2],\n  \"format_version\": 1\n}";
    assert_eq!(parse_manifest(spaced), None);
    assert_eq!(read_manifest(spaced.as_bytes()), Ok(sample()));
    let v = parse_json(spaced.as_bytes()).unwrap();
    assert_eq!(manifest_from(&v), Some(sample()));
    let p = parse_json(b"{\"M\":1,\"ef_construction\":2,\"max_layer\":3,\"max_elements\":4}").unwrap();
    assert_eq!(
        params_from(&p),
        Some(GraphParams { m: 1, ef_construction: 2, max_layer: 3, max_elements: 4 })
    );
}

#[test]
fn manifest_that_is_none_is_refused() {
    let bad = [
        "",
        "not json",
        "[]",
        "{}",
        "{\"format_version\":1,\"dimension\":3,\"metric\":\"cosine\",\"generation\":7}",
        "{\"format_version\":1,\"dimension\":3,\"metric\":\"manhattan\",\"graph_params\":{\"M\":16,\"ef_construction\":200,\"max_layer\":16,\"max_elements\":100000},\"generation\":7}",
        "{\"format_version\":1,\"dimension\":3.5,\"metric\":\"cosine\",\"graph_params\":{\"M\":16,\"ef_construction\":200,\"max_layer\":16,\"max_elements\":100000},\"generation\":7}",
        "{\"format_version\":1,\"dimension\":-3,\"metric\":\"cosine\",\"graph_params\":{\"M\":16,\"ef_construction\":200,\"max_layer\":16,\"max_elements\":100000},\"generation\":7}",
        "{\"format_version\":\"1\",\"dimension\":3,\"metric\":\"cosine\",\"graph_params\":{\"M\":16,\"ef_construction\":200,\"max_layer\":16,\"max_elements\":100000},\"generation\":7}",
        "{\"format_version\":4294967296,\"dimension\":3,\"metric\":\"cosine\",\"graph_params\":{\"M\":16,\"ef_construction\":200,\"max_layer\":16,\"max_elements\":100000},\"generation\":7}",
        "{\"format_version\":1,\"dimension\":3,\"metric\":\"cosine\",\"graph_params\":{\"M\":16,\"ef_construction\":200,\"max_layer\":16},\"generation\":7}",
        "{\"format_version\":1,\"dimension\":3,\"metric\":\"cosine\",\"graph_params\":[16,200,16,100000],\"generation\":7}",
        "{\"format_version\":1,\"dimension\":3,\"metric\":7,\"graph_params\":{\"M\":16,\"ef_construction\":200,\"max_layer\":16,\"max_elements\":100000},\"generation\":7}",
    ];
    for text in bad {
        assert_eq!(read_manifest(text.as_bytes()), Err(LoadError::CorruptManifest), "{}", text);
    }
    assert_eq!(read_manifest(&[0xff, 0xfe]), Err(LoadError::CorruptManifest));
}

#[test]
fn metrics_by_name() {
    for d in [Distance::Cosine, Distance::Euclidean, Distance::DotProduct] {
        assert_eq!(metric_named(metric_word(d)), Some(d));
    }
    assert_eq!(metric_word(Distance::Cosine), "cosine");
    assert_eq!(metric_word(Distance::Euclidean), "euclidean");
    assert_eq!(metric_word(Distance::DotProduct), "dot");
    assert_eq!(metric_named("Cosine"), None);
    assert_eq!(metric_named(""), None);
    assert_eq!(metric_named("dot "), None);
}

#[test]
fn numbers_in_digits() {
    let read = |s: &str, max: u64| parse_natural(&s.chars().collect(), max);
    assert_eq!(read("0", 10), Some(0));
    assert_eq!(read("10", 10), Some(10));
    assert_eq!(read("11", 10), None);
    assert_eq!(read("007", 10), Some(7));
    assert_eq!(read("", 10), None);
    assert_eq!(read("12a", 1000), None);
    assert_eq!(read("-1", 1000), None);
    assert_eq!(read("+1", 1000), None);
    assert_eq!(read("1.0", 1000), None);
    assert_eq!(read("18446744073709551615", u64::MAX), Some(u64::MAX));
    assert_eq!(read("18446744073709551616", u64::MAX), None);
    assert_eq!(read("99999999999999999999999", u64::MAX), None);
    assert_eq!(read("5", 0), None);
    assert_eq!(read("0", 0), Some(0));
}

#[test]
fn stored_files_open_as_the_collection() {
    let mut c = two_records();
    let stored = store(c.save(), b"graph bytes".to_vec());
    assert_eq!(
        String::from_utf8(stored.manifest.clone()).unwrap(),
        "{\"format_version\":1,\"dimension\":2,\"metric\":\"euclidean\",\"graph_params\":{\"M\":16,\"ef_construction\":200,\"max_layer\":16,\"max_elements\":100000},\"generation\":1}"
    );
    assert_eq!(stored.checksum.len(), 40);
    assert_eq!(stored.graph.as_deref(), Some(&b"graph bytes"[..]));

    let (back, graph_use) = open_stored(&stored, Some(2), Some(Distance::Euclidean)).unwrap();
    assert_eq!(graph_use, GraphUse::Load);
    assert_eq!(back.vectors(), c.vectors());
    assert_eq!(back.stats(), c.stats());
    assert_eq!(back.get("one").map(|r| r.0), Some(0));

    match open_stored(&stored, Some(3), None) {
        Err(e) => assert_eq!(e, LoadError::DimensionMismatch { expected: 3, found: 2 }),
        Ok(_) => panic!("the dimension is another"),
    }
    match open_stored(&stored, None, Some(Distance::Cosine)) {
        Err(e) => assert_eq!(e, LoadError::MetricMismatch),
        Ok(_) => panic!("the metric is another"),
    }
}

#[test]
fn graph_file_is_a_cache() {
    let mut c = two_records();
    let mut stored = store(c.save(), b"graph bytes".to_vec());
    stored.graph = None;
    let (back, graph_use) = open_stored(&stored, None, None).unwrap();
    assert_eq!(graph_use, GraphUse::Rebuild);
    assert_eq!(back.vectors(), c.vectors());

    stored.graph = Some(b"graph bytez".to_vec());
    let (back, graph_use) = open_stored(&stored, None, None).unwrap();
    assert_eq!(graph_use, GraphUse::Rebuild);
    assert_eq!(back.len(), 2);
}

#[test]
fn graph_is_rebuilt_after_records_were_retired() {
    let mut c = two_records();
    c.upsert("one".to_string(), vec![0, 0], b"{}".to_vec()).unwrap();
    assert_eq!(c.stats().tombstones, 1);
    let (back, graph_use) = open_stored(&store(c.save(), b"g".to_vec()), None, None).unwrap();
    assert_eq!(graph_use, GraphUse::Rebuild);
    assert_eq!(graph_use_of(&back, GraphUse::Load), GraphUse::Rebuild);
    assert_eq!(back.stats().tombstones, 1);
    c.optimize();
    let (back, graph_use) = open_stored(&store(c.save(), b"g".to_vec()), None, None).unwrap();
    assert_eq!(graph_use, GraphUse::Load);
    assert_eq!(graph_use_of(&back, GraphUse::Load), GraphUse::Load);
    assert_eq!(graph_use_of(&back, GraphUse::Rebuild), GraphUse::Rebuild);
}

#[test]
fn damaged_files_are_refused() {
    let mut c = two_records();
    let good = store(c.save(), vec![]);
    let damage = |f: &dyn Fn(&mut vecstore::disk::Stored)| {
        let mut d = store(c.export(), vec![]);
        f(&mut d);
        open_stored(&d, None, None).err()
    };
    assert_eq!(damage(&|d| d.manifest[20] ^= 1), Some(LoadError::ChecksumMismatch));
    assert_eq!(damage(&|d| d.identifiers[8] ^= 1), Some(LoadError::ChecksumMismatch));
    assert_eq!(damage(&|d| d.vectors.push(0)), Some(LoadError::ChecksumMismatch));
    assert_eq!(damage(&|d| d.metadata.clear()), Some(LoadError::ChecksumMismatch));
    assert_eq!(damage(&|d| d.checksum.truncate(39)), Some(LoadError::ChecksumMismatch));
    assert_eq!(damage(&|d| d.checksum.clear()), Some(LoadError::ChecksumMismatch));
    assert!(open_stored(&good, None, None).is_ok());
}

#[test]
fn backup_and_restore() {
    let mut c = two_records();
    c.delete("one").unwrap();
    let archive = backup(store(c.save(), b"g".to_vec()), "spare", 1_700_000_000);
    let r = restore(&archive).unwrap();
    assert_eq!(r.origin, "spare");
    assert_eq!(r.timestamp, 1_700_000_000);
    assert_eq!(r.graph, b"g");
    // A record was retired, so the graph is to be built anew.
    assert_eq!(r.graph_use, GraphUse::Rebuild);
    let mut whole = two_records();
    let kept = restore(&backup(store(whole.save(), b"g".to_vec()), "spare", 5)).unwrap();
    assert_eq!(kept.graph_use, GraphUse::Load);
    assert_eq!(kept.collection.len(), 2);
    assert_eq!(r.collection.vectors(), c.vectors());
    assert_eq!(r.collection.stats(), c.stats());
    assert_eq!(r.collection.len(), 1);
    assert!(r.collection.get("one").is_none());

    for cut in [0, 1, 8, archive.len() / 2, archive.len() - 1] {
        match restore(&archive[..cut]) {
            Err(e) => assert_eq!(e, LoadError::TruncatedArchive),
            Ok(_) => panic!("an archive cut at {} is no archive", cut),
        }
    }
    let mut changed = archive.clone();
    let last = changed.len() - 50;
    changed[last] ^= 1;
    assert!(restore(&changed).is_err());

    // The header names the format: byte 0 of the third frame.
    let mut newer = archive.clone();
    let at = 8 + "spare".len() + 8 + 8 + 8;
    assert_eq!(newer[at], 1);
    newer[at] = 2;
    match restore(&newer) {
        Err(e) => assert_eq!(e, LoadError::UnsupportedArchive { version: 2 }),
        Ok(_) => panic!("the archive is of another format"),
    }

    let mut bare = store(c.export(), vec![]);
    bare.graph = None;
    let r = restore(&backup(bare, "", 0)).unwrap();
    assert_eq!(r.graph, Vec::<u8>::new());
    assert_eq!(r.collection.len(), 1);
}
