use vecstore::backend::{BackendError, Distance, GraphParams, HnswBackend};
use vecstore::backup::{
    checksums, decode_backup, decode_checksums, encode_backup, encode_checksums, verify, Backup,
    Checksums, GraphUse,
};
use vecstore::codec::{
    content_hash, decode_frames, decode_rows, decode_slot, encode_frames, encode_rows, encode_slot,
};
use vecstore::collection::{candidate_list, double_fetch, fetch_size, Collection};
use vecstore::filter::{compile, compile_path, FilterError, FilterExpr};
use vecstore::ident::IdMap;
use vecstore::persist::LoadError;
use vecstore::score::{key_of_score, rank, stands_before};
use vecstore::text::{
    chars_of, extension, file_name, join_chars, pad_left_chars, split_chars, split_lines,
    split_words, string_of, trim_chars,
};
use vecstore::value::{key_of, number_eq, number_le, number_lt, parse_json, JsonValue};

fn num(x: f64) -> JsonValue {
    JsonValue::Number(x.to_bits(), x.to_string())
}

fn text(s: &str) -> JsonValue {
    JsonValue::Text(s.to_string())
}

fn doc(json: &str) -> JsonValue {
    parse_json(json.as_bytes()).unwrap()
}

fn holds(e: &FilterExpr, json: &str) -> bool {
    compile(e).unwrap().eval(&doc(json))
}

#[test]
fn id_map_assigns_and_retires() {
    let mut m = IdMap::new();
    assert!(m.is_empty());
    assert_eq!(m.assign_new("a".to_string()), 0);
    assert_eq!(m.assign_new("b".to_string()), 1);
    assert_eq!(m.assign_new("a".to_string()), 2);
    assert_eq!(m.len(), 2);
    assert_eq!(m.next_index(), 3);
    assert_eq!(m.lookup("a"), Some(2));
    assert_eq!(m.lookup("A"), None);
    assert_eq!(m.reverse(0), None);
    assert_eq!(m.reverse(1), Some(&"b".to_string()));
    assert_eq!(m.reverse(7), None);
    assert_eq!(m.retire("b"), Some(1));
    assert_eq!(m.retire("b"), None);
    assert_eq!(m.len(), 1);
    assert_eq!(m.next_index(), 3);
    assert_eq!(m.live(), vec![(2, "a".to_string())]);
    assert!(m.push_slot(None));
    assert!(!m.push_slot(Some("a".to_string())));
    assert!(m.push_slot(Some("c".to_string())));
    assert_eq!(m.lookup("c"), Some(4));
    assert_eq!(m.len(), 2);
}

#[test]
fn backend_bookkeeping() {
    let mut b = HnswBackend::new(2, Distance::Cosine);
    assert_eq!(b.insert("a".to_string(), &[1, 2]).ok(), Some(0));
    let e = b.insert("b".to_string(), &[1, 2, 3]).unwrap_err();
    assert_eq!(e.message(), "Vector dimension mismatch: expected 2, got 3");
    assert_eq!(b.len(), 1);
    let batch = vec![
        ("b".to_string(), vec![0, 0]),
        ("a".to_string(), vec![0, 1]),
        ("b".to_string(), vec![1, 1]),
    ];
    assert_eq!(b.batch_insert(batch).ok(), Some(vec![1, 2, 3]));
    assert_eq!(b.len(), 2);
    assert_eq!(b.index_of("a"), Some(2));
    assert_eq!(b.index_of("b"), Some(3));
    assert_eq!(b.get_next_idx(), 4);
    let bad = vec![("x".to_string(), vec![0, 0]), ("y".to_string(), vec![0])];
    match b.batch_insert(bad) {
        Err(BackendError::VectorDimension { expected: 2, got: 1 }) => {}
        _ => panic!("the batch is refused"),
    }
    assert_eq!(b.index_of("x"), None);
    assert_eq!(b.batch_insert(vec![]).ok(), Some(vec![]));

    // Retired answers are dropped, the others keep order and score.
    let hits = vec![(0usize, 9u32), (3, 8), (2, 7), (99, 6), (1, 5)];
    assert_eq!(
        b.search(&[0, 0], 5, &hits).ok(),
        Some(vec![("b".to_string(), 8), ("a".to_string(), 7)])
    );
    let e = b.search_with_ef(&[0], 5, 50, &hits).unwrap_err();
    assert_eq!(e.message(), "Query dimension mismatch: expected 2, got 1");
    // Answers come back in rank order and no more than asked for.
    let mixed = vec![(2usize, 7u32), (0, 9), (3, 8)];
    assert_eq!(
        b.search_with_ef(&[0, 0], 5, 50, &mixed).ok(),
        Some(vec![("b".to_string(), 8), ("a".to_string(), 7)])
    );
    assert_eq!(b.search(&[0, 0], 1, &mixed).ok(), Some(vec![("b".to_string(), 8)]));
    assert_eq!(b.search(&[0, 0], 0, &mixed).ok(), Some(vec![]));
    assert!(b.check_query(2).is_ok());
    assert!(b.check_query(3).is_err());

    assert!(b.remove("a").is_ok());
    match b.remove("a") {
        Err(e) => assert_eq!(e.message(), "ID not found: a"),
        Ok(_) => panic!("it is gone"),
    }
    assert_eq!(b.get_idx_to_id_map(), vec![(3, "b".to_string())]);
    assert_eq!(b.get_id_to_idx_map(), vec![("b".to_string(), 3)]);
    assert_eq!(b.id_at(3), Some(&"b".to_string()));
    assert_eq!(b.id_at(2), None);

    let live = vec![("b".to_string(), vec![1, 1]), ("c".to_string(), vec![2, 2])];
    assert_eq!(b.optimize(live).ok(), Some(0));
    assert_eq!(b.get_next_idx(), 2);
    assert_eq!(b.index_of("c"), Some(1));
    assert_eq!(b.optimize(vec![]).ok(), Some(2));
    assert_eq!(b.len(), 0);
    assert_eq!(b.rebuild_from_vectors(vec![("z".to_string(), vec![5, 5])]).ok(), Some(vec![0]));
    assert!(b.rebuild_from_vectors(vec![("q".to_string(), vec![5])]).is_err());
    assert_eq!(b.index_of("z"), Some(0));
    assert!(matches!(b.to_visualizer(), Err(BackendError::NoVisualizer)));
    assert_eq!(b.dimension(), 2);
    assert_eq!(b.distance(), Distance::Cosine);
    // Dimension 0 takes every length.
    let mut any = HnswBackend::new(0, Distance::DotProduct);
    assert!(any.insert("a".to_string(), &[]).is_ok());
    assert!(any.insert("b".to_string(), &[1, 2, 3]).is_ok());
    assert!(GraphParams::defaults().valid());
    assert_eq!(GraphParams::defaults().m, 16);
    assert_eq!(GraphParams::defaults().ef_construction, 200);
    assert_eq!(GraphParams::defaults().max_layer, 16);
    assert_eq!(GraphParams::defaults().max_elements, 100000);
}

#[test]
fn filter_algebra() {
    let d = r#"{"c":"x","n":3,"tags":["a","b"],"nested":{"deep":{"v":true}},"nil":null,"items":[{"p":1},{"p":5}]}"#;
    let field = |f: &str| f.to_string();
    assert!(holds(&FilterExpr::And(vec![]), d));
    assert!(!holds(&FilterExpr::Or(vec![]), d));
    let eq = FilterExpr::Eq(field("c"), text("x"));
    assert!(holds(&eq, d));
    let not_not = FilterExpr::Not(Box::new(FilterExpr::Not(Box::new(FilterExpr::Eq(field("c"), text("x"))))));
    assert_eq!(holds(&not_not, d), holds(&eq, d));
    assert!(!holds(&FilterExpr::Not(Box::new(FilterExpr::Eq(field("c"), text("x")))), d));
    // Equality is strict about types.
    assert!(!holds(&FilterExpr::Eq(field("n"), text("3")), d));
    assert!(holds(&FilterExpr::Eq(field("n"), num(3.0)), d));
    assert!(!holds(&FilterExpr::Eq(field("c"), JsonValue::Bool(true)), d));
    assert!(holds(&FilterExpr::Eq(field("nil"), JsonValue::Null), d));
    assert!(holds(&FilterExpr::Ne(field("c"), text("y")), d));
    assert!(!holds(&FilterExpr::Ne(field("c"), text("x")), d));
    // Numbers.
    assert!(holds(&FilterExpr::Lt(field("n"), 3.5f64.to_bits()), d));
    assert!(!holds(&FilterExpr::Lt(field("n"), 3.0f64.to_bits()), d));
    assert!(holds(&FilterExpr::Le(field("n"), 3.0f64.to_bits()), d));
    assert!(holds(&FilterExpr::Gt(field("n"), (-1.0f64).to_bits()), d));
    assert!(holds(&FilterExpr::Ge(field("n"), 3.0f64.to_bits()), d));
    assert!(!holds(&FilterExpr::Ge(field("n"), 3.1f64.to_bits()), d));
    assert!(!holds(&FilterExpr::Gt(field("c"), 0.0f64.to_bits()), d));
    assert!(!holds(&FilterExpr::Lt(field("n"), f64::NAN.to_bits()), d));
    // Arrays are looked through.
    assert!(holds(&FilterExpr::Eq(field("tags"), text("b")), d));
    assert!(!holds(&FilterExpr::Eq(field("tags"), text("c")), d));
    assert!(holds(&FilterExpr::Gt(field("items.p"), 4.0f64.to_bits()), d));
    assert!(!holds(&FilterExpr::Gt(field("items.p"), 5.0f64.to_bits()), d));
    assert!(holds(&FilterExpr::In(field("tags"), vec![text("z"), text("a")]), d));
    assert!(!holds(&FilterExpr::In(field("c"), vec![]), d));
    assert!(holds(&FilterExpr::Nin(field("c"), vec![text("y"), num(1.0)]), d));
    assert!(!holds(&FilterExpr::Nin(field("c"), vec![text("x")]), d));
    // Paths.
    assert!(holds(&FilterExpr::Eq(field("nested.deep.v"), JsonValue::Bool(true)), d));
    assert!(holds(&FilterExpr::Exists(field("nested.deep")), d));
    assert!(!holds(&FilterExpr::Exists(field("nested.shallow")), d));
    assert!(!holds(&FilterExpr::Exists(field("c.x")), d));
    // A field that is not there.
    assert!(!holds(&FilterExpr::Eq(field("none"), text("x")), d));
    assert!(!holds(&FilterExpr::Ne(field("none"), text("x")), d));
    assert!(!holds(&FilterExpr::Nin(field("none"), vec![]), d));
    assert!(!holds(&FilterExpr::Exists(field("none")), d));
    assert!(holds(&FilterExpr::MissingOrNull(field("none")), d));
    assert!(holds(&FilterExpr::MissingOrNull(field("nil")), d));
    assert!(!holds(&FilterExpr::MissingOrNull(field("c")), d));
    assert!(holds(&FilterExpr::Exists(field("nil")), d));
    // Connectives.
    let both = FilterExpr::And(vec![FilterExpr::Eq(field("c"), text("x")), FilterExpr::Exists(field("n"))]);
    assert!(holds(&both, d));
    let one = FilterExpr::Or(vec![FilterExpr::Eq(field("c"), text("q")), FilterExpr::Exists(field("n"))]);
    assert!(holds(&one, d));
    let neither = FilterExpr::Or(vec![FilterExpr::Eq(field("c"), text("q")), FilterExpr::Exists(field("m"))]);
    assert!(!holds(&neither, d));
    let half = FilterExpr::And(vec![FilterExpr::Eq(field("c"), text("x")), FilterExpr::Exists(field("m"))]);
    assert!(!holds(&half, d));
}

#[test]
fn filter_paths() {
    assert_eq!(compile_path("a.b.c"), Some(vec!["a".to_string(), "b".to_string(), "c".to_string()]));
    assert_eq!(compile_path("a"), Some(vec!["a".to_string()]));
    assert_eq!(compile_path(""), None);
    assert_eq!(compile_path("a..b"), None);
    assert_eq!(compile_path(".a"), None);
    assert_eq!(compile_path("a."), None);
    let bad = FilterExpr::And(vec![
        FilterExpr::Exists("ok".to_string()),
        FilterExpr::Not(Box::new(FilterExpr::Lt("a..b".to_string(), 0))),
    ]);
    assert!(matches!(compile(&bad), Err(FilterError::MalformedPath(p)) if p == "a..b"));
}

#[test]
fn json_values() {
    let d = doc(r#"{"b":[1,2.5,"s",null,true],"a":{"k":-0.0}}"#);
    match &d {
        JsonValue::Object(fields) => {
            assert_eq!(fields.len(), 2);
            assert_eq!(fields[0].0, "a");
            assert_eq!(fields[1].0, "b");
            match &fields[1].1 {
                JsonValue::Array(items) => {
                    assert!(matches!(&items[0], JsonValue::Number(b, t) if *b == 1.0f64.to_bits() && t == "1"));
                    assert!(matches!(&items[1], JsonValue::Number(b, t) if *b == 2.5f64.to_bits() && t == "2.5"));
                    assert!(matches!(&items[2], JsonValue::Text(t) if t == "s"));
                    assert!(matches!(&items[3], JsonValue::Null));
                    assert!(matches!(&items[4], JsonValue::Bool(true)));
                }
                _ => panic!("an array"),
            }
        }
        _ => panic!("an object"),
    }
    assert!(d.same(&d.copy()));
    assert!(!d.same(&doc(r#"{"a":{"k":0},"b":[1,2.5,"s",null,false]}"#)));
    assert!(d.same(&doc(r#"{"a":{"k":0},"b":[1,2.5,"s",null,true]}"#)));
    assert!(!num(1.0).same(&text("1")));
    assert!(!doc("[1]").same(&doc("[1,1]")));
    assert!(!doc(r#"{"a":1}"#).same(&doc(r#"{"b":1}"#)));
    assert!(parse_json(b"{").is_err());
    assert!(parse_json(b"1 2").is_err());
    assert!(number_eq(0.0f64.to_bits(), (-0.0f64).to_bits()));
    assert!(!number_eq(f64::NAN.to_bits(), f64::NAN.to_bits()));
    assert!(number_lt((-2.0f64).to_bits(), (-1.0f64).to_bits()));
    assert!(number_lt((-1.0f64).to_bits(), 0.5f64.to_bits()));
    assert!(number_lt(1.0e300f64.to_bits(), f64::INFINITY.to_bits()));
    assert!(!number_lt(2.0f64.to_bits(), 2.0f64.to_bits()));
    assert!(number_le(2.0f64.to_bits(), 2.0f64.to_bits()));
    assert!(!number_le(f64::NAN.to_bits(), 2.0f64.to_bits()));
    assert_eq!(key_of(0), 0);
    assert_eq!(key_of(1u64 << 63), 0);
    assert_eq!(key_of(5), 5);
    assert_eq!(key_of((1u64 << 63) | 5), -5);
}

#[test]
fn scores_rank() {
    assert_eq!(key_of_score(0.0f32.to_bits()), 0);
    assert_eq!(key_of_score((-0.0f32).to_bits()), 0);
    assert!(key_of_score(1.0f32.to_bits()) > key_of_score(0.5f32.to_bits()));
    assert!(key_of_score((-1.0f32).to_bits()) < key_of_score((-0.5f32).to_bits()));
    assert!(stands_before((3, 1.0f32.to_bits()), (1, 0.5f32.to_bits())));
    assert!(stands_before((1, 0.5f32.to_bits()), (3, 0.5f32.to_bits())));
    assert!(!stands_before((3, 0.5f32.to_bits()), (1, 0.5f32.to_bits())));
    let hits = vec![
        (4usize, 0.25f32.to_bits()),
        (2, 0.75f32.to_bits()),
        (9, (-0.5f32).to_bits()),
        (1, 0.75f32.to_bits()),
        (4, 0.25f32.to_bits()),
    ];
    let order: Vec<usize> = rank(&hits).iter().map(|h| h.0).collect();
    assert_eq!(order, vec![1, 2, 4, 4, 9]);
    assert_eq!(rank(&vec![]), vec![]);
    assert_eq!(fetch_size(5, false), 5);
    assert_eq!(fetch_size(5, true), 200);
    assert_eq!(fetch_size(60, true), 240);
    assert_eq!(double_fetch(200), 400);
    assert_eq!(double_fetch(5000), 10000);
    assert_eq!(double_fetch(5001), 10000);
    assert_eq!(double_fetch(20000), 10000);
    assert_eq!(candidate_list(7), 200);
    assert_eq!(candidate_list(700), 700);
}

#[test]
fn codec_round_trips() {
    let frames = vec![b"abc".to_vec(), vec![], vec![0u8; 300]];
    let bytes = encode_frames(&frames);
    assert_eq!(bytes.len(), 8 * 3 + 303);
    assert_eq!(&bytes[..11], &[3, 0, 0, 0, 0, 0, 0, 0, b'a', b'b', b'c']);
    assert_eq!(decode_frames(&bytes), Some(frames));
    assert_eq!(decode_frames(&[]), Some(vec![]));
    assert_eq!(decode_frames(&bytes[..bytes.len() - 1]), None);
    assert_eq!(decode_frames(&[1, 0, 0]), None);
    assert_eq!(decode_frames(&[9, 0, 0, 0, 0, 0, 0, 0, 1]), None);

    let rows = vec![vec![1u32, 0x0102_0304], vec![u32::MAX, 0]];
    let packed = encode_rows(&rows);
    assert_eq!(packed, vec![1, 0, 0, 0, 4, 3, 2, 1, 255, 255, 255, 255, 0, 0, 0, 0]);
    assert_eq!(decode_rows(&packed, 2, 2), Some(rows));
    assert_eq!(decode_rows(&packed, 2, 1), None);
    assert_eq!(decode_rows(&packed, 3, 2), None);
    assert_eq!(decode_rows(&packed, 4, 1), Some(vec![vec![1, 0x0102_0304, u32::MAX, 0]]));
    assert_eq!(decode_rows(&[], 5, 0), Some(vec![]));
    assert_eq!(decode_rows(&[], 0, 3), Some(vec![vec![], vec![], vec![]]));

    assert_eq!(encode_slot(None), vec![0]);
    let id = "h\u{e9}".to_string();
    assert_eq!(encode_slot(Some(&id)), vec![1, b'h', 0xc3, 0xa9]);
    assert_eq!(decode_slot(&encode_slot(Some(&id))), Some(Some(id)));
    assert_eq!(decode_slot(&[0]), Some(None));
    assert_eq!(decode_slot(&[1]), Some(Some(String::new())));
    assert_eq!(decode_slot(&[]), None);
    assert_eq!(decode_slot(&[0, 1]), None);
    assert_eq!(decode_slot(&[2, b'a']), None);
    assert_eq!(decode_slot(&[1, 0xff]), None);

    // 64-bit FNV-1a.
    assert_eq!(content_hash(b""), 0xcbf2_9ce4_8422_2325);
    assert_eq!(content_hash(b"a"), 0xaf63_dc4c_8601_ec8c);
    assert_eq!(content_hash(b"foobar"), 0x8594_4171_f739_67e8);
}

#[test]
fn checksums_and_backup() {
    let sums = checksums(b"m", b"i", b"v", b"d", b"g");
    assert_eq!(sums.manifest, content_hash(b"m"));
    assert_eq!(sums.graph, content_hash(b"g"));
    assert_eq!(verify(b"m", b"i", b"v", b"d", Some(b"g"), &sums), Ok(GraphUse::Load));
    assert_eq!(verify(b"m", b"i", b"v", b"d", None, &sums), Ok(GraphUse::Rebuild));
    assert_eq!(verify(b"m", b"i", b"v", b"d", Some(b"G"), &sums), Ok(GraphUse::Rebuild));
    assert_eq!(verify(b"M", b"i", b"v", b"d", Some(b"g"), &sums), Err(LoadError::ChecksumMismatch));
    assert_eq!(verify(b"m", b"I", b"v", b"d", Some(b"g"), &sums), Err(LoadError::ChecksumMismatch));
    assert_eq!(verify(b"m", b"i", b"V", b"d", Some(b"g"), &sums), Err(LoadError::ChecksumMismatch));
    assert_eq!(verify(b"m", b"i", b"v", b"D", None, &sums), Err(LoadError::ChecksumMismatch));
    let file = encode_checksums(&sums);
    assert_eq!(file.len(), 40);
    assert_eq!(decode_checksums(&file), Some(sums));
    assert_eq!(decode_checksums(&file[..39]), None);
    let one = Checksums { manifest: 1, identifiers: 2, vectors: 3, metadata: 4, graph: 5 };
    assert_eq!(encode_checksums(&one)[..9], [1, 0, 0, 0, 0, 0, 0, 0, 2]);

    let mut c = Collection::new(2, Distance::Cosine, GraphParams::defaults()).unwrap();
    c.upsert("a".to_string(), vec![1, 2], br#"{"k":1}"#.to_vec()).unwrap();
    c.upsert("b".to_string(), vec![3, 4], b"{}".to_vec()).unwrap();
    c.delete("a").unwrap();
    let files = c.save();
    let backup = Backup {
        origin: "alpha".to_string(),
        timestamp: 1_700_000_000,
        format_version: 1,
        manifest: b"{\"format_version\":1}".to_vec(),
        identifiers: files.identifiers.clone(),
        vectors: files.vectors.clone(),
        metadata: files.metadata.clone(),
        graph: vec![7, 7],
        checksum: encode_checksums(&checksums(
            b"{\"format_version\":1}",
            &files.identifiers,
            &files.vectors,
            &files.metadata,
            &[7, 7],
        )),
    };
    let archive = encode_backup(&backup);
    let back = decode_backup(&archive).unwrap();
    assert_eq!(back.origin, "alpha");
    assert_eq!(back.timestamp, 1_700_000_000);
    assert_eq!(back.format_version, 1);
    assert_eq!(back.manifest, backup.manifest);
    assert_eq!(back.graph, vec![7, 7]);
    let sums = decode_checksums(&back.checksum).unwrap();
    assert_eq!(
        verify(&back.manifest, &back.identifiers, &back.vectors, &back.metadata, Some(&back.graph), &sums),
        Ok(GraphUse::Load)
    );
    let restored = Collection::open(
        &vecstore::persist::Files {
            manifest: files.manifest,
            identifiers: back.identifiers,
            vectors: back.vectors,
            metadata: back.metadata,
        },
        None,
        None,
    )
    .unwrap();
    assert_eq!(restored.vectors(), c.vectors());
    assert_eq!(restored.stats(), c.stats());
    assert!(restored.get("a").is_none());
    assert!(matches!(decode_backup(&archive[..archive.len() - 1]), Err(LoadError::TruncatedArchive)));
    assert!(matches!(decode_backup(&encode_frames(&vec![vec![]; 8])), Err(LoadError::TruncatedArchive)));
    assert!(matches!(decode_backup(&[]), Err(LoadError::TruncatedArchive)));
}

#[test]
fn text_helpers() {
    let lines = |s: &str| -> Vec<String> {
        split_lines(&chars_of(s)).iter().map(string_of).collect()
    };
    for s in ["", "\n", "a", "a\n", "a\nb", "a\r\nb\r\n", "a\r", "\r\n\r\n", "a\n\nb\n\n", "x\ry\n\r"] {
        let want: Vec<String> = s.lines().map(|l| l.to_string()).collect();
        assert_eq!(lines(s), want, "lines of {:?}", s);
    }
    let words = |s: &str| -> Vec<String> {
        split_words(&chars_of(s)).iter().map(string_of).collect()
    };
    for s in ["", "  ", "a", " a  b\tc\n", "\u{a0}x\u{2003}y"] {
        let want: Vec<String> = s.split_whitespace().map(|l| l.to_string()).collect();
        assert_eq!(words(s), want, "words of {:?}", s);
    }
    for s in ["", "  ", " a b ", "\t\nx", "x\r\n"] {
        assert_eq!(string_of(&trim_chars(&chars_of(s))), s.trim());
    }
    let split = |s: &str| -> Vec<String> {
        split_chars(&chars_of(s), ',').iter().map(string_of).collect()
    };
    for s in ["", ",", "a,b", ",a,,b,"] {
        let want: Vec<String> = s.split(',').map(|l| l.to_string()).collect();
        assert_eq!(split(s), want);
    }
    let parts = vec![chars_of("a"), chars_of(""), chars_of("bc")];
    assert_eq!(string_of(&join_chars(&parts, &chars_of(", "))), "a, , bc");
    assert_eq!(string_of(&join_chars(&vec![], &chars_of(", "))), "");
    assert_eq!(string_of(&pad_left_chars(&chars_of("7"), 4)), "   7");
    assert_eq!(string_of(&pad_left_chars(&chars_of("12345"), 4)), "12345");
    assert_eq!(file_name(&chars_of("/a/b/c.txt")).map(|n| string_of(&n)), Some("c.txt".to_string()));
    assert_eq!(extension(&chars_of("/a/b/c.tar.gz")).map(|e| string_of(&e)), Some("gz".to_string()));
    assert_eq!(extension(&chars_of("/a.b/c")), None);
    assert_eq!(extension(&chars_of("c.")).map(|e| string_of(&e)), Some(String::new()));
}

#[test]
fn paths_are_read_as_std_reads_them() {
    let paths = [
        "", "/", "//", ".", "..", "./", "../", "a", "a/", "a//", "a/.", "a/./", "a/..", "a/b.rs/",
        "a/b.rs//", "a/b.rs/.", "a/b.rs/./", "/a/b/c.txt", "c.tar.gz", ".bashrc", ".bashrc.bak",
        "a/.hidden", "c.", "...", "..foo", "a.b/c", "a.b/c/", "./a.rs", "a\\b.rs", "x/.../y..",
        " ", "a/ .txt", "/.", "/..", "a/b/../c.d", ".a.", "é/ü.ö",
    ];
    for path in paths {
        let std_path = std::path::Path::new(path);
        let chars = chars_of(path);
        assert_eq!(
            file_name(&chars).map(|n| string_of(&n)),
            std_path.file_name().map(|n| n.to_string_lossy().to_string()),
            "file name of {:?}",
            path
        );
        assert_eq!(
            extension(&chars).map(|e| string_of(&e)),
            std_path.extension().map(|e| e.to_string_lossy().to_string()),
            "extension of {:?}",
            path
        );
    }
    assert_eq!(extension(&chars_of("a/b.rs/")).map(|e| string_of(&e)), Some("rs".to_string()));
    assert_eq!(file_name(&chars_of("a/..")), None);
}

#[test]
fn restored_backend_answers_as_its_source() {
    let mut source = HnswBackend::new(2, Distance::Cosine);
    for id in ["a", "b", "c", "d"] {
        source.insert(id.to_string(), &[1, 2]).unwrap();
    }
    source.remove("b").unwrap();
    source.insert("a".to_string(), &[3, 4]).unwrap();
    let slots: Vec<Option<String>> = (0..source.get_next_idx()).map(|i| source.id_at(i).cloned()).collect();
    let restored = HnswBackend::restore(source.dimension(), source.distance(), slots).unwrap();
    assert_eq!(restored.len(), source.len());
    assert_eq!(restored.get_next_idx(), source.get_next_idx());
    assert_eq!(restored.get_id_to_idx_map(), source.get_id_to_idx_map());
    // The same answer of the graph, handed over in two orders.
    let hits = vec![(4usize, 5u32), (0, 9), (2, 7), (1, 8), (3, 7)];
    let mut turned = hits.clone();
    turned.reverse();
    for k in 0..6 {
        let from_source = source.search(&[0, 0], k, &hits).unwrap();
        assert_eq!(restored.search(&[0, 0], k, &hits).unwrap(), from_source);
        assert_eq!(restored.search_with_ef(&[0, 0], k, 50, &turned).unwrap(), from_source);
    }
    assert_eq!(
        restored.search(&[0, 0], 5, &hits).unwrap(),
        vec![("c".to_string(), 7), ("d".to_string(), 7), ("a".to_string(), 5)]
    );
}
