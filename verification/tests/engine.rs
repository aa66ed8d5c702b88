use hnsw_rs::prelude::{DistCosine, DistL2, Hnsw};
use vecstore::backend::{Distance, GraphParams};
use vecstore::backup::GraphUse;
use vecstore::collection::{
    Collection, EngineError, Neighbor, Query, Record, Step, FETCH_CEILING,
};
use vecstore::disk::store;
use vecstore::filter::FilterExpr;
use vecstore::namespace::{NamespaceError, NamespaceManager};
use vecstore::persist::{Files, LoadError};
use vecstore::value::JsonValue;

fn bits(v: &[f32]) -> Vec<u32> {
    v.iter().map(|x| x.to_bits()).collect()
}

fn floats(v: &[u32]) -> Vec<f32> {
    v.iter().map(|x| f32::from_bits(*x)).collect()
}

fn text(s: &str) -> JsonValue {
    JsonValue::Text(s.to_string())
}

/// The graph of a collection, built anew from its live vectors.
fn cosine_graph(c: &Collection) -> Hnsw<'static, f32, DistCosine> {
    let p = c.params();
    let graph = Hnsw::<f32, DistCosine>::new(p.m, p.max_elements, p.max_layer, p.ef_construction, DistCosine);
    for (index, _, vector) in c.vectors() {
        graph.insert((&floats(&vector), index));
    }
    graph
}

/// Answers a query the way the engine asks for it: fetch, hand back, repeat.
fn run_query(c: &Collection, graph: &Hnsw<'static, f32, DistCosine>, q: &Query) -> Vec<Neighbor> {
    let mut step = c.begin_query(q).unwrap();
    let mut fetches = 0;
    loop {
        match step {
            Step::Done(found) => return found,
            Step::Fetch { count, ef_search } => {
                fetches += 1;
                assert!(fetches < 64);
                let hits: Vec<(usize, u32)> = graph
                    .search(&floats(&q.vector), count, ef_search)
                    .iter()
                    .map(|n| (n.d_id, (1.0 - n.distance).to_bits()))
                    .collect();
                step = c.continue_query(q, count, &hits).unwrap();
            }
        }
    }
}

fn ids(found: &[Neighbor]) -> Vec<String> {
    found.iter().map(|n| n.id.clone()).collect()
}

fn three_records() -> Collection {
    let mut c = Collection::new(3, Distance::Cosine, GraphParams::defaults()).unwrap();
    assert_eq!(c.upsert("a".to_string(), bits(&[1.0, 0.0, 0.0]), br#"{"c":"x"}"#.to_vec()), Ok(0));
    assert_eq!(c.upsert("b".to_string(), bits(&[0.0, 1.0, 0.0]), br#"{"c":"y"}"#.to_vec()), Ok(1));
    assert_eq!(c.upsert("c".to_string(), bits(&[1.0, 1.0, 0.0]), br#"{"c":"x"}"#.to_vec()), Ok(2));
    c
}

#[test]
fn query_returns_nearest_first() {
    let c = three_records();
    let graph = cosine_graph(&c);
    let q = Query { vector: bits(&[1.0, 0.0, 0.0]), k: 2, filter: None };
    let found = run_query(&c, &graph, &q);
    assert_eq!(ids(&found), vec!["a", "c"]);
    assert!(f32::from_bits(found[0].score) >= f32::from_bits(found[1].score));
    assert_eq!(found[0].vector, Some(bits(&[1.0, 0.0, 0.0])));
    assert_eq!(found[0].index, 0);
    assert!(found[0].metadata.is_some());
}

#[test]
fn query_with_filter() {
    let c = three_records();
    let graph = cosine_graph(&c);
    let q = Query {
        vector: bits(&[1.0, 0.0, 0.0]),
        k: 2,
        filter: Some(FilterExpr::Eq("c".to_string(), text("y"))),
    };
    let found = run_query(&c, &graph, &q);
    assert_eq!(ids(&found), vec!["b"]);
}

#[test]
fn delete_then_query() {
    let mut c = three_records();
    let graph = cosine_graph(&c);
    assert_eq!(c.delete("a"), Ok(0));
    let q = Query { vector: bits(&[1.0, 0.0, 0.0]), k: 3, filter: None };
    // The graph still holds the point of "a"; the engine skips it.
    let found = run_query(&c, &graph, &q);
    assert_eq!(ids(&found), vec!["c", "b"]);
    assert_eq!(found.len(), 2);
    assert_eq!(c.len(), 2);
}

#[test]
fn save_and_reopen() {
    let mut c = three_records();
    c.delete("a").unwrap();
    let q = Query { vector: bits(&[1.0, 0.0, 0.0]), k: 3, filter: None };
    let before = ids(&run_query(&c, &cosine_graph(&c), &q));

    let files: Files = c.save();
    assert_eq!(files.manifest.format_version, 1);
    assert_eq!(files.manifest.generation, 1);
    let reopened = Collection::open(&files, Some(3), Some(Distance::Cosine)).unwrap();
    let stats = reopened.stats();
    assert_eq!(stats.count, 2);
    assert_eq!(stats.tombstones, 1);
    assert_eq!(stats.dimension, 3);
    assert_eq!(stats.metric, Distance::Cosine);
    assert_eq!(stats.generation, 1);
    let after = ids(&run_query(&reopened, &cosine_graph(&reopened), &q));
    assert_eq!(before, after);
    assert_eq!(after, vec!["c", "b"]);
    assert_eq!(reopened.vectors(), c.vectors());
}

#[test]
fn wrong_dimension_is_refused() {
    let mut c = three_records();
    let before = c.len();
    let r = c.upsert("z".to_string(), bits(&[1.0, 0.0, 0.0, 0.0]), b"{}".to_vec());
    assert_eq!(r, Err(EngineError::DimensionMismatch { expected: 3, got: 4 }));
    assert_eq!(c.len(), before);
    assert!(c.get("z").is_none());
}

#[test]
fn namespaces_are_isolated() {
    let mut m = NamespaceManager::new("R".to_string());
    assert_eq!(m.create("alpha", 2, Distance::Cosine, GraphParams::defaults()), Ok(()));
    assert_eq!(m.create("beta", 4, Distance::Euclidean, GraphParams::defaults()), Ok(()));
    assert_eq!(m.path_of("alpha"), "R/alpha");
    assert_eq!(m.upsert("alpha", "a1".to_string(), bits(&[1.0, 0.0]), b"{}".to_vec()), Ok(0));
    assert_eq!(m.upsert("alpha", "a2".to_string(), bits(&[0.0, 1.0]), b"{}".to_vec()), Ok(1));

    let beta = m.open("beta").unwrap();
    assert_eq!(beta.len(), 0);
    assert_eq!(beta.dimension(), 4);
    assert_eq!(beta.metric(), Distance::Euclidean);
    let q = Query { vector: bits(&[1.0, 0.0, 0.0, 0.0]), k: 5, filter: None };
    match beta.begin_query(&q).unwrap() {
        Step::Done(found) => assert!(found.is_empty()),
        Step::Fetch { .. } => panic!("an empty collection asks the graph for nothing"),
    }
    assert_eq!(m.stats("alpha").unwrap().count, 2);

    let dropped = m.drop("alpha").unwrap();
    assert_eq!(dropped.len(), 2);
    assert!(!m.contains("alpha"));
    assert!(m.contains("beta"));
    assert_eq!(m.list(), vec!["beta"]);
    assert_eq!(m.stats("beta").unwrap().dimension, 4);
    assert!(matches!(m.drop("alpha"), Err(NamespaceError::NotFound)));
}

#[test]
fn namespace_names() {
    let mut m = NamespaceManager::new("/root".to_string());
    let p = GraphParams::defaults();
    assert_eq!(m.create("", 2, Distance::Cosine, p), Err(NamespaceError::InvalidName));
    assert_eq!(m.create("a/b", 2, Distance::Cosine, p), Err(NamespaceError::InvalidName));
    assert_eq!(m.create("..", 2, Distance::Cosine, p), Err(NamespaceError::InvalidName));
    assert_eq!(m.create(".", 2, Distance::Cosine, p), Err(NamespaceError::InvalidName));
    assert_eq!(m.create("na me", 2, Distance::Cosine, p), Err(NamespaceError::InvalidName));
    assert_eq!(m.create(&"x".repeat(129), 2, Distance::Cosine, p), Err(NamespaceError::InvalidName));
    assert_eq!(m.create(&"x".repeat(128), 2, Distance::Cosine, p), Ok(()));
    assert_eq!(m.create("A-z_0.9", 2, Distance::Cosine, p), Ok(()));
    assert_eq!(m.create("A-z_0.9", 2, Distance::Cosine, p), Err(NamespaceError::AlreadyExists));
    let zero = GraphParams { m: 0, ..p };
    assert_eq!(
        m.create("zero", 2, Distance::Cosine, zero),
        Err(NamespaceError::Engine(EngineError::InvalidParams))
    );
    assert_eq!(m.len(), 2);
    assert_eq!(
        m.upsert("nobody", "a".to_string(), bits(&[1.0, 0.0]), b"{}".to_vec()),
        Err(NamespaceError::NotFound)
    );
    assert_eq!(
        m.delete("A-z_0.9", "ghost"),
        Err(NamespaceError::Engine(EngineError::NotFound))
    );
    assert_eq!(m.optimize("A-z_0.9"), Ok(0));
    assert!(vecstore::namespace::valid_name("ok"));
    assert!(!vecstore::namespace::valid_name("not ok"));
}

#[test]
fn namespace_load_opens_files() {
    let mut c = three_records();
    let files = store(c.save(), b"graph".to_vec());
    let mut m = NamespaceManager::new("R".to_string());
    assert_eq!(m.load("kept", &files), Ok(GraphUse::Load));
    assert_eq!(m.stats("kept").unwrap().count, 3);
    assert_eq!(m.load("kept", &files), Err(NamespaceError::AlreadyExists));
    assert_eq!(m.load("no name", &files), Err(NamespaceError::InvalidName));
    let mut broken = c.save();
    broken.identifiers.pop();
    assert_eq!(
        m.load("broken", &store(broken, b"graph".to_vec())),
        Err(NamespaceError::Load(LoadError::CorruptIdentifiers))
    );
    let mut changed = store(c.save(), b"graph".to_vec());
    changed.vectors[0] ^= 1;
    assert_eq!(
        m.load("changed", &changed),
        Err(NamespaceError::Load(LoadError::ChecksumMismatch))
    );
    let mut bare = store(c.save(), b"graph".to_vec());
    bare.graph = None;
    assert_eq!(m.load("bare", &bare), Ok(GraphUse::Rebuild));
    assert_eq!(m.list(), vec!["kept".to_string(), "bare".to_string()]);
}

#[test]
fn upsert_same_identifier_twice() {
    let mut c = three_records();
    assert_eq!(c.upsert("a".to_string(), bits(&[0.0, 0.0, 1.0]), br#"{"c":"z"}"#.to_vec()), Ok(3));
    assert_eq!(c.len(), 3);
    assert_eq!(c.stats().tombstones, 1);
    let (index, vector, _) = c.get("a").unwrap();
    assert_eq!(index, 3);
    assert_eq!(vector, &bits(&[0.0, 0.0, 1.0]));
    let q = Query { vector: bits(&[1.0, 0.0, 0.0]), k: 3, filter: None };
    // The stale point of "a" at index 0 is still in the graph and scores best.
    let stale = vec![(0usize, 1.0f32.to_bits()), (2, 0.7f32.to_bits()), (3, 0.0f32.to_bits())];
    let found = c.select(&q, &stale).unwrap();
    assert_eq!(ids(&found), vec!["c", "a"]);
}

#[test]
fn record_validation() {
    let mut c = Collection::new(0, Distance::DotProduct, GraphParams::defaults()).unwrap();
    let v = bits(&[1.0, 2.0]);
    assert_eq!(c.upsert("".to_string(), v.clone(), b"{}".to_vec()), Err(EngineError::EmptyId));
    assert_eq!(
        c.upsert("i".repeat(1025), v.clone(), b"{}".to_vec()),
        Err(EngineError::IdTooLong { len: 1025 })
    );
    assert_eq!(
        c.upsert("a".to_string(), vec![], b"{}".to_vec()),
        Err(EngineError::DimensionMismatch { expected: 0, got: 0 })
    );
    assert_eq!(c.upsert("a".to_string(), v.clone(), b"[1]".to_vec()), Err(EngineError::BadMetadata));
    assert_eq!(c.upsert("a".to_string(), v.clone(), b"{".to_vec()), Err(EngineError::BadMetadata));
    assert_eq!(c.dimension(), 0);
    assert_eq!(c.upsert("i".repeat(1024), v.clone(), b"{}".to_vec()), Ok(0));
    assert_eq!(c.dimension(), 2);
    assert_eq!(
        c.upsert("b".to_string(), bits(&[1.0]), b"{}".to_vec()),
        Err(EngineError::DimensionMismatch { expected: 2, got: 1 })
    );
    assert_eq!(c.delete("missing"), Err(EngineError::NotFound));
    assert!(c.check("ok", 2, b"{\"a\":1}").is_ok());
    assert_eq!(c.check("ok", 3, b"{}").err(), Some(EngineError::DimensionMismatch { expected: 2, got: 3 }));
    let zero = GraphParams { ef_construction: 0, ..GraphParams::defaults() };
    assert!(matches!(Collection::new(2, Distance::Cosine, zero), Err(EngineError::InvalidParams)));
}

#[test]
fn batch_upsert_is_all_or_nothing() {
    let mut c = three_records();
    let good = |id: &str| Record { id: id.to_string(), vector: bits(&[0.5, 0.5, 0.0]), metadata: b"{}".to_vec() };
    let bad = Record { id: "bad".to_string(), vector: bits(&[0.5]), metadata: b"{}".to_vec() };
    let r = c.batch_upsert(vec![good("d"), bad, good("e")]);
    assert_eq!(r, Err(EngineError::DimensionMismatch { expected: 3, got: 1 }));
    assert_eq!(c.len(), 3);
    assert!(c.get("d").is_none());
    let r = c.batch_upsert(vec![good("d"), good("a"), good("d")]);
    assert_eq!(r, Ok(vec![3, 4, 5]));
    assert_eq!(c.len(), 4);
    assert_eq!(c.get("d").unwrap().0, 5);
    assert_eq!(c.get("a").unwrap().0, 4);
    assert_eq!(c.batch_upsert(vec![]), Ok(vec![]));
    // A batch fixes the dimension with its first record.
    let mut fresh = Collection::new(0, Distance::Cosine, GraphParams::defaults()).unwrap();
    let two = Record { id: "p".to_string(), vector: bits(&[1.0, 0.0]), metadata: b"{}".to_vec() };
    let three = Record { id: "q".to_string(), vector: bits(&[1.0, 0.0, 0.0]), metadata: b"{}".to_vec() };
    assert_eq!(
        fresh.batch_upsert(vec![two, three]),
        Err(EngineError::DimensionMismatch { expected: 2, got: 3 })
    );
    assert_eq!(fresh.dimension(), 0);
}

#[test]
fn query_steps() {
    let c = three_records();
    let none = Query { vector: bits(&[1.0, 0.0, 0.0]), k: 0, filter: None };
    assert!(matches!(c.begin_query(&none), Ok(Step::Done(v)) if v.is_empty()));
    let plain = Query { vector: bits(&[1.0, 0.0, 0.0]), k: 7, filter: None };
    assert!(matches!(c.begin_query(&plain), Ok(Step::Fetch { count: 7, ef_search: 200 })));
    let filtered = |k: usize| Query {
        vector: bits(&[1.0, 0.0, 0.0]),
        k,
        filter: Some(FilterExpr::Exists("c".to_string())),
    };
    assert!(matches!(c.begin_query(&filtered(7)), Ok(Step::Fetch { count: 200, ef_search: 200 })));
    assert!(matches!(c.begin_query(&filtered(50)), Ok(Step::Fetch { count: 200, ef_search: 200 })));
    assert!(matches!(c.begin_query(&filtered(51)), Ok(Step::Fetch { count: 204, ef_search: 204 })));
    assert!(matches!(
        c.begin_query(&filtered(usize::MAX)),
        Ok(Step::Fetch { count: usize::MAX, ef_search: usize::MAX })
    ));
    let wrong = Query { vector: bits(&[1.0, 0.0]), k: 1, filter: None };
    assert_eq!(
        c.begin_query(&wrong).err(),
        Some(EngineError::DimensionMismatch { expected: 3, got: 2 })
    );
    let malformed = Query {
        vector: bits(&[1.0, 0.0, 0.0]),
        k: 1,
        filter: Some(FilterExpr::Exists("a..b".to_string())),
    };
    assert_eq!(c.begin_query(&malformed).err(), Some(EngineError::MalformedFilter));
    assert_eq!(c.select(&malformed, &vec![]).err(), Some(EngineError::MalformedFilter));

    // Too few survivors of a filter: the fetch doubles, up to the ceiling.
    let picky = Query {
        vector: bits(&[1.0, 0.0, 0.0]),
        k: 2,
        filter: Some(FilterExpr::Eq("c".to_string(), text("y"))),
    };
    let hits = vec![(0usize, 1.0f32.to_bits()), (1, 0.0f32.to_bits()), (2, 0.7f32.to_bits())];
    assert!(matches!(
        c.continue_query(&picky, 200, &hits),
        Ok(Step::Fetch { count: 400, ef_search: 400 })
    ));
    assert!(matches!(
        c.continue_query(&picky, 6400, &hits),
        Ok(Step::Fetch { count: FETCH_CEILING, ef_search: FETCH_CEILING })
    ));
    match c.continue_query(&picky, FETCH_CEILING, &hits).unwrap() {
        Step::Done(found) => assert_eq!(ids(&found), vec!["b"]),
        Step::Fetch { .. } => panic!("the ceiling ends the query"),
    }
    // Candidates come back ranked: best score first, ties by smaller index.
    let level = vec![(2usize, 0.5f32.to_bits()), (1, 0.5f32.to_bits()), (0, (-0.5f32).to_bits()), (9, 2.0f32.to_bits())];
    match c.continue_query(&Query { vector: bits(&[1.0, 0.0, 0.0]), k: 3, filter: None }, 3, &level).unwrap() {
        Step::Done(found) => assert_eq!(ids(&found), vec!["b", "c", "a"]),
        Step::Fetch { .. } => panic!("without a filter one fetch is all"),
    }
}

#[test]
fn optimize_compacts_and_is_idempotent() {
    let mut c = three_records();
    c.delete("b").unwrap();
    c.upsert("a".to_string(), bits(&[0.0, 0.0, 1.0]), br#"{"n":1}"#.to_vec()).unwrap();
    assert_eq!(c.stats().tombstones, 2);
    let live_before: Vec<(String, Vec<u32>)> =
        c.vectors().into_iter().map(|(_, id, v)| (id, v)).collect();
    assert_eq!(c.optimize(), 2);
    assert_eq!(c.stats().tombstones, 0);
    assert_eq!(c.len(), 2);
    let once = c.vectors();
    let live_after: Vec<(String, Vec<u32>)> =
        once.iter().cloned().map(|(_, id, v)| (id, v)).collect();
    assert_eq!(live_before, live_after);
    assert_eq!(once.iter().map(|r| r.0).collect::<Vec<_>>(), vec![0, 1]);
    assert_eq!(c.optimize(), 0);
    assert_eq!(c.vectors(), once);
    assert_eq!(c.get("a").unwrap().0, 1);
    assert_eq!(c.upsert("n".to_string(), bits(&[1.0, 1.0, 1.0]), b"{}".to_vec()), Ok(2));
}

#[test]
fn open_checks_what_it_reads() {
    let mut c = three_records();
    let files = c.save();
    assert!(matches!(
        Collection::open(&files, Some(4), None),
        Err(LoadError::DimensionMismatch { expected: 4, found: 3 })
    ));
    assert!(matches!(
        Collection::open(&files, None, Some(Distance::Euclidean)),
        Err(LoadError::MetricMismatch)
    ));
    let alter = |f: &dyn Fn(&mut Files)| {
        let mut copy = three_records().save();
        f(&mut copy);
        Collection::open(&copy, None, None).err()
    };
    assert_eq!(alter(&|f| f.manifest.format_version = 2), Some(LoadError::UnsupportedVersion { version: 2 }));
    assert_eq!(alter(&|f| f.manifest.graph_params.m = 0), Some(LoadError::InvalidParams));
    assert_eq!(alter(&|f| f.vectors.truncate(35)), Some(LoadError::CorruptVectors));
    assert_eq!(alter(&|f| f.vectors.push(0)), Some(LoadError::CorruptVectors));
    assert_eq!(alter(&|f| f.manifest.dimension = 2), Some(LoadError::CorruptVectors));
    assert_eq!(alter(&|f| f.metadata.truncate(3)), Some(LoadError::CorruptMetadata));
    assert_eq!(alter(&|f| f.metadata.clear()), Some(LoadError::CorruptMetadata));
    assert_eq!(alter(&|f| f.identifiers.truncate(12)), Some(LoadError::CorruptIdentifiers));
    assert_eq!(
        alter(&|f| {
            // The identifier of the second slot becomes that of the first.
            let n = f.identifiers.len();
            f.identifiers[n / 3 * 2 - 1] = b'a';
        }),
        Some(LoadError::DuplicateIdentifier)
    );
    assert_eq!(
        alter(&|f| {
            let at = f.metadata.len() - 2;
            f.metadata[at] = b'!';
        }),
        Some(LoadError::CorruptMetadata)
    );
    let empty = Collection::new(0, Distance::Cosine, GraphParams::defaults()).unwrap().export();
    let back = Collection::open(&empty, None, None).unwrap();
    assert_eq!(back.len(), 0);
    assert_eq!(back.dimension(), 0);
    assert_eq!(back.generation(), 0);
}

#[test]
fn euclidean_graph_orders_by_inverse_distance() {
    let mut c = Collection::new(2, Distance::Euclidean, GraphParams::defaults()).unwrap();
    c.upsert("near".to_string(), bits(&[1.0, 1.0]), b"{}".to_vec()).unwrap();
    c.upsert("far".to_string(), bits(&[9.0, 9.0]), b"{}".to_vec()).unwrap();
    let p = c.params();
    let graph = Hnsw::<f32, DistL2>::new(p.m, p.max_elements, p.max_layer, p.ef_construction, DistL2);
    for (index, _, vector) in c.vectors() {
        graph.insert((&floats(&vector), index));
    }
    assert_eq!(
        Distance::Euclidean.score_rule(),
        vecstore::backend::ScoreRule::InverseOnePlusDistance
    );
    assert_eq!(Distance::Cosine.score_rule(), vecstore::backend::ScoreRule::OneMinusDistance);
    let q = Query { vector: bits(&[0.0, 0.0]), k: 2, filter: None };
    let hits: Vec<(usize, u32)> = graph
        .search(&[0.0, 0.0], 2, 200)
        .iter()
        .map(|n| (n.d_id, (1.0 / (1.0 + n.distance)).to_bits()))
        .collect();
    let found = c.select(&q, &vecstore::score::rank(&hits)).unwrap();
    assert_eq!(ids(&found), vec!["near", "far"]);
}
