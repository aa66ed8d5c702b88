use vecstore::cli::{
    delete_target, parse_filter, parse_ids, Cli, Commands, DeleteTarget, ExportFormat,
    ImportFormat, OutputFormat,
};
use vecstore::filter::{compile, FilterExpr};
use vecstore::value::{parse_json, JsonValue};
use vecstore::eval::{
    build_faithfulness_prompt, build_relevance_prompt, judge_relevance, score_word,
    AnswerFaithfulness, ContextRelevance, EvaluationInput, FaithfulnessPlan, LLM,
};

#[test]
fn test_parse_ids() {
    let ids = parse_ids("doc1,doc2,doc3");
    assert_eq!(ids, vec!["doc1", "doc2", "doc3"]);

    let ids = parse_ids("doc1, doc2 , doc3 ");
    assert_eq!(ids, vec!["doc1", "doc2", "doc3"]);
}

#[test]
fn parse_ids_edges() {
    assert_eq!(parse_ids(""), vec![""]);
    assert_eq!(parse_ids(","), vec!["", ""]);
    assert_eq!(parse_ids(" a b ,"), vec!["a b", ""]);
}

#[test]
fn test_output_format() {
    assert_eq!("json".parse::<OutputFormat>().unwrap(), OutputFormat::Json);
    assert_eq!("table".parse::<OutputFormat>().unwrap(), OutputFormat::Table);
    assert_eq!("simple".parse::<OutputFormat>().unwrap(), OutputFormat::Simple);
}

#[test]
fn formats_by_name() {
    assert_eq!("JSON".parse::<OutputFormat>(), Ok(OutputFormat::Json));
    assert_eq!(
        "yaml".parse::<OutputFormat>(),
        Err("Invalid format: yaml. Use json, table, or simple".to_string())
    );
    assert_eq!("jsonl".parse::<ImportFormat>(), Ok(ImportFormat::Jsonl));
    assert_eq!("Auto".parse::<ImportFormat>(), Ok(ImportFormat::Auto));
    assert_eq!("csv".parse::<ImportFormat>(), Ok(ImportFormat::Csv));
    assert_eq!(
        "xml".parse::<ImportFormat>(),
        Err("Invalid format: xml. Use json, jsonl, csv, or auto".to_string())
    );
    assert_eq!("CSV".parse::<ExportFormat>(), Ok(ExportFormat::Csv));
    assert_eq!("json".parse::<ExportFormat>(), Ok(ExportFormat::Json));
    assert_eq!(
        "auto".parse::<ExportFormat>(),
        Err("Invalid format: auto. Use json, jsonl, or csv".to_string())
    );
}

#[test]
fn import_format_by_extension() {
    assert_eq!(ImportFormat::Auto.resolve("a/b.json"), Some(ImportFormat::Json));
    assert_eq!(ImportFormat::Auto.resolve("b.ndjson"), Some(ImportFormat::Jsonl));
    assert_eq!(ImportFormat::Auto.resolve("b.jsonl"), Some(ImportFormat::Jsonl));
    assert_eq!(ImportFormat::Auto.resolve("b.csv"), Some(ImportFormat::Csv));
    assert_eq!(ImportFormat::Auto.resolve("b.txt"), None);
    assert_eq!(ImportFormat::Auto.resolve("b"), None);
    assert_eq!(ImportFormat::Csv.resolve("b.json"), Some(ImportFormat::Csv));
}

#[test]
fn delete_targets() {
    match delete_target(Some("a, b"), Some("f")) {
        Ok(DeleteTarget::Ids(ids)) => assert_eq!(ids, vec!["a", "b"]),
        _ => panic!("identifiers come first"),
    }
    match delete_target(None, Some("category = 'x'")) {
        Ok(DeleteTarget::Filter(f)) => assert_eq!(f, "category = 'x'"),
        _ => panic!("the filter is taken"),
    }
    assert_eq!(
        delete_target(None, None).err(),
        Some("Must specify either --ids or --filter".to_string())
    );
}

#[test]
fn commands_are_plain_values() {
    let cli = Cli {
        database: "vectors.db".to_string(),
        verbose: false,
        command: Commands::Query {
            vector: "0.1,0.2".to_string(),
            limit: 10,
            filter: None,
            format: OutputFormat::Table,
        },
    };
    match cli.command {
        Commands::Query { limit, format, .. } => {
            assert_eq!(limit, 10);
            assert_eq!(format, OutputFormat::Table);
        }
        _ => panic!("a query"),
    }
}

struct Always(&'static str);

impl LLM for Always {
    fn generate(&self, _prompt: &str) -> Result<String, String> {
        Ok(self.0.to_string())
    }
}

struct Echo;

impl LLM for Echo {
    fn generate(&self, prompt: &str) -> Result<String, String> {
        if prompt.contains("Context: relevant") {
            Ok(" YES, it is ".to_string())
        } else if prompt.contains("Context: broken") {
            Err("model down".to_string())
        } else {
            Ok("No".to_string())
        }
    }
}

fn input(contexts: &[&str], answer: Option<&str>) -> EvaluationInput {
    EvaluationInput {
        query: "What is Rust?".to_string(),
        contexts: contexts.iter().map(|c| c.to_string()).collect(),
        answer: answer.map(|a| a.to_string()),
        ground_truth: None,
    }
}

/// The share of the contexts that were judged relevant.
fn share(relevant: usize, judged: usize) -> f32 {
    if judged == 0 {
        0.0
    } else {
        relevant as f32 / judged as f32
    }
}

#[test]
fn test_context_relevance_all_relevant() {
    let metric = ContextRelevance::new(Always("Yes"));
    let input = input(
        &["Rust is a systems programming language.", "Rust provides memory safety."],
        None,
    );

    let result = metric.count_relevant(&input).unwrap();
    assert_eq!(result.relevant, 2);
    assert_eq!(result.judgements, vec![true, true]);
    assert_eq!(share(result.relevant, result.judgements.len()), 1.0);
    assert_eq!(metric.name(), "context_relevance");
}

#[test]
fn test_context_relevance_empty_contexts() {
    let metric = ContextRelevance::new(Always("Yes"));
    let result = metric.count_relevant(&input(&[], None)).unwrap();
    assert_eq!(result.relevant, 0);
    assert!(result.judgements.is_empty());
    assert_eq!(share(result.relevant, result.judgements.len()), 0.0);
}

#[test]
fn relevance_is_judged_per_context() {
    let metric = ContextRelevance::new(Echo);
    let result = metric.count_relevant(&input(&["relevant", "other", "relevant"], None)).unwrap();
    assert_eq!(result.relevant, 2);
    assert_eq!(result.judgements, vec![true, false, true]);
    assert_eq!(
        metric.count_relevant(&input(&["relevant", "broken", "relevant"], None)).err(),
        Some("model down".to_string())
    );
    assert_eq!(metric.is_relevant("q", "relevant"), Ok(true));
    assert_eq!(metric.is_relevant("q", "nothing"), Ok(false));
    assert_eq!(
        build_relevance_prompt("Q", "C"),
        "Query: Q\n\nContext: C\n\nIs this context relevant for answering the query? Answer only 'Yes' or 'No'."
    );
    assert!(judge_relevance("  Yes."));
    assert!(judge_relevance("eyes"));
    assert!(!judge_relevance("No"));
    assert!(!judge_relevance(""));
}

#[test]
fn test_answer_faithfulness() {
    let metric = AnswerFaithfulness::new(Always("0.8"));
    let input = input(
        &["Rust is a systems programming language."],
        Some("Rust is a systems language."),
    );

    let (response, word) = metric.ask(&input).unwrap().unwrap();
    assert_eq!(response, "0.8");
    assert_eq!(word, Some("0.8".to_string()));
    assert_eq!(word.unwrap().parse::<f32>().unwrap().clamp(0.0, 1.0), 0.8);
    assert_eq!(metric.name(), "answer_faithfulness");
}

#[test]
fn faithfulness_plans() {
    assert_eq!(
        AnswerFaithfulness::<Echo>::plan(&input(&["c"], None)).err(),
        Some("Answer required for faithfulness metric".to_string())
    );
    assert!(matches!(
        AnswerFaithfulness::<Echo>::plan(&input(&[], Some("a"))),
        Ok(FaithfulnessPlan::NoContexts)
    ));
    match AnswerFaithfulness::<Echo>::plan(&input(&["one", "two"], Some("ans"))) {
        Ok(FaithfulnessPlan::Ask(p)) => assert_eq!(
            p,
            "Context:\none\n\ntwo\n\nAnswer:\nans\n\nIs the answer fully supported by the context? Rate the faithfulness from 0.0 (completely unfaithful/hallucinated) to 1.0 (fully faithful/grounded). Respond with only a number between 0.0 and 1.0."
        ),
        _ => panic!("the judge is to be asked"),
    }
    assert_eq!(
        build_faithfulness_prompt(&vec!["x".to_string()], "y"),
        "Context:\nx\n\nAnswer:\ny\n\nIs the answer fully supported by the context? Rate the faithfulness from 0.0 (completely unfaithful/hallucinated) to 1.0 (fully faithful/grounded). Respond with only a number between 0.0 and 1.0."
    );
    assert_eq!(AnswerFaithfulness::new(Echo).ask(&input(&[], Some("a"))), Ok(None));
    assert_eq!(score_word("  0.75 out of 1"), Some("0.75".to_string()));
    assert_eq!(score_word(" \n "), None);
}

#[test]
fn filters_of_the_command_line() {
    match parse_filter("category = 'tech'") {
        Some(FilterExpr::Eq(field, JsonValue::Text(value))) => {
            assert_eq!(field, "category");
            assert_eq!(value, "tech");
        }
        other => panic!("one equality, not {:?}", other),
    }
    match parse_filter("a.b=x=y ") {
        Some(FilterExpr::Eq(field, JsonValue::Text(value))) => {
            assert_eq!(field, "a.b");
            assert_eq!(value, "x=y");
        }
        other => panic!("one equality, not {:?}", other),
    }
    match parse_filter("q='") {
        Some(FilterExpr::Eq(_, JsonValue::Text(value))) => assert_eq!(value, "'"),
        other => panic!("one equality, not {:?}", other),
    }
    match parse_filter("q=''") {
        Some(FilterExpr::Eq(_, JsonValue::Text(value))) => assert_eq!(value, ""),
        other => panic!("one equality, not {:?}", other),
    }
    assert!(parse_filter("no assignment").is_none());
    assert!(parse_filter("").is_none());
    assert!(parse_filter("[1, 2]").is_none());

    let e = parse_filter("{\"c\": \"x\", \"n\": 2}").unwrap();
    match &e {
        FilterExpr::And(tests) => {
            assert_eq!(tests.len(), 2);
            assert!(matches!(&tests[0], FilterExpr::Eq(f, JsonValue::Text(v)) if f == "c" && v == "x"));
            assert!(matches!(&tests[1], FilterExpr::Eq(f, JsonValue::Number(_, t)) if f == "n" && t == "2"));
        }
        other => panic!("a conjunction, not {:?}", other),
    }
    let f = compile(&e).unwrap();
    assert!(f.eval(&parse_json(b"{\"c\":\"x\",\"n\":2.0}").unwrap()));
    assert!(!f.eval(&parse_json(b"{\"c\":\"x\",\"n\":3}").unwrap()));
    assert!(!f.eval(&parse_json(b"{\"c\":\"y\",\"n\":2}").unwrap()));
    let all = compile(&parse_filter("{}").unwrap()).unwrap();
    assert!(all.eval(&parse_json(b"{}").unwrap()));
}

struct Down;

impl LLM for Down {
    fn generate(&self, _prompt: &str) -> Result<String, String> {
        Err("model down".to_string())
    }
}

#[test]
fn judge_is_asked_only_where_needed() {
    // Without an answer the input is refused, whatever the judge would say.
    assert_eq!(
        AnswerFaithfulness::new(Down).ask(&input(&["c"], None)),
        Err("Answer required for faithfulness metric".to_string())
    );
    // Without contexts nothing is asked, so a judge that is down does no harm.
    assert_eq!(AnswerFaithfulness::new(Down).ask(&input(&[], Some("a"))), Ok(None));
    let none = ContextRelevance::new(Down).count_relevant(&input(&[], None)).unwrap();
    assert_eq!(none.relevant, 0);
    assert!(none.judgements.is_empty());
    // Where the judge is asked, its failure is handed on.
    assert_eq!(
        AnswerFaithfulness::new(Down).ask(&input(&["c"], Some("a"))),
        Err("model down".to_string())
    );
    assert_eq!(
        ContextRelevance::new(Down).count_relevant(&input(&["c"], None)).err(),
        Some("model down".to_string())
    );
    assert_eq!(ContextRelevance::new(Down).is_relevant("q", "c"), Err("model down".to_string()));
    // The answer is handed back with the word that the score is read from.
    assert_eq!(
        AnswerFaithfulness::new(Always(" 0.5 or so")).ask(&input(&["c"], Some("a"))),
        Ok(Some((" 0.5 or so".to_string(), Some("0.5".to_string()))))
    );
}
