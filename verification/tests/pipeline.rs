use pr_dedupe::embedding::EmbedError;
use pr_dedupe::pipeline::Action;
use pr_dedupe::pipeline::Pipeline;
use pr_dedupe::pipeline::PipelineConfig;
use pr_dedupe::pipeline::PipelineError;
use pr_dedupe::pipeline::Step;
use pr_dedupe::store::RawMatch;
use pr_dedupe::store::RemoteStoreError;

fn config(closed: bool, added: &str) -> PipelineConfig {
    PipelineConfig {
        repo_name: "repo".to_string(),
        pr_number: "1".to_string(),
        commit_sha: "sha".to_string(),
        closed,
        top_k: 5,
        min_similarity: 80,
        max_tokens: 384,
        added: added.to_string(),
        modified: String::new(),
        removed: String::new(),
        renamed: String::new(),
        ignore_suffixes: Vec::new(),
    }
}

#[test]
fn closing_a_pr_deletes_its_entry_and_nothing_else() {
    let mut cfg = config(true, "a.txt");
    cfg.pr_number = "7".to_string();
    let (mut p, step) = Pipeline::new(cfg);
    let id = match step {
        Step::Next(Action::Delete { id }) => id,
        _ => panic!("the closed path must start with a delete"),
    };
    assert_eq!(id, "repo:7");
    match p.on_deleted(Ok(())) {
        Step::Deleted => {}
        _ => panic!("a successful delete ends the run"),
    }
}

#[test]
fn open_path_runs_fetch_embed_query_then_upsert() {
    let (mut p, step) = Pipeline::new(config(false, "a.txt"));
    let urls = match step {
        Step::Next(Action::FetchContent { urls }) => urls,
        _ => panic!("the open path starts by fetching content"),
    };
    assert_eq!(urls, vec!["https://github.com/repo/raw/sha/a.txt"]);

    let step = p.on_content(&vec![Some("hello".to_string())]);
    let chunks = match step {
        Step::Next(Action::Embed { chunks }) => chunks,
        _ => panic!("fetched content is embedded next"),
    };
    assert_eq!(chunks.len(), 1);
    assert_eq!(chunks[0].text, "+ : a.txt\nhello");
    assert_eq!(chunks[0].index, 0);

    let step = p.on_embedded(Ok(()));
    match step {
        Step::Next(Action::Query { top_k }) => assert_eq!(top_k, 5),
        _ => panic!("the fresh vector is queried before it is persisted"),
    }

    let step = p.on_query_response(Ok(Vec::<RawMatch>::new()));
    let id = match step {
        Step::Next(Action::Upsert { id }) => id,
        _ => panic!("a filtered query response is followed by the upsert"),
    };
    assert_eq!(id, "repo:1");

    let report = match p.on_upserted(Ok(())) {
        Step::Reported(report) => report,
        _ => panic!("a successful upsert ends the run with the report"),
    };
    assert!(report.data.is_empty());
}

#[test]
fn query_filters_out_the_querying_pr() {
    let (mut p, _) = Pipeline::new(config(false, "a.txt"));
    p.on_content(&vec![Some("hello".to_string())]);
    p.on_embedded(Ok(()));
    let results = vec![
        RawMatch { id: "repo:1".to_string(), score: 9900 },
        RawMatch { id: "repo:2".to_string(), score: 9500 },
        RawMatch { id: "elsewhere:9".to_string(), score: 9999 },
    ];
    p.on_query_response(Ok(results));
    let report = match p.on_upserted(Ok(())) {
        Step::Reported(report) => report,
        _ => panic!("a successful upsert ends the run with the report"),
    };
    assert_eq!(report.data.len(), 1);
    assert_eq!(report.data[0].pr_url, "https://github.com/repo/pull/2");
    assert_eq!(report.data[0].percentage, 9500);
}

#[test]
fn an_event_with_no_files_still_embeds_the_placeholder_blob() {
    let (mut p, step) = Pipeline::new(config(false, ""));
    let urls = match step {
        Step::Next(Action::FetchContent { urls }) => urls,
        _ => panic!("the open path starts by fetching content"),
    };
    assert!(urls.is_empty());
    let step = p.on_content(&Vec::new());
    let chunks = match step {
        Step::Next(Action::Embed { chunks }) => chunks,
        _ => panic!("even a no-content event is embedded"),
    };
    assert_eq!(chunks.len(), 1);
    assert_eq!(chunks[0].text, " ");
}

#[test]
fn a_failed_fetch_degrades_to_empty_content() {
    let (mut p, _) = Pipeline::new(config(false, "a.txt,b.txt"));
    let step = p.on_content(&vec![Some("hello".to_string()), None]);
    let chunks = match step {
        Step::Next(Action::Embed { chunks }) => chunks,
        _ => panic!("fetched content is embedded next"),
    };
    let joined: String = chunks.iter().map(|c| c.text.clone()).collect();
    assert!(joined.contains("+ : a.txt\nhello"));
    assert!(joined.contains("+ : b.txt"));
}

#[test]
fn ignored_suffixes_are_not_fetched() {
    let mut cfg = config(false, "a.rs,Cargo.lock,b.rs");
    cfg.ignore_suffixes = vec![".lock".to_string()];
    let (_, step) = Pipeline::new(cfg);
    let urls = match step {
        Step::Next(Action::FetchContent { urls }) => urls,
        _ => panic!("the open path starts by fetching content"),
    };
    assert_eq!(
        urls,
        vec![
            "https://github.com/repo/raw/sha/a.rs",
            "https://github.com/repo/raw/sha/b.rs"
        ]
    );
}

#[test]
fn an_embedding_error_is_fatal() {
    let (mut p, _) = Pipeline::new(config(false, "a.txt"));
    p.on_content(&vec![Some("hello".to_string())]);
    match p.on_embedded(Err(EmbedError::Uninitialized)) {
        Step::Failed(PipelineError::Embedding(EmbedError::Uninitialized)) => {}
        _ => panic!("an encoder error ends the run as failed"),
    }
}

#[test]
fn a_store_error_on_delete_is_fatal() {
    let (mut p, _) = Pipeline::new(config(true, ""));
    let err = RemoteStoreError { status: 500, body: "boom".to_string() };
    match p.on_deleted(Err(err)) {
        Step::Failed(PipelineError::RemoteStore(e)) => {
            assert_eq!(e.status, 500);
            assert_eq!(e.body, "boom");
        }
        _ => panic!("a store error ends the run as failed"),
    }
}

#[test]
fn an_upsert_error_reports_failure_but_keeps_the_matches() {
    let (mut p, _) = Pipeline::new(config(false, "a.txt"));
    p.on_content(&vec![Some("hello".to_string())]);
    p.on_embedded(Ok(()));
    p.on_query_response(Ok(vec![RawMatch { id: "repo:2".to_string(), score: 9500 }]));
    let err = RemoteStoreError { status: 503, body: "unavailable".to_string() };
    match p.on_upserted(Err(err)) {
        Step::Failed(PipelineError::RemoteStore(_)) => {}
        _ => panic!("a store error ends the run as failed"),
    }
    let kept = p.report().as_ref().expect("the report is not discarded");
    assert_eq!(kept.data.len(), 1);
    assert_eq!(kept.data[0].pr_url, "https://github.com/repo/pull/2");
}

#[test]
fn two_runs_on_identical_content_yield_identical_chunks_and_matches() {
    let run = || {
        let (mut p, _) = Pipeline::new(config(false, "a.txt,b.txt"));
        let step = p.on_content(&vec![Some("fn main() {}".to_string()), Some("mod x;".to_string())]);
        let chunks = match step {
            Step::Next(Action::Embed { chunks }) => chunks,
            _ => panic!("fetched content is embedded next"),
        };
        p.on_embedded(Ok(()));
        let results = vec![
            RawMatch { id: "repo:3".to_string(), score: 8400 },
            RawMatch { id: "repo:1".to_string(), score: 9900 },
        ];
        p.on_query_response(Ok(results));
        let report = match p.on_upserted(Ok(())) {
            Step::Reported(report) => report,
            _ => panic!("a successful upsert ends the run with the report"),
        };
        (chunks, report)
    };
    let (chunks_a, report_a) = run();
    let (chunks_b, report_b) = run();
    assert_eq!(chunks_a.len(), chunks_b.len());
    for (a, b) in chunks_a.iter().zip(chunks_b.iter()) {
        assert_eq!(a.text, b.text);
        assert_eq!(a.index, b.index);
    }
    assert_eq!(report_a.data.len(), report_b.data.len());
    for (a, b) in report_a.data.iter().zip(report_b.data.iter()) {
        assert_eq!(a.pr_url, b.pr_url);
        assert_eq!(a.percentage, b.percentage);
    }
}

#[test]
fn an_undecodable_store_id_is_fatal() {
    let (mut p, _) = Pipeline::new(config(false, "a.txt"));
    p.on_content(&vec![Some("hello".to_string())]);
    p.on_embedded(Ok(()));
    let results = vec![RawMatch { id: "no colon".to_string(), score: 9000 }];
    match p.on_query_response(Ok(results)) {
        Step::Failed(PipelineError::IdentityDecode(e)) => assert_eq!(e.id, "no colon"),
        _ => panic!("an undecodable id in a store response is fatal"),
    }
}

#[test]
fn a_store_error_on_query_is_fatal() {
    let (mut p, _) = Pipeline::new(config(false, "a.txt"));
    p.on_content(&vec![Some("hello".to_string())]);
    p.on_embedded(Ok(()));
    let err = RemoteStoreError { status: 429, body: "slow down".to_string() };
    match p.on_query_response(Err(err)) {
        Step::Failed(PipelineError::RemoteStore(e)) => assert_eq!(e.status, 429),
        _ => panic!("a store error ends the run as failed"),
    }
}
