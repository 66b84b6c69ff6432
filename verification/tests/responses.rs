use trending_watcher::error::WatcherError;
use trending_watcher::fetch::{
    model_card_url, parquet_index_url, HF_PARQUET_ENDPOINT, HF_RAW_BASE, HF_TRENDING_ENDPOINT,
    LEADERBOARD_CONFIG, LEADERBOARD_SPLIT, OPEN_LLM_DATASET, parquet_shard_to_fetch, response_step, retry_after_secs, trending_url,
    unreachable_error, ResponseKind, ResponseStep,
};
use trending_watcher::parse::{
    check_leaderboard_columns, collect_trending_rows, leaderboard_rows, parquet_read_error,
    parse_parquet_url_list, urls_from_index, ColumnState,
};
use trending_watcher::text::{decimal_string, parse_u64};
use trending_watcher::types::TrendingModelMeta;

fn meta(id: &str) -> TrendingModelMeta {
    TrendingModelMeta {
        id: id.to_string(),
        downloads: 0,
        likes: 0,
        library_name: None,
        tags: Vec::new(),
        pipeline_tag: None,
        created_at: None,
    }
}

#[test]
fn trending_url_has_sort_limit_and_library() {
    assert_eq!(
        trending_url("https://huggingface.co/api/models", 50, Some("gguf")),
        "https://huggingface.co/api/models?sort=trendingScore&limit=50&library=gguf"
    );
    assert_eq!(
        trending_url("http://h/api/models", 200, None),
        "http://h/api/models?sort=trendingScore&limit=200"
    );
    assert_eq!(trending_url("b", 0, None), "b?sort=trendingScore&limit=0");
}

#[test]
fn dataset_and_card_urls() {
    assert_eq!(
        parquet_index_url("http://h/api/datasets", "test/repo", "default", "train"),
        "http://h/api/datasets/test/repo/parquet/default/train"
    );
    assert_eq!(
        model_card_url("http://h", "Qwen/Qwen2.5-7B-Instruct"),
        "http://h/Qwen/Qwen2.5-7B-Instruct/raw/main/README.md"
    );
}

#[test]
fn decimal_and_parse_round_trip() {
    for n in [0u64, 7, 10, 60, 120, 1_000_000, u64::MAX] {
        assert_eq!(parse_u64(&decimal_string(n)), Some(n));
    }
    assert_eq!(decimal_string(u64::MAX), "18446744073709551615");
    assert_eq!(parse_u64("+45"), Some(45));
    assert_eq!(parse_u64("0090"), Some(90));
    assert_eq!(parse_u64(""), None);
    assert_eq!(parse_u64("+"), None);
    assert_eq!(parse_u64("-1"), None);
    assert_eq!(parse_u64(" 1"), None);
    assert_eq!(parse_u64("18446744073709551616"), None);
    assert_eq!(parse_u64("1.5"), None);
}

#[test]
fn retry_after_prefers_rate_limit_header() {
    assert_eq!(retry_after_secs(Some(Some("120")), Some(Some("5"))), 120);
    assert_eq!(retry_after_secs(None, Some(Some("45"))), 45);
    assert_eq!(retry_after_secs(Some(Some("soon")), Some(Some("5"))), 60);
    assert_eq!(retry_after_secs(Some(None), Some(Some("5"))), 60);
    assert_eq!(retry_after_secs(None, None), 60);
}

#[test]
fn status_429_is_rate_limited() {
    match response_step(ResponseKind::Listing, 429, "429 Too Many Requests", "u", Some(Some("90")), None) {
        ResponseStep::Fail(WatcherError::RateLimited { retry_after_secs }) => assert_eq!(retry_after_secs, 90),
        other => panic!("expected RateLimited, got {other:?}"),
    }
    match response_step(ResponseKind::ModelCard, 429, "429 Too Many Requests", "u", Some(Some("45")), None) {
        ResponseStep::Fail(WatcherError::RateLimited { retry_after_secs }) => assert_eq!(retry_after_secs, 45),
        other => panic!("expected RateLimited, got {other:?}"),
    }
}

#[test]
fn download_429_is_unreachable() {
    match response_step(ResponseKind::Download, 429, "429 Too Many Requests", "http://f", None, None) {
        ResponseStep::Fail(WatcherError::HfApiUnreachable(m)) => {
            assert_eq!(m, "HTTP 429 Too Many Requests for http://f")
        }
        other => panic!("expected HfApiUnreachable, got {other:?}"),
    }
}

#[test]
fn error_statuses_are_unreachable() {
    for (kind, status, text) in [
        (ResponseKind::Listing, 500u16, "500 Internal Server Error"),
        (ResponseKind::Listing, 404, "404 Not Found"),
        (ResponseKind::ModelCard, 500, "500 Internal Server Error"),
        (ResponseKind::Download, 302, "302 Found"),
    ] {
        match response_step(kind, status, text, "http://x/y", None, None) {
            ResponseStep::Fail(WatcherError::HfApiUnreachable(m)) => {
                assert_eq!(m, format!("HTTP {text} for http://x/y"))
            }
            other => panic!("expected HfApiUnreachable, got {other:?}"),
        }
    }
}

#[test]
fn model_card_404_is_missing_and_success_reads_body() {
    assert!(matches!(
        response_step(ResponseKind::ModelCard, 404, "404 Not Found", "u", None, None),
        ResponseStep::Missing
    ));
    for kind in [ResponseKind::Listing, ResponseKind::ModelCard, ResponseKind::Download] {
        assert!(matches!(response_step(kind, 200, "200 OK", "u", None, None), ResponseStep::ReadBody));
        assert!(matches!(response_step(kind, 299, "299", "u", None, None), ResponseStep::ReadBody));
    }
}

#[test]
fn transport_and_read_errors() {
    match unreachable_error("body read", "eof") {
        WatcherError::HfApiUnreachable(m) => assert_eq!(m, "body read: eof"),
        other => panic!("unexpected {other:?}"),
    }
    match parquet_read_error("builder", "bad magic") {
        WatcherError::ParquetReadFailed(m) => assert_eq!(m, "builder: bad magic"),
        other => panic!("unexpected {other:?}"),
    }
}

#[test]
fn parse_nested_url_list() {
    let json = r#"{
        "default": {
            "train": [
                "https://huggingface.co/datasets/x/resolve/refs%2Fconvert%2Fparquet/y/0000.parquet"
            ]
        }
    }"#;
    let urls = parse_parquet_url_list(json, "default", "train").unwrap();
    assert_eq!(urls.len(), 1);
    assert!(urls[0].contains("0000.parquet"));
}

#[test]
fn parse_flat_url_list() {
    let json = r#"["https://huggingface.co/x.parquet"]"#;
    let urls = parse_parquet_url_list(json, "default", "train").unwrap();
    assert_eq!(urls.len(), 1);
}

#[test]
fn parse_unknown_schema_errors() {
    let err = parse_parquet_url_list(r#"{"unexpected": 42}"#, "default", "train")
        .err()
        .unwrap();
    assert!(matches!(err, WatcherError::SchemaMismatch(_)));
}

#[test]
fn parse_url_list_missing_config_or_split_is_empty() {
    let json = r#"{"default": {"train": ["a", "b"], "test": ["c"]}, "other": {}}"#;
    assert_eq!(parse_parquet_url_list(json, "default", "test").unwrap(), vec!["c".to_string()]);
    assert_eq!(
        parse_parquet_url_list(json, "default", "train").unwrap(),
        vec!["a".to_string(), "b".to_string()]
    );
    assert!(parse_parquet_url_list(json, "default", "valid").unwrap().is_empty());
    assert!(parse_parquet_url_list(json, "other", "train").unwrap().is_empty());
    assert!(parse_parquet_url_list(json, "nope", "train").unwrap().is_empty());
    match parse_parquet_url_list("not json", "default", "train") {
        Err(WatcherError::SchemaMismatch(m)) => assert!(m.starts_with("parquet URL list schema 인식 실패: ")),
        other => panic!("unexpected {other:?}"),
    }
}

#[test]
fn trending_rows_keep_readable_rows_in_order() {
    let rows = vec![Some(meta("ok/model")), None, Some(meta("ok/model2"))];
    let v = collect_trending_rows(Ok(rows), "[...]").unwrap();
    assert_eq!(v.len(), 2);
    assert_eq!(v[0].id, "ok/model");
    assert_eq!(v[1].id, "ok/model2");
    assert!(collect_trending_rows(Ok(Vec::new()), "[]").unwrap().is_empty());
}

#[test]
fn trending_body_that_is_not_an_array() {
    let body = "x".repeat(200);
    match collect_trending_rows(Err("expected a sequence".to_string()), &body) {
        Err(WatcherError::SchemaMismatch(m)) => {
            assert_eq!(m, format!("응답이 array가 아니에요: expected a sequence ({})", "x".repeat(120)))
        }
        other => panic!("unexpected {other:?}"),
    }
    match collect_trending_rows(Err("e".to_string()), r#"{"not": "an array"}"#) {
        Err(WatcherError::SchemaMismatch(m)) => {
            assert_eq!(m, r#"응답이 array가 아니에요: e ({"not": "an array"})"#)
        }
        other => panic!("unexpected {other:?}"),
    }
}

#[test]
fn leaderboard_required_columns() {
    let msg = |r: Result<(), WatcherError>| match r {
        Err(WatcherError::SchemaMismatch(m)) => m,
        other => panic!("unexpected {other:?}"),
    };
    assert_eq!(msg(check_leaderboard_columns(ColumnState::Missing, ColumnState::Present)), "'eval_name' 컬럼 없음");
    assert_eq!(
        msg(check_leaderboard_columns(ColumnState::WrongType, ColumnState::Missing)),
        "'eval_name'이 Utf8 StringArray 아님"
    );
    assert_eq!(msg(check_leaderboard_columns(ColumnState::Present, ColumnState::Missing)), "'Average' 컬럼 없음");
    assert_eq!(
        msg(check_leaderboard_columns(ColumnState::Present, ColumnState::WrongType)),
        "'Average'이 Float64 아님"
    );
    assert!(check_leaderboard_columns(ColumnState::Present, ColumnState::Present).is_ok());
}

#[test]
fn leaderboard_rows_skip_nulls() {
    let names_null = vec![false, true, false, false];
    let avg_null = vec![false, false, true, false];
    assert_eq!(leaderboard_rows(&names_null, &avg_null), vec![0, 3]);
    assert!(leaderboard_rows(&Vec::new(), &Vec::new()).is_empty());
}

#[test]
fn shard_to_fetch_is_first_or_none() {
    assert_eq!(parquet_shard_to_fetch(&Vec::new()), None);
    assert_eq!(parquet_shard_to_fetch(&vec!["a".to_string(), "b".to_string()]), Some(0));
}

#[test]
fn urls_from_index_readings() {
    let flat = Some(vec!["x.parquet".to_string()]);
    assert_eq!(
        urls_from_index(flat, Err("ignored".to_string()), "default", "train").unwrap(),
        vec!["x.parquet".to_string()]
    );
    let nested = Ok(vec![(
        "default".to_string(),
        vec![("train".to_string(), vec!["a".to_string()]), ("test".to_string(), vec![])],
    )]);
    assert_eq!(urls_from_index(None, nested, "default", "train").unwrap(), vec!["a".to_string()]);
    match urls_from_index(None, Err("oops".to_string()), "default", "train") {
        Err(WatcherError::SchemaMismatch(m)) => assert_eq!(m, "parquet URL list schema 인식 실패: oops"),
        other => panic!("unexpected {other:?}"),
    }
}

#[test]
fn endpoint_urls_go_to_huggingface() {
    let urls = [
        trending_url(HF_TRENDING_ENDPOINT, 200, Some("gguf")),
        parquet_index_url(HF_PARQUET_ENDPOINT, OPEN_LLM_DATASET, LEADERBOARD_CONFIG, LEADERBOARD_SPLIT),
        model_card_url(HF_RAW_BASE, "Qwen/Qwen2.5-7B-Instruct"),
    ];
    for u in &urls {
        assert!(u.starts_with("https://huggingface.co/"), "{u}");
    }
    assert_eq!(
        urls[1],
        "https://huggingface.co/api/datasets/open-llm-leaderboard/contents/parquet/default/train"
    );
}
