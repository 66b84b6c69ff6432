use trending_watcher::cli::{dry_run_requested, DEFAULT_LIMIT};
use trending_watcher::error::WatcherError;
use trending_watcher::fetch::{user_agent, WATCHER_VERSION};
use trending_watcher::types::TrendingModelMeta;

fn meta(id: &str, library: Option<&str>, tags: &[&str]) -> TrendingModelMeta {
    TrendingModelMeta {
        id: id.to_string(),
        downloads: 0,
        likes: 0,
        library_name: library.map(String::from),
        tags: tags.iter().map(|t| t.to_string()).collect(),
        pipeline_tag: None,
        created_at: None,
    }
}

#[test]
fn error_messages_korean() {
    assert!(WatcherError::HfApiUnreachable("x".into())
        .message()
        .contains("HuggingFace"));
    assert!(WatcherError::RateLimited {
        retry_after_secs: 60
    }
    .message()
    .contains("60초"));
    assert!(WatcherError::SchemaMismatch("x".into())
        .message()
        .contains("schema"));
}

#[test]
fn error_messages_exact_text() {
    assert_eq!(
        WatcherError::RateLimited { retry_after_secs: 120 }.message(),
        "HuggingFace rate limit 초과 — 120초 후 다시 시도할게요"
    );
    assert_eq!(
        WatcherError::ParquetReadFailed("builder: bad".into()).message(),
        "Parquet 파일을 읽지 못했어요: builder: bad"
    );
    assert_eq!(WatcherError::Internal("x".into()).message(), "내부 에러: x");
    assert_eq!(
        WatcherError::SchemaMismatch("y".into()).message(),
        "응답 schema가 예상과 달라요: y"
    );
    assert_eq!(
        WatcherError::HfApiUnreachable("z".into()).message(),
        "HuggingFace API에 접속하지 못했어요: z"
    );
}

#[test]
fn watcher_version_is_set() {
    assert!(!WATCHER_VERSION.is_empty());
    assert!(WATCHER_VERSION.starts_with("0."));
}

#[test]
fn user_agent_names_the_watcher_version() {
    assert_eq!(user_agent(), format!("lmmaster-trending-watcher/{}", WATCHER_VERSION));
}

#[test]
fn gguf_detection() {
    let mut m = TrendingModelMeta {
        id: "x/y".into(),
        downloads: 0,
        likes: 0,
        library_name: Some("gguf".into()),
        tags: Vec::new(),
        pipeline_tag: None,
        created_at: None,
    };
    assert!(m.is_gguf());
    m.library_name = Some("transformers".into());
    assert!(!m.is_gguf());
    m.library_name = None;
    assert!(!m.is_gguf());
}

#[test]
fn gguf_library_name_is_case_sensitive() {
    assert!(!meta("x/y", Some("GGUF"), &[]).is_gguf());
}

#[test]
fn license_takes_first_license_tag() {
    let m = meta(
        "Qwen/Qwen2.5-7B-Instruct",
        Some("transformers"),
        &["text-generation", "ko", "license:apache-2.0", "license:mit"],
    );
    assert_eq!(m.license(), Some("apache-2.0".to_string()));
    assert!(m.has_korean_tag());
    assert!(!m.is_gguf());
}

#[test]
fn license_absent_and_empty() {
    assert_eq!(meta("x/y", None, &[]).license(), None);
    assert_eq!(meta("x/y", None, &["mylicense:mit"]).license(), None);
    assert_eq!(meta("x/y", None, &["license:"]).license(), Some(String::new()));
}

#[test]
fn korean_tag_must_match_exactly() {
    assert!(!meta("x/y", None, &["kor", "KO", "language:ko"]).has_korean_tag());
    assert!(meta("x/y", None, &["en", "ko"]).has_korean_tag());
}

#[test]
fn dry_run_values() {
    assert!(dry_run_requested(Some("true")));
    assert!(dry_run_requested(Some("1")));
    assert!(!dry_run_requested(Some("TRUE")));
    assert!(!dry_run_requested(Some("yes")));
    assert!(!dry_run_requested(Some("")));
    assert!(!dry_run_requested(None));
    assert_eq!(DEFAULT_LIMIT, 200);
}
