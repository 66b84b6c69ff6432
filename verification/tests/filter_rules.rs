use trending_watcher::filter::{
    candidate_queue, extract_param_count_text, gguf_present, last_decimal_token, license_tier,
    LicenseTier, Queue, PARAM_COUNT_PATTERN,
    WEIGHT_DOWNLOADS_PERCENT, WEIGHT_GGUF_PERCENT, WEIGHT_KOREAN_PERCENT, WEIGHT_LICENSE_PERCENT,
    WEIGHT_OPEN_LLM_PERCENT,
};
use trending_watcher::types::TrendingModelMeta;

fn make_model(id: &str, downloads: u64, tags: Vec<&str>, library: Option<&str>) -> TrendingModelMeta {
    TrendingModelMeta {
        id: id.to_string(),
        downloads,
        likes: 0,
        library_name: library.map(String::from),
        tags: tags.into_iter().map(String::from).collect(),
        pipeline_tag: None,
        created_at: None,
    }
}

fn license_score(license: &str) -> f64 {
    license_tier(license).score_tenths() as f64 / 10.0
}

fn extract_param_count_b(id: &str) -> Option<f64> {
    extract_param_count_text(id).map(|t| t.parse::<f64>().unwrap())
}

fn korean_signal(m: &TrendingModelMeta) -> f64 {
    if m.has_korean_tag() { 1.0 } else { 0.0 }
}

fn gguf_present_score(m: &TrendingModelMeta) -> f64 {
    if gguf_present(m) { 1.0 } else { 0.0 }
}

#[test]
fn weights_sum_to_one() {
    let total = WEIGHT_OPEN_LLM_PERCENT as f64 / 100.0
        + WEIGHT_DOWNLOADS_PERCENT as f64 / 100.0
        + WEIGHT_KOREAN_PERCENT as f64 / 100.0
        + WEIGHT_LICENSE_PERCENT as f64 / 100.0
        + WEIGHT_GGUF_PERCENT as f64 / 100.0;
    assert!((total - 1.0).abs() < f64::EPSILON, "weights must sum to 1.0");
}

#[test]
fn weight_percentages_sum_to_hundred() {
    assert_eq!(
        WEIGHT_OPEN_LLM_PERCENT
            + WEIGHT_DOWNLOADS_PERCENT
            + WEIGHT_KOREAN_PERCENT
            + WEIGHT_LICENSE_PERCENT
            + WEIGHT_GGUF_PERCENT,
        100
    );
}

#[test]
fn license_score_whitelist() {
    assert_eq!(license_score("apache-2.0"), 1.0);
    assert_eq!(license_score("mit"), 1.0);
    assert_eq!(license_score("MIT"), 1.0);
    assert_eq!(license_score("llama3.1-community"), 0.7);
    assert_eq!(license_score("gemma"), 0.7);
    assert_eq!(license_score("exaone"), 0.4);
    assert_eq!(license_score("nvidia-open-model-license"), 0.4);
    assert_eq!(license_score("other"), 0.0);
    assert_eq!(license_score(""), 0.0);
}

#[test]
fn license_tier_edges() {
    assert_eq!(license_tier("BSD-3-Clause"), LicenseTier::Unlisted);
    assert_eq!(license_tier("bsd-3-clause"), LicenseTier::Unlisted);
    assert_eq!(license_tier("Apache-2.0 "), LicenseTier::Unlisted);
    assert_eq!(license_tier("Llama3"), LicenseTier::Community);
    assert_eq!(license_tier("llama2"), LicenseTier::Unlisted);
    assert_eq!(license_tier("gemma2"), LicenseTier::Community);
    assert_eq!(license_tier("gemma3"), LicenseTier::Unlisted);
    assert_eq!(license_tier("NVIDIA-foo"), LicenseTier::Restricted);
    assert_eq!(license_tier("EXAONE"), LicenseTier::Restricted);
    assert_eq!(license_tier("exaone-3.0"), LicenseTier::Unlisted);
    assert_eq!(LicenseTier::Permissive.score_tenths(), 10);
    assert_eq!(LicenseTier::Community.score_tenths(), 7);
    assert_eq!(LicenseTier::Restricted.score_tenths(), 4);
    assert_eq!(LicenseTier::Unlisted.score_tenths(), 0);
}

#[test]
fn extract_param_count_basic() {
    assert_eq!(extract_param_count_b("Qwen/Qwen2.5-7B-Instruct"), Some(7.0));
    assert_eq!(extract_param_count_b("meta-llama/Llama-3.1-8B-Instruct"), Some(8.0));
    assert_eq!(extract_param_count_b("nvidia/Nemotron-3-Nano-4B"), Some(4.0));
    assert_eq!(extract_param_count_b("Qwen/Qwen2.5-1.5B-Instruct"), Some(1.5));
    assert_eq!(extract_param_count_b("ns/no-size-here"), None);
}

#[test]
fn extract_param_count_takes_last_match() {
    assert_eq!(extract_param_count_text("x/Qwen2-7B-1.5B"), Some("1.5".to_string()));
    assert_eq!(extract_param_count_text("x/model-14b-chat"), Some("14".to_string()));
    assert_eq!(extract_param_count_text("x/model_7B"), None);
    assert_eq!(extract_param_count_text("x/7Bx"), None);
    assert_eq!(extract_param_count_text("x/y-7B-٣B"), Some("7".to_string()));
    assert_eq!(PARAM_COUNT_PATTERN, r"(?i)\b(\d+(?:\.\d+)?)b\b");
}

#[test]
fn license_zero_excludes_candidate() {
    let model = make_model("x/y-7B", 1_000, vec!["license:other"], None);
    let tier = license_tier(&model.license().unwrap_or_default());
    assert_eq!(tier.score_tenths(), 0);
    assert_eq!(candidate_queue(tier, Queue::Review), Queue::Excluded);
    assert_eq!(license_score(&model.license().unwrap_or_default()), 0.0);
}

#[test]
fn whitelisted_license_keeps_size_verdict() {
    assert_eq!(candidate_queue(LicenseTier::Permissive, Queue::Review), Queue::Review);
    assert_eq!(candidate_queue(LicenseTier::Restricted, Queue::InfoOnly), Queue::InfoOnly);
    assert_eq!(candidate_queue(LicenseTier::Unlisted, Queue::InfoOnly), Queue::Excluded);
}

#[test]
fn korean_signal_tag_only() {
    let m_ko = make_model("x/y-7B", 0, vec!["ko"], None);
    let m_en = make_model("x/y-7B", 0, vec!["en"], None);
    assert_eq!(korean_signal(&m_ko), 1.0);
    assert_eq!(korean_signal(&m_en), 0.0);
}

#[test]
fn gguf_detection_library_or_mirror() {
    let m1 = make_model("Qwen/Qwen2.5-GGUF", 0, vec![], Some("gguf"));
    assert_eq!(gguf_present_score(&m1), 1.0);
    let m2 = make_model("bartowski/Qwen2.5-7B-Instruct-GGUF", 0, vec![], Some("gguf"));
    assert_eq!(gguf_present_score(&m2), 1.0);
    let m3 = make_model("unsloth/llama-3.1-8b", 0, vec![], None);
    assert_eq!(gguf_present_score(&m3), 1.0);
    let m4 = make_model("meta-llama/Llama-3.1-8B-Instruct", 0, vec![], Some("transformers"));
    assert_eq!(gguf_present_score(&m4), 0.0);
}

#[test]
fn gguf_mirror_author_ignores_case() {
    assert!(gguf_present(&make_model("TheBloke/x-7B", 0, vec![], None)));
    assert!(gguf_present(&make_model("MaziyarPanahi/x", 0, vec![], None)));
    assert!(gguf_present(&make_model("LMStudio-Community/x", 0, vec![], None)));
    assert!(!gguf_present(&make_model("bartowski", 0, vec![], None)));
}

#[test]
fn rules_deterministic_100x() {
    let model = make_model(
        "Qwen/Qwen2.5-7B-Instruct",
        1_000_000,
        vec!["text-generation", "ko", "license:apache-2.0"],
        Some("transformers"),
    );
    let first = (
        model.license(),
        license_tier(&model.license().unwrap_or_default()),
        gguf_present(&model),
        model.has_korean_tag(),
        extract_param_count_text(&model.id),
    );
    for _ in 0..100 {
        let next = (
            model.license(),
            license_tier(&model.license().unwrap_or_default()),
            gguf_present(&model),
            model.has_korean_tag(),
            extract_param_count_text(&model.id),
        );
        assert_eq!(first, next, "rules must be deterministic");
    }
    assert_eq!(first.1, LicenseTier::Permissive);
    assert_eq!(first.4, Some("7".to_string()));
}

#[test]
fn last_decimal_token_skips_non_numbers() {
    let toks = |v: &[&str]| v.iter().map(|t| Some(t.to_string())).collect::<Vec<Option<String>>>();
    assert_eq!(last_decimal_token(toks(&["7", "1.5", "٣"])), Some("1.5".to_string()));
    assert_eq!(last_decimal_token(toks(&["7", "1.2.3", ".5", "5."])), Some("7".to_string()));
    assert_eq!(last_decimal_token(toks(&[])), None);
    assert_eq!(last_decimal_token(toks(&["", "x"])), None);
    assert_eq!(
        last_decimal_token(vec![Some("3".to_string()), None, Some("x".to_string()), None]),
        Some("3".to_string())
    );
    assert_eq!(last_decimal_token(vec![None, None]), None);
}
