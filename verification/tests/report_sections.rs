use trending_watcher::filter::Queue;
use trending_watcher::report::{generate_report, write_candidate_block, ReportEntry};

fn score_key(score: f64) -> u64 {
    let s = if score == 0.0 { 0.0 } else { score };
    let bits = s.to_bits();
    if bits >> 63 == 1 {
        !bits
    } else {
        bits | (1u64 << 63)
    }
}

fn make_candidate(id: &str, score: f64, queue: Queue, size_b: Option<f64>) -> ReportEntry {
    ReportEntry {
        id: id.into(),
        queue,
        score_key: score_key(score),
        score_text: format!("{:.3}", score),
        size_text: size_b.map(|b| format!("{}B", b)).unwrap_or_else(|| "?".to_string()),
        open_llm_text: format!("{:.2}", 0.5f64),
        downloads_text: format!("{:.2}", 0.5f64),
        korean_text: format!("{:.2}", 0.5f64),
        license_text: format!("{:.2}", 1.0f64),
        gguf_text: format!("{:.0}", 1.0f64),
    }
}

#[test]
fn report_includes_frontmatter() {
    let cands = vec![make_candidate("x/y-7B", 0.5, Queue::Review, Some(7.0))];
    let r = generate_report(&cands, 10);
    assert!(r.starts_with("---\n"));
    assert!(r.contains("title:"));
    assert!(r.contains("labels: auto-curate"));
    assert!(r.contains("assignees: freessunky-bit"));
    assert!(r.contains("큐레이터"));
}

#[test]
fn report_groups_by_queue() {
    let cands = vec![
        make_candidate("a/b-7B", 0.7, Queue::Review, Some(7.0)),
        make_candidate("c/d-2B", 0.3, Queue::InfoOnly, Some(2.0)),
        make_candidate("e/f-5B", 0.0, Queue::Excluded, Some(5.0)),
    ];
    let r = generate_report(&cands, 10);
    assert!(r.contains("## Review queue"));
    assert!(r.contains("## Info-only"));
    assert!(r.contains("## Excluded"));
    assert!(r.contains("a/b-7B"));
    assert!(r.contains("c/d-2B"));
    assert!(r.contains("e/f-5B"));
}

#[test]
fn report_sorts_by_score_desc() {
    let cands = vec![
        make_candidate("low/m-7B", 0.3, Queue::Review, Some(7.0)),
        make_candidate("hi/m-7B", 0.8, Queue::Review, Some(7.0)),
        make_candidate("mid/m-7B", 0.5, Queue::Review, Some(7.0)),
    ];
    let r = generate_report(&cands, 10);
    let hi_pos = r.find("hi/m-7B").unwrap();
    let mid_pos = r.find("mid/m-7B").unwrap();
    let low_pos = r.find("low/m-7B").unwrap();
    assert!(hi_pos < mid_pos, "hi(0.8) before mid(0.5)");
    assert!(mid_pos < low_pos, "mid(0.5) before low(0.3)");
}

#[test]
fn report_top_n_limits_each_group() {
    let cands: Vec<ReportEntry> = (0..5)
        .map(|i| {
            make_candidate(
                &format!("x/m{}-7B", i),
                0.5 - (i as f64) * 0.05,
                Queue::Review,
                Some(7.0),
            )
        })
        .collect();
    let r = generate_report(&cands, 2);
    assert!(r.contains("x/m0-7B"));
    assert!(r.contains("x/m1-7B"));
    assert!(!r.contains("x/m3-7B"));
    assert!(!r.contains("x/m4-7B"));
    assert!(r.contains("Review queue — 5 건"));
}

#[test]
fn report_handles_empty() {
    let r = generate_report(&[], 10);
    assert!(r.contains("review queue 후보가 없어요") || r.contains("없어요"));
    assert!(r.contains("Review queue"));
}

#[test]
fn report_exact_text_of_one_candidate() {
    let cands = vec![make_candidate("a/b-7B", 0.5, Queue::Review, Some(7.0))];
    let r = generate_report(&cands, 10);
    let expected = "---\ntitle: \"Trending Watcher — 큐레이션 review queue\"\nlabels: auto-curate, trending-watcher, needs-review\nassignees: freessunky-bit\n---\n\n> 자동 발견된 후보예요. 큐레이터가 검토 후 LMmaster 본 repo에 manifest PR을 올려 주세요.\n> 검토 체크리스트는 [CURATION_GUIDE.md](../CURATION_GUIDE.md) 참고.\n\n생성: {{ env.GENERATED_AT }}\n\n## Review queue — 1 건 (사이즈 3~14B + license 통과)\n\n### 1. `a/b-7B` — score 0.500\n\n- size: 7B / Open_LLM=0.50 / downloads=0.50 / korean=0.50 / license=1.00 / gguf=1\n- HuggingFace: https://huggingface.co/a/b-7B\n\n## Info-only — 0 건 (사이즈 외이)\n\n(없음)\n\n## Excluded — 0 건 (license 화이트리스트 미통과)\n\n(없음)\n\n---\n\n본 issue는 6시간마다 자동 갱신돼요 (`update_existing: true`). 닫지 말고 검토 댓글로 처리해 주세요.\n";
    assert_eq!(r, expected);
}

#[test]
fn report_lists_excluded_ids_only() {
    let cands = vec![
        make_candidate("e/one", 0.1, Queue::Excluded, None),
        make_candidate("e/two", 0.2, Queue::Excluded, None),
    ];
    let r = generate_report(&cands, 10);
    assert!(r.contains("## Excluded — 2 건 (license 화이트리스트 미통과)\n\n자동 제외된 후보 ID만 나열해요. 라이선스 매핑 갱신 시 다시 보일 수 있어요.\n\n- `e/two`\n- `e/one`\n\n---"));
    assert!(!r.contains("### 1. `e/two`"));
}

#[test]
fn report_ties_keep_input_order() {
    let cands = vec![
        make_candidate("first/m", 0.4, Queue::InfoOnly, None),
        make_candidate("top/m", 0.9, Queue::InfoOnly, Some(70.0)),
        make_candidate("second/m", 0.4, Queue::InfoOnly, None),
    ];
    let r = generate_report(&cands, 10);
    let top = r.find("### 1. `top/m`").unwrap();
    let first = r.find("### 2. `first/m`").unwrap();
    let second = r.find("### 3. `second/m`").unwrap();
    assert!(top < first && first < second);
    assert!(r.contains("- size: ? / Open_LLM"));
    assert!(r.contains("- size: 70B / Open_LLM"));
}

#[test]
fn report_top_n_zero_keeps_counts() {
    let cands = vec![make_candidate("a/b-7B", 0.5, Queue::Review, Some(7.0))];
    let r = generate_report(&cands, 0);
    assert!(r.contains("## Review queue — 1 건"));
    assert!(!r.contains("a/b-7B"));
}

#[test]
fn candidate_block_text() {
    let mut s = String::from("head\n");
    write_candidate_block(&mut s, &make_candidate("a/b-7B", 0.5, Queue::Review, Some(7.0)), 3);
    assert_eq!(
        s,
        "head\n### 3. `a/b-7B` — score 0.500\n\n- size: 7B / Open_LLM=0.50 / downloads=0.50 / korean=0.50 / license=1.00 / gguf=1\n- HuggingFace: https://huggingface.co/a/b-7B\n\n"
    );
}

#[test]
fn report_ignores_input_order_for_distinct_scores() {
    let a = vec![
        make_candidate("r/1", 0.2, Queue::Review, Some(7.0)),
        make_candidate("i/1", 0.9, Queue::InfoOnly, None),
        make_candidate("r/2", 0.8, Queue::Review, Some(8.0)),
        make_candidate("e/1", 0.1, Queue::Excluded, None),
    ];
    let b = vec![
        make_candidate("e/1", 0.1, Queue::Excluded, None),
        make_candidate("r/2", 0.8, Queue::Review, Some(8.0)),
        make_candidate("r/1", 0.2, Queue::Review, Some(7.0)),
        make_candidate("i/1", 0.9, Queue::InfoOnly, None),
    ];
    assert_eq!(generate_report(&a, 10), generate_report(&b, 10));
    assert_eq!(generate_report(&a, 1), generate_report(&b, 1));
}
