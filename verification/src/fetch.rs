//! The decisions the fetchers take: the URLs they request, what an HTTP status
//! means, how long HuggingFace asks us to wait, and the errors they report.

use vstd::prelude::*;

use crate::error::WatcherError;
use crate::text::{decimal, has_prefix, law_parse_u64_reads_decimal, parse_u64, parse_u64_spec, push_decimal};

verus! {

/// The version of the watcher.
pub const WATCHER_VERSION: &'static str = "0.1.0";

/// The `User-Agent` of every request: `lmmaster-trending-watcher/{version}`.
pub fn user_agent() -> (r: String)
    ensures
        r@ == "lmmaster-trending-watcher/"@ + WATCHER_VERSION@,
{
    let mut s = String::from_str("lmmaster-trending-watcher/");
    s.append(WATCHER_VERSION);
    s
}

/// The trending listing URL: `{base}?sort=trendingScore&limit={limit}`, then
/// `&library={lib}` when a library filter is given.
pub open spec fn trending_url_spec(base: Seq<char>, limit: u32, library_filter: Option<&str>) -> Seq<char> {
    base + "?sort=trendingScore&limit="@ + decimal(limit as nat) + match library_filter {
        Some(l) => "&library="@ + l@,
        None => Seq::empty(),
    }
}

/// Builds the trending listing URL.
pub fn trending_url(base: &str, limit: u32, library_filter: Option<&str>) -> (r: String)
    ensures
        r@ == trending_url_spec(base@, limit, library_filter),
{
    let mut url = String::from_str(base);
    url.append("?sort=trendingScore&limit=");
    push_decimal(&mut url, limit as u64);
    match library_filter {
        Some(lib) => {
            url.append("&library=");
            url.append(lib);
        },
        None => {},
    }
    assert(url@ =~= trending_url_spec(base@, limit, library_filter));
    url
}

/// The URL of a dataset's Parquet index: `{base}/{dataset}/parquet/{config}/{split}`.
pub open spec fn parquet_index_url_spec(
    base: Seq<char>,
    dataset: Seq<char>,
    config: Seq<char>,
    split: Seq<char>,
) -> Seq<char> {
    base + "/"@ + dataset + "/parquet/"@ + config + "/"@ + split
}

/// Builds the URL of a dataset's Parquet index.
pub fn parquet_index_url(base: &str, dataset: &str, config: &str, split: &str) -> (r: String)
    ensures
        r@ == parquet_index_url_spec(base@, dataset@, config@, split@),
{
    let mut url = String::from_str(base);
    url.append("/");
    url.append(dataset);
    url.append("/parquet/");
    url.append(config);
    url.append("/");
    url.append(split);
    url
}

/// The raw model card URL: `{base}/{id}/raw/main/README.md`.
pub open spec fn model_card_url_spec(base: Seq<char>, id: Seq<char>) -> Seq<char> {
    base + "/"@ + id + "/raw/main/README.md"@
}

/// Builds the raw model card URL.
pub fn model_card_url(base: &str, id: &str) -> (r: String)
    ensures
        r@ == model_card_url_spec(base@, id@),
{
    let mut url = String::from_str(base);
    url.append("/");
    url.append(id);
    url.append("/raw/main/README.md");
    url
}

/// Which shard of a dataset split to download: the first, or none when the
/// index lists no URL (the leaderboard then reads as empty).
pub fn parquet_shard_to_fetch(urls: &Vec<String>) -> (r: Option<usize>)
    ensures
        (r is None) == (urls@.len() == 0),
        r matches Some(i) ==> i == 0,
{
    if urls.len() == 0 {
        None
    } else {
        Some(0)
    }
}

/// The trending listing endpoint.
pub const HF_TRENDING_ENDPOINT: &'static str = "https://huggingface.co/api/models";
/// The dataset API endpoint that serves Parquet indexes.
pub const HF_PARQUET_ENDPOINT: &'static str = "https://huggingface.co/api/datasets";
/// The Open LLM Leaderboard 2 dataset.
pub const OPEN_LLM_DATASET: &'static str = "open-llm-leaderboard/contents";
/// The config of the leaderboard dataset that is read.
pub const LEADERBOARD_CONFIG: &'static str = "default";
/// The split of the leaderboard dataset that is read.
pub const LEADERBOARD_SPLIT: &'static str = "train";
/// The host of raw model cards.
pub const HF_RAW_BASE: &'static str = "https://huggingface.co";

/// The origin every request the watcher builds goes to.
pub open spec fn huggingface_origin() -> Seq<char> {
    "https://huggingface.co/"@
}

proof fn lemma_prefix_of_concat(a: Seq<char>, b: Seq<char>, p: Seq<char>)
    requires
        has_prefix(a, p),
    ensures
        has_prefix(a + b, p),
{
    assert((a + b).subrange(0, p.len() as int) =~= a.subrange(0, p.len() as int));
}

/// The listing, index and model card URLs built from the watcher's endpoints
/// all go to `https://huggingface.co/`, whatever the limit, filter, dataset,
/// config, split or model id.
pub proof fn law_requests_go_to_huggingface(
    limit: u32,
    library_filter: Option<&str>,
    dataset: Seq<char>,
    config: Seq<char>,
    split: Seq<char>,
    id: Seq<char>,
)
    ensures
        has_prefix(trending_url_spec(HF_TRENDING_ENDPOINT@, limit, library_filter), huggingface_origin()),
        has_prefix(
            parquet_index_url_spec(HF_PARQUET_ENDPOINT@, dataset, config, split),
            huggingface_origin(),
        ),
        has_prefix(model_card_url_spec(HF_RAW_BASE@, id), huggingface_origin()),
{
    reveal_strlit("https://huggingface.co/api/models");
    reveal_strlit("https://huggingface.co/api/datasets");
    reveal_strlit("https://huggingface.co");
    reveal_strlit("https://huggingface.co/");
    reveal_strlit("/");
    reveal_strlit("?sort=trendingScore&limit=");
    reveal_strlit("/parquet/");
    let o = huggingface_origin();
    let t = HF_TRENDING_ENDPOINT@;
    assert(has_prefix(t, o)) by {
        assert(t.subrange(0, o.len() as int) =~= o);
    }
    lemma_prefix_of_concat(t, "?sort=trendingScore&limit="@, o);
    lemma_prefix_of_concat(t + "?sort=trendingScore&limit="@, decimal(limit as nat), o);
    lemma_prefix_of_concat(
        t + "?sort=trendingScore&limit="@ + decimal(limit as nat),
        match library_filter {
            Some(l) => "&library="@ + l@,
            None => Seq::empty(),
        },
        o,
    );
    let d = HF_PARQUET_ENDPOINT@;
    assert(has_prefix(d, o)) by {
        assert(d.subrange(0, o.len() as int) =~= o);
    }
    lemma_prefix_of_concat(d, "/"@, o);
    lemma_prefix_of_concat(d + "/"@, dataset, o);
    lemma_prefix_of_concat(d + "/"@ + dataset, "/parquet/"@, o);
    lemma_prefix_of_concat(d + "/"@ + dataset + "/parquet/"@, config, o);
    lemma_prefix_of_concat(d + "/"@ + dataset + "/parquet/"@ + config, "/"@, o);
    lemma_prefix_of_concat(d + "/"@ + dataset + "/parquet/"@ + config + "/"@, split, o);
    let b = HF_RAW_BASE@ + "/"@;
    assert(has_prefix(b, o)) by {
        assert(b.subrange(0, o.len() as int) =~= o);
    }
    lemma_prefix_of_concat(b, id, o);
    lemma_prefix_of_concat(b + id, "/raw/main/README.md"@, o);
}

/// The wait used when HuggingFace gives none we can read.
pub const DEFAULT_RETRY_AFTER_SECS: u64 = 60;

/// The text of a response header: `None` when absent, `Some(None)` when present
/// but not readable as visible ASCII, `Some(Some(text))` otherwise.
pub open spec fn header_text(h: Option<Option<&str>>) -> Option<Option<Seq<char>>> {
    match h {
        Some(Some(t)) => Some(Some(t@)),
        Some(None) => Some(None),
        None => None,
    }
}

/// The wait that a 429 response asks for. `RateLimit-Retry-After` wins whenever
/// it is present; `Retry-After` is read only in its absence; a header that is
/// absent, unreadable or not a `u64` gives 60 seconds.
pub open spec fn retry_after_spec(
    rate_limit_retry_after: Option<Option<Seq<char>>>,
    retry_after: Option<Option<Seq<char>>>,
) -> u64 {
    let header = if rate_limit_retry_after is Some {
        rate_limit_retry_after
    } else {
        retry_after
    };
    match header {
        Some(Some(t)) => match parse_u64_spec(t) {
            Some(v) => v,
            None => DEFAULT_RETRY_AFTER_SECS,
        },
        _ => DEFAULT_RETRY_AFTER_SECS,
    }
}

/// Reads the wait a 429 response asks for from its two headers.
pub fn retry_after_secs(
    rate_limit_retry_after: Option<Option<&str>>,
    retry_after: Option<Option<&str>>,
) -> (r: u64)
    ensures
        r == retry_after_spec(header_text(rate_limit_retry_after), header_text(retry_after)),
{
    let header = if rate_limit_retry_after.is_some() {
        rate_limit_retry_after
    } else {
        retry_after
    };
    match header {
        Some(Some(t)) => match parse_u64(t) {
            Some(v) => v,
            None => DEFAULT_RETRY_AFTER_SECS,
        },
        _ => DEFAULT_RETRY_AFTER_SECS,
    }
}

/// A wait written in decimal in `RateLimit-Retry-After` is the wait used,
/// whatever `Retry-After` says.
pub proof fn law_retry_after_honors_rate_limit_header(
    secs: u64,
    retry_after: Option<Option<Seq<char>>>,
)
    ensures
        retry_after_spec(Some(Some(decimal(secs as nat))), retry_after) == secs,
{
    law_parse_u64_reads_decimal(secs);
}

/// Without `RateLimit-Retry-After`, a wait written in decimal in `Retry-After` is used.
pub proof fn law_retry_after_falls_back(secs: u64)
    ensures
        retry_after_spec(None, Some(Some(decimal(secs as nat)))) == secs,
{
    law_parse_u64_reads_decimal(secs);
}

/// Which request a response answers; they differ in the statuses they treat specially.
#[derive(Debug, Clone, Copy, PartialEq, Eq, Structural)]
pub enum ResponseKind {
    /// A listing or index request: 429 means "wait".
    Listing,
    /// A model card request: 404 means "no card", 429 means "wait".
    ModelCard,
    /// A file download: every non-2xx status is a failure.
    Download,
}

/// What to do with a response.
#[derive(Debug)]
pub enum ResponseStep {
    /// The status is a success: read the body.
    ReadBody,
    /// The model has no card.
    Missing,
    /// Stop with this error.
    Fail(WatcherError),
}

/// A 2xx status.
pub open spec fn is_success_status(status: u16) -> bool {
    200 <= status <= 299
}

/// The message of an error status: `HTTP {status} for {url}`.
pub open spec fn status_failure_message(status_text: Seq<char>, url: Seq<char>) -> Seq<char> {
    "HTTP "@ + status_text + " for "@ + url
}

/// Decides what a response means from its status (`status_text` is how the
/// status prints, e.g. `404 Not Found`), the URL it answers, and its two
/// retry headers (see [`retry_after_spec`]).
pub fn response_step(
    kind: ResponseKind,
    status: u16,
    status_text: &str,
    url: &str,
    rate_limit_retry_after: Option<Option<&str>>,
    retry_after: Option<Option<&str>>,
) -> (r: ResponseStep)
    ensures
        kind == ResponseKind::ModelCard && status == 404 ==> r is Missing,
        !(kind == ResponseKind::ModelCard && status == 404) && kind != ResponseKind::Download
            && status == 429 ==> (r matches ResponseStep::Fail(
            WatcherError::RateLimited { retry_after_secs },
        ) && retry_after_secs == retry_after_spec(header_text(rate_limit_retry_after), header_text(retry_after))),
        !(kind == ResponseKind::ModelCard && status == 404) && !(kind != ResponseKind::Download
            && status == 429) && !is_success_status(status) ==> (r matches ResponseStep::Fail(
            WatcherError::HfApiUnreachable(m),
        ) && m@ == status_failure_message(status_text@, url@)),
        !(kind == ResponseKind::ModelCard && status == 404) && !(kind != ResponseKind::Download
            && status == 429) && is_success_status(status) ==> r is ReadBody,
{
    if kind == ResponseKind::ModelCard && status == 404 {
        return ResponseStep::Missing;
    }
    if kind != ResponseKind::Download && status == 429 {
        let secs = retry_after_secs(rate_limit_retry_after, retry_after);
        return ResponseStep::Fail(WatcherError::RateLimited { retry_after_secs: secs });
    }
    if !(200 <= status && status <= 299) {
        let mut m = String::from_str("HTTP ");
        m.append(status_text);
        m.append(" for ");
        m.append(url);
        return ResponseStep::Fail(WatcherError::HfApiUnreachable(m));
    }
    ResponseStep::ReadBody
}

/// The failure of a request that got no usable answer: `HfApiUnreachable`
/// with `{context}: {detail}` (the context is the URL, `body read` or `bytes`).
pub fn unreachable_error(context: &str, detail: &str) -> (r: WatcherError)
    ensures
        r matches WatcherError::HfApiUnreachable(m) && m@ == context@ + ": "@ + detail@,
{
    let mut m = String::from_str(context);
    m.append(": ");
    m.append(detail);
    WatcherError::HfApiUnreachable(m)
}

} // verus!
