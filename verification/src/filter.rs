//! The deterministic parts of candidate scoring: weights, license tiers,
//! GGUF mirror detection, the parameter-count token of a model id and the
//! queue a candidate lands in.

use vstd::prelude::*;

use crate::text::{
    all_ascii_digits, ascii_lower, has_prefix, is_ascii_digit, lower_equals, lower_starts_with,
};
use crate::parse::{lemma_present_push, present};
use crate::types::{is_gguf_spec, TrendingModelMeta};

verus! {

/// Weight of the Open LLM Leaderboard average, in percent of the score.
pub const WEIGHT_OPEN_LLM_PERCENT: u64 = 35;
/// Weight of the download count, in percent of the score.
pub const WEIGHT_DOWNLOADS_PERCENT: u64 = 20;
/// Weight of the Korean signal, in percent of the score.
pub const WEIGHT_KOREAN_PERCENT: u64 = 20;
/// Weight of the license tier, in percent of the score.
pub const WEIGHT_LICENSE_PERCENT: u64 = 15;
/// Weight of GGUF availability, in percent of the score.
pub const WEIGHT_GGUF_PERCENT: u64 = 10;

/// The five weights make up the whole score.
pub proof fn law_weights_sum_to_hundred()
    ensures
        WEIGHT_OPEN_LLM_PERCENT + WEIGHT_DOWNLOADS_PERCENT + WEIGHT_KOREAN_PERCENT
            + WEIGHT_LICENSE_PERCENT + WEIGHT_GGUF_PERCENT == 100,
{
}

/// Where a candidate goes.
#[derive(Debug, Clone, Copy, PartialEq, Eq, Structural)]
pub enum Queue {
    /// 3B to 14B with a whitelisted license: reviewed by the curator.
    Review,
    /// Size outside 3B to 14B, or unknown: listed for information only.
    InfoOnly,
    /// License outside the whitelist: excluded.
    Excluded,
}

/// The license whitelist tiers.
#[derive(Debug, Clone, Copy, PartialEq, Eq, Structural)]
pub enum LicenseTier {
    /// `apache-2.0`, `mit`: score 1.0.
    Permissive,
    /// `llama3*`, `gemma`, `gemma2`: score 0.7.
    Community,
    /// `exaone`, `nvidia*`: score 0.4.
    Restricted,
    /// Anything else: score 0.0, excluded.
    Unlisted,
}

/// The tier of a license name, compared without regard to ASCII case.
pub open spec fn license_tier_spec(license: Seq<char>) -> LicenseTier {
    let l = ascii_lower(license);
    if l == "apache-2.0"@ || l == "mit"@ {
        LicenseTier::Permissive
    } else if has_prefix(l, "llama3"@) || l == "gemma"@ || l == "gemma2"@ {
        LicenseTier::Community
    } else if l == "exaone"@ || l == "nvidia-open"@ || l == "nvidia-open-model-license"@
        || has_prefix(l, "nvidia"@) {
        LicenseTier::Restricted
    } else {
        LicenseTier::Unlisted
    }
}

/// The score of a tier, in tenths.
pub open spec fn tier_tenths(t: LicenseTier) -> u64 {
    match t {
        LicenseTier::Permissive => 10,
        LicenseTier::Community => 7,
        LicenseTier::Restricted => 4,
        LicenseTier::Unlisted => 0,
    }
}

impl LicenseTier {
    /// The license score of this tier in tenths (10, 7, 4 or 0).
    pub fn score_tenths(self) -> (r: u64)
        ensures
            r == tier_tenths(self),
    {
        match self {
            LicenseTier::Permissive => 10,
            LicenseTier::Community => 7,
            LicenseTier::Restricted => 4,
            LicenseTier::Unlisted => 0,
        }
    }
}

/// Classifies a license name against the whitelist.
pub fn license_tier(license: &str) -> (r: LicenseTier)
    ensures
        r == license_tier_spec(license@),
{
    if lower_equals(license, "apache-2.0") || lower_equals(license, "mit") {
        LicenseTier::Permissive
    } else if lower_starts_with(license, "llama3") || lower_equals(license, "gemma")
        || lower_equals(license, "gemma2") {
        LicenseTier::Community
    } else if lower_equals(license, "exaone") || lower_equals(license, "nvidia-open")
        || lower_equals(license, "nvidia-open-model-license") || lower_starts_with(
        license,
        "nvidia",
    ) {
        LicenseTier::Restricted
    } else {
        LicenseTier::Unlisted
    }
}

/// The lower-cased id begins with the author of a known GGUF mirror.
pub open spec fn is_mirror_id(id: Seq<char>) -> bool {
    let l = ascii_lower(id);
    has_prefix(l, "unsloth/"@) || has_prefix(l, "bartowski/"@) || has_prefix(
        l,
        "lmstudio-community/"@,
    ) || has_prefix(l, "thebloke/"@) || has_prefix(l, "maziyarpanahi/"@)
}

/// A GGUF build is at hand: the library is `gguf`, or the repository belongs to a mirror.
pub open spec fn gguf_present_spec(model: TrendingModelMeta) -> bool {
    is_gguf_spec(model.library_name) || is_mirror_id(model.id@)
}

/// Whether a GGUF build of the model is available.
pub fn gguf_present(model: &TrendingModelMeta) -> (r: bool)
    ensures
        r == gguf_present_spec(*model),
{
    if model.is_gguf() {
        return true;
    }
    let id = model.id.as_str();
    lower_starts_with(id, "unsloth/") || lower_starts_with(id, "bartowski/") || lower_starts_with(
        id,
        "lmstudio-community/",
    ) || lower_starts_with(id, "thebloke/") || lower_starts_with(id, "maziyarpanahi/")
}

/// The queue of a candidate: an unlisted license excludes it, otherwise the
/// size gate decides.
pub open spec fn candidate_queue_spec(tier: LicenseTier, size_queue: Queue) -> Queue {
    if tier == LicenseTier::Unlisted {
        Queue::Excluded
    } else {
        size_queue
    }
}

/// Puts a candidate in its queue from its license tier and the size gate's verdict.
pub fn candidate_queue(tier: LicenseTier, size_queue: Queue) -> (r: Queue)
    ensures
        r == candidate_queue_spec(tier, size_queue),
{
    if tier == LicenseTier::Unlisted {
        Queue::Excluded
    } else {
        size_queue
    }
}

/// The pattern of a parameter-count token in a model id: digits, optionally a
/// decimal part, then `b` or `B`, as a whole word (`7B`, `1.5b`).
pub const PARAM_COUNT_PATTERN: &'static str = r"(?i)\b(\d+(?:\.\d+)?)b\b";

/// Whether `regex::Regex::new` accepts `pattern`.
pub uninterp spec fn regex_compiles(pattern: Seq<char>) -> bool;

/// For each match of `pattern` in `haystack` that `regex::Regex::captures_iter`
/// yields, left to right, the text of capture group 1, or `None` where the
/// group took no part in the match.
pub uninterp spec fn regex_group1(pattern: Seq<char>, haystack: Seq<char>) -> Seq<Option<Seq<char>>>;

/// Compiles `pattern` with `regex::Regex::new` and, when that succeeds, returns
/// capture group 1 of every match that `Regex::captures_iter` finds in
/// `haystack`. Trusted: the result is `regex_group1(pattern, haystack)` when
/// `regex_compiles(pattern)`, and `None` otherwise; what regex matches is not
/// stated here.
#[verifier::external_body]
fn regex_group1_captures(pattern: &str, haystack: &str) -> (r: Option<Vec<Option<String>>>)
    ensures
        (r is Some) == regex_compiles(pattern@),
        r matches Some(v) ==> v.deep_view() == regex_group1(pattern@, haystack@),
{
    match regex::Regex::new(pattern) {
        Ok(re) => Some(
            re.captures_iter(haystack).map(|c| c.get(1).map(|m| m.as_str().to_string())).collect(),
        ),
        Err(_) => None,
    }
}

/// ASCII digits with at most one inner decimal point: the texts of the token
/// shape that `f64::from_str` accepts.
pub open spec fn is_decimal_literal(s: Seq<char>) -> bool {
    &&& s.len() > 0
    &&& s[0] != '.'
    &&& s.last() != '.'
    &&& forall|i: int| 0 <= i < s.len() ==> is_ascii_digit(#[trigger] s[i]) || s[i] == '.'
    &&& forall|i: int, j: int|
        0 <= i < s.len() && 0 <= j < s.len() && #[trigger] s[i] == '.' && #[trigger] s[j] == '.'
            ==> i == j
}

/// The last token that reads as a number.
pub open spec fn last_decimal(tokens: Seq<Seq<char>>) -> Option<Seq<char>>
    decreases tokens.len(),
{
    if tokens.len() == 0 {
        None
    } else if is_decimal_literal(tokens.last()) {
        Some(tokens.last())
    } else {
        last_decimal(tokens.drop_last())
    }
}

/// Whether `s` is a decimal literal (see [`is_decimal_literal`]).
pub fn decimal_literal(s: &str) -> (r: bool)
    ensures
        r == is_decimal_literal(s@),
{
    let n = s.unicode_len();
    if n == 0 {
        return false;
    }
    if s.get_char(0) == '.' || s.get_char(n - 1) == '.' {
        return false;
    }
    let mut dot: Option<usize> = None;
    let mut i: usize = 0;
    while i < n
        invariant
            n == s@.len(),
            n > 0,
            s@[0] != '.',
            s@[n - 1] != '.',
            i <= n,
            forall|k: int| 0 <= k < i ==> is_ascii_digit(#[trigger] s@[k]) || s@[k] == '.',
            match dot {
                None => forall|k: int| 0 <= k < i ==> #[trigger] s@[k] != '.',
                Some(p) => p < i && s@[p as int] == '.' && forall|k: int|
                    0 <= k < i && #[trigger] s@[k] == '.' ==> k == p,
            },
        decreases n - i,
    {
        let c = s.get_char(i);
        if c == '.' {
            match dot {
                Some(p) => {
                    assert(s@[p as int] == '.' && s@[i as int] == '.');
                    return false;
                },
                None => {
                    dot = Some(i);
                },
            }
        } else if !('0' <= c && c <= '9') {
            assert(!(is_ascii_digit(s@[i as int]) || s@[i as int] == '.'));
            return false;
        }
        i = i + 1;
    }
    true
}

/// Of the capture groups (absent ones skipped), the last that reads as a
/// number (see [`is_decimal_literal`]).
pub fn last_decimal_token(groups: Vec<Option<String>>) -> (r: Option<String>)
    ensures
        r matches Some(t) ==> last_decimal(present(groups.deep_view())) == Some(t@),
        r is None ==> last_decimal(present(groups.deep_view())) is None,
{
    let ghost d = groups.deep_view();
    let mut i: usize = groups.len();
    assert(d.take(i as int) =~= d);
    while i > 0
        invariant
            i <= groups@.len(),
            d == groups.deep_view(),
            last_decimal(present(d)) == last_decimal(present(d.take(i as int))),
        decreases i,
    {
        proof {
            assert(d.take(i - 1).push(d[i - 1]) =~= d.take(i as int));
            lemma_present_push(d.take(i - 1), d[i - 1]);
            assert(d[i - 1] == groups@[i - 1].deep_view());
        }
        match &groups[i - 1] {
            Some(t) => {
                let ghost p = present(d.take(i - 1));
                assert(present(d.take(i as int)) =~= p.push(t@));
                assert(p.push(t@).drop_last() =~= p);
                if decimal_literal(t.as_str()) {
                    let r = t.clone();
                    return Some(r);
                }
            },
            None => {
                assert(present(d.take(i as int)) =~= present(d.take(i - 1)));
            },
        }
        i = i - 1;
    }
    None
}

/// The last parameter-count token of a model id that reads as a number
/// (the `7` of `Qwen/Qwen2.5-7B-Instruct`), as text; `None` as well should
/// the pattern not compile.
pub fn extract_param_count_text(id: &str) -> (r: Option<String>)
    ensures
        !regex_compiles(PARAM_COUNT_PATTERN@) ==> r is None,
        regex_compiles(PARAM_COUNT_PATTERN@) ==> match last_decimal(
            present(regex_group1(PARAM_COUNT_PATTERN@, id@)),
        ) {
            Some(t) => r matches Some(s) && s@ == t,
            None => r is None,
        },
{
    match regex_group1_captures(PARAM_COUNT_PATTERN, id) {
        Some(groups) => last_decimal_token(groups),
        None => None,
    }
}

/// A repository of any of the GGUF mirror authors `unsloth`, `bartowski`,
/// `lmstudio-community`, `thebloke` and `maziyarpanahi` (in any ASCII case) has
/// a GGUF build, whatever its library; and a GGUF build is only ever claimed for
/// those authors or for the `gguf` library.
pub proof fn law_gguf_mirror_authors(model: TrendingModelMeta)
    ensures
        has_prefix(ascii_lower(model.id@), "unsloth/"@) ==> gguf_present_spec(model),
        has_prefix(ascii_lower(model.id@), "bartowski/"@) ==> gguf_present_spec(model),
        has_prefix(ascii_lower(model.id@), "lmstudio-community/"@) ==> gguf_present_spec(model),
        has_prefix(ascii_lower(model.id@), "thebloke/"@) ==> gguf_present_spec(model),
        has_prefix(ascii_lower(model.id@), "maziyarpanahi/"@) ==> gguf_present_spec(model),
        (model.library_name matches Some(l) && l@ == "gguf"@) ==> gguf_present_spec(model),
        gguf_present_spec(model) ==> (model.library_name matches Some(l) && l@ == "gguf"@)
            || has_prefix(ascii_lower(model.id@), "unsloth/"@) || has_prefix(
            ascii_lower(model.id@),
            "bartowski/"@,
        ) || has_prefix(ascii_lower(model.id@), "lmstudio-community/"@) || has_prefix(
            ascii_lower(model.id@),
            "thebloke/"@,
        ) || has_prefix(ascii_lower(model.id@), "maziyarpanahi/"@),
{
}

/// The license whitelist, stated per family on the lower-cased name:
/// `apache-2.0` and `mit` score 10 tenths; every `llama3*` license, `gemma` and
/// `gemma2` score 7; `exaone` and every `nvidia*` license score 4; a license
/// scores 0 exactly when it is none of these.
pub proof fn law_license_whitelist(license: Seq<char>)
    ensures
        ascii_lower(license) == "apache-2.0"@ ==> tier_tenths(license_tier_spec(license)) == 10,
        ascii_lower(license) == "mit"@ ==> tier_tenths(license_tier_spec(license)) == 10,
        has_prefix(ascii_lower(license), "llama3"@) ==> tier_tenths(license_tier_spec(license)) == 7,
        ascii_lower(license) == "gemma"@ ==> tier_tenths(license_tier_spec(license)) == 7,
        ascii_lower(license) == "gemma2"@ ==> tier_tenths(license_tier_spec(license)) == 7,
        ascii_lower(license) == "exaone"@ ==> tier_tenths(license_tier_spec(license)) == 4,
        has_prefix(ascii_lower(license), "nvidia"@) ==> tier_tenths(license_tier_spec(license)) == 4,
        (tier_tenths(license_tier_spec(license)) == 0) == !(ascii_lower(license) == "apache-2.0"@
            || ascii_lower(license) == "mit"@ || has_prefix(ascii_lower(license), "llama3"@)
            || ascii_lower(license) == "gemma"@ || ascii_lower(license) == "gemma2"@
            || ascii_lower(license) == "exaone"@ || has_prefix(ascii_lower(license), "nvidia"@)),
{
    reveal_strlit("apache-2.0");
    reveal_strlit("mit");
    reveal_strlit("llama3");
    reveal_strlit("gemma");
    reveal_strlit("gemma2");
    reveal_strlit("exaone");
    reveal_strlit("nvidia");
    reveal_strlit("nvidia-open");
    reveal_strlit("nvidia-open-model-license");
    let l = ascii_lower(license);
    if has_prefix(l, "llama3"@) {
        assert(l[0] == "llama3"@[0]);
    }
    if has_prefix(l, "nvidia"@) {
        assert(l[0] == "nvidia"@[0]);
    }
    if l == "exaone"@ {
        assert(l[0] == 'e');
        if has_prefix(l, "llama3"@) {
            assert(l.subrange(0, 6)[0] == 'l');
        }
    }
    if l == "nvidia-open"@ {
        assert(l.subrange(0, 6) =~= "nvidia"@);
    }
    if l == "nvidia-open-model-license"@ {
        assert(l.subrange(0, 6) =~= "nvidia"@);
    }
}

/// Decimal literals are exactly the texts `d` and `d.d` with `d` one or more
/// ASCII digits (so `0.5`, `7` and `14` are ones, leading zeros included).
pub proof fn law_decimal_literal_shapes(a: Seq<char>, b: Seq<char>, s: Seq<char>)
    ensures
        a.len() > 0 && all_ascii_digits(a) ==> is_decimal_literal(a),
        a.len() > 0 && all_ascii_digits(a) && b.len() > 0 && all_ascii_digits(b)
            ==> is_decimal_literal(a + "."@ + b),
        is_decimal_literal(s) ==> (s.len() > 0 && all_ascii_digits(s)) || exists|k: int|
            0 < k < s.len() - 1 && #[trigger] s[k] == '.' && all_ascii_digits(s.take(k))
                && all_ascii_digits(s.skip(k + 1)),
{
    reveal_strlit(".");
    if a.len() > 0 && all_ascii_digits(a) {
        assert forall|i: int, j: int|
            0 <= i < a.len() && 0 <= j < a.len() && #[trigger] a[i] == '.' && #[trigger] a[j]
                == '.' implies i == j by {
            assert(is_ascii_digit(a[i]));
        }
        assert(is_ascii_digit(a[0]));
        assert(is_ascii_digit(a[a.len() - 1]));
    }
    if a.len() > 0 && all_ascii_digits(a) && b.len() > 0 && all_ascii_digits(b) {
        let t = a + "."@ + b;
        let k = a.len() as int;
        assert(t[k] == '.');
        assert forall|i: int| 0 <= i < t.len() implies is_ascii_digit(#[trigger] t[i]) || t[i]
            == '.' by {
            if i < k {
                assert(t[i] == a[i]);
            } else if i > k {
                assert(t[i] == b[i - k - 1]);
            }
        }
        assert forall|i: int, j: int|
            0 <= i < t.len() && 0 <= j < t.len() && #[trigger] t[i] == '.' && #[trigger] t[j]
                == '.' implies i == j by {
            if i < k {
                assert(t[i] == a[i]);
                assert(is_ascii_digit(a[i]));
            } else if i > k {
                assert(t[i] == b[i - k - 1]);
                assert(is_ascii_digit(b[i - k - 1]));
            }
            if j < k {
                assert(t[j] == a[j]);
                assert(is_ascii_digit(a[j]));
            } else if j > k {
                assert(t[j] == b[j - k - 1]);
                assert(is_ascii_digit(b[j - k - 1]));
            }
        }
        assert(t[0] == a[0]);
        assert(is_ascii_digit(a[0]));
        assert(t[t.len() - 1] == b[b.len() - 1]);
        assert(is_ascii_digit(b[b.len() - 1]));
    }
    if is_decimal_literal(s) && !(s.len() > 0 && all_ascii_digits(s)) {
        let k = choose|k: int| 0 <= k < s.len() && !is_ascii_digit(#[trigger] s[k]);
        assert(s[k] == '.');
        assert(k != 0);
        assert(k != s.len() - 1);
        assert forall|i: int| 0 <= i < s.take(k).len() implies is_ascii_digit(#[trigger] s.take(k)[i]) by {
            assert(s.take(k)[i] == s[i]);
            if s[i] == '.' {
                assert(i == k);
            }
        }
        assert forall|i: int| 0 <= i < s.skip(k + 1).len() implies is_ascii_digit(
            #[trigger] s.skip(k + 1)[i],
        ) by {
            assert(s.skip(k + 1)[i] == s[i + k + 1]);
            if s[i + k + 1] == '.' {
                assert(i + k + 1 == k);
            }
        }
    }
}

/// The size token picked from a list is a decimal literal of that list, and
/// none after it is one; when none is picked, no token is a decimal literal.
pub proof fn law_last_decimal_picks_last_number(tokens: Seq<Seq<char>>)
    ensures
        last_decimal(tokens) matches Some(x) ==> exists|i: int|
            0 <= i < tokens.len() && #[trigger] tokens[i] == x && is_decimal_literal(x) && forall|
                j: int,
            |
                i < j < tokens.len() ==> !is_decimal_literal(#[trigger] tokens[j]),
        last_decimal(tokens) is None ==> forall|i: int|
            0 <= i < tokens.len() ==> !is_decimal_literal(#[trigger] tokens[i]),
    decreases tokens.len(),
{
    if tokens.len() > 0 {
        let init = tokens.drop_last();
        law_last_decimal_picks_last_number(init);
        let n = tokens.len() - 1;
        if is_decimal_literal(tokens.last()) {
            assert(tokens[n] == tokens.last());
        } else {
            if let Some(x) = last_decimal(tokens) {
                let i = choose|i: int|
                    0 <= i < init.len() && #[trigger] init[i] == x && is_decimal_literal(x)
                        && forall|j: int| i < j < init.len() ==> !is_decimal_literal(#[trigger] init[j]);
                assert(tokens[i] == x);
                assert forall|j: int| i < j < tokens.len() implies !is_decimal_literal(
                    #[trigger] tokens[j],
                ) by {
                    if j < n {
                        assert(tokens[j] == init[j]);
                    }
                }
            } else {
                assert forall|i: int| 0 <= i < tokens.len() implies !is_decimal_literal(
                    #[trigger] tokens[i],
                ) by {
                    if i < n {
                        assert(tokens[i] == init[i]);
                    }
                }
            }
        }
    }
}

proof fn lemma_lower_idempotent(s: Seq<char>)
    ensures
        ascii_lower(ascii_lower(s)) == ascii_lower(s),
{
    assert forall|i: int| 0 <= i < s.len() implies #[trigger] ascii_lower(ascii_lower(s))[i]
        == ascii_lower(s)[i] by {
        let c = s[i];
        if 'A' <= c && c <= 'Z' {
            assert('a' as int == 'A' as int + 32);
            assert('z' as int == 'Z' as int + 32);
        }
    }
    assert(ascii_lower(ascii_lower(s)) =~= ascii_lower(s));
}

/// License names are compared without regard to ASCII case: `MIT` is `mit`.
pub proof fn law_license_tier_ignores_case(license: Seq<char>)
    ensures
        license_tier_spec(ascii_lower(license)) == license_tier_spec(license),
{
    lemma_lower_idempotent(license);
}

/// Mirror authors are recognised without regard to ASCII case.
pub proof fn law_mirror_ignores_case(id: Seq<char>)
    ensures
        is_mirror_id(ascii_lower(id)) == is_mirror_id(id),
{
    lemma_lower_idempotent(id);
}

/// A candidate is excluded exactly when its license scores 0, that is, when it
/// is outside the whitelist; otherwise the size gate's verdict stands.
pub proof fn law_excluded_iff_license_scores_zero(tier: LicenseTier, size_queue: Queue)
    requires
        size_queue != Queue::Excluded,
    ensures
        (candidate_queue_spec(tier, size_queue) == Queue::Excluded) == (tier_tenths(tier) == 0),
        tier_tenths(tier) == 0 <==> tier == LicenseTier::Unlisted,
        tier != LicenseTier::Unlisted ==> candidate_queue_spec(tier, size_queue) == size_queue,
{
}

} // verus!
