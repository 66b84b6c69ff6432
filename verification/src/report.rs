//! The markdown report filed as a GitHub issue: front matter for
//! `JasonEtco/create-an-issue`, then one section per queue with its candidates
//! in descending score order, at most `top_n` per section.

use vstd::prelude::*;

use crate::filter::Queue;
use crate::text::{decimal, has_prefix, push_decimal};

verus! {

/// One candidate as the report shows it. The numbers of a candidate are held
/// as the text the report prints for them, and its score also as an order key.
pub struct ReportEntry {
    /// `<author>/<repo>`.
    pub id: String,
    /// The queue the candidate is in.
    pub queue: Queue,
    /// A key that orders candidates as their scores do (a higher key is a higher score).
    pub score_key: u64,
    /// The score as printed, e.g. `0.500`.
    pub score_text: String,
    /// The size as printed, e.g. `7B` or `?`.
    pub size_text: String,
    /// The Open LLM component as printed.
    pub open_llm_text: String,
    /// The downloads component as printed.
    pub downloads_text: String,
    /// The Korean component as printed.
    pub korean_text: String,
    /// The license component as printed.
    pub license_text: String,
    /// The GGUF component as printed.
    pub gguf_text: String,
}

/// The mathematical content of a [`ReportEntry`].
pub struct EntryView {
    pub id: Seq<char>,
    pub queue: Queue,
    pub key: u64,
    pub score: Seq<char>,
    pub size: Seq<char>,
    pub open_llm: Seq<char>,
    pub downloads: Seq<char>,
    pub korean: Seq<char>,
    pub license: Seq<char>,
    pub gguf: Seq<char>,
}

impl View for ReportEntry {
    type V = EntryView;

    open spec fn view(&self) -> EntryView {
        EntryView {
            id: self.id@,
            queue: self.queue,
            key: self.score_key,
            score: self.score_text@,
            size: self.size_text@,
            open_llm: self.open_llm_text@,
            downloads: self.downloads_text@,
            korean: self.korean_text@,
            license: self.license_text@,
            gguf: self.gguf_text@,
        }
    }
}

/// The views of a list of entries.
pub open spec fn entry_views(es: Seq<ReportEntry>) -> Seq<EntryView> {
    es.map_values(|e: ReportEntry| e@)
}

/// The entries of one queue, in input order.
pub open spec fn in_queue(es: Seq<EntryView>, q: Queue) -> Seq<EntryView> {
    es.filter(|e: EntryView| e.queue == q)
}

/// Inserts `x` into `s` after every leading entry whose key is at least `x`'s.
pub open spec fn insert_by_key(x: EntryView, s: Seq<EntryView>) -> Seq<EntryView>
    decreases s.len(),
{
    if s.len() == 0 {
        seq![x]
    } else if s[0].key >= x.key {
        seq![s[0]] + insert_by_key(x, s.drop_first())
    } else {
        seq![x] + s
    }
}

/// Stable sort by descending key: entries with equal keys keep their order.
pub open spec fn sort_by_key_desc(s: Seq<EntryView>) -> Seq<EntryView>
    decreases s.len(),
{
    if s.len() == 0 {
        s
    } else {
        insert_by_key(s.last(), sort_by_key_desc(s.drop_last()))
    }
}

/// The entries of a queue in the order the report lists them.
pub open spec fn ranked(es: Seq<EntryView>, q: Queue) -> Seq<EntryView> {
    sort_by_key_desc(in_queue(es, q))
}

/// The first `n` entries, or all of them when there are fewer.
pub open spec fn first_n(s: Seq<EntryView>, n: nat) -> Seq<EntryView> {
    if n < s.len() {
        s.take(n as int)
    } else {
        s
    }
}

/// The block of one candidate at a given rank.
pub open spec fn candidate_block(e: EntryView, rank: nat) -> Seq<char> {
    "### "@ + decimal(rank) + ". `"@ + e.id + "` — score "@ + e.score + "\n\n"@ + "- size: "@
        + e.size + " / Open_LLM="@ + e.open_llm + " / downloads="@ + e.downloads + " / korean="@
        + e.korean + " / license="@ + e.license + " / gguf="@ + e.gguf + "\n"@
        + "- HuggingFace: https://huggingface.co/"@ + e.id + "\n\n"@
}

/// The blocks of a list of candidates, ranked from 1.
pub open spec fn candidate_blocks(s: Seq<EntryView>) -> Seq<char>
    decreases s.len(),
{
    if s.len() == 0 {
        Seq::empty()
    } else {
        candidate_blocks(s.drop_last()) + candidate_block(s.last(), s.len())
    }
}

/// One bullet per candidate id.
pub open spec fn id_lines(s: Seq<EntryView>) -> Seq<char>
    decreases s.len(),
{
    if s.len() == 0 {
        Seq::empty()
    } else {
        id_lines(s.drop_last()) + "- `"@ + s.last().id + "`\n"@
    }
}

/// The front matter and the introduction.
pub open spec fn report_header() -> Seq<char> {
    "---\ntitle: \"Trending Watcher — 큐레이션 review queue\"\nlabels: auto-curate, trending-watcher, needs-review\nassignees: freessunky-bit\n---\n\n> 자동 발견된 후보예요. 큐레이터가 검토 후 LMmaster 본 repo에 manifest PR을 올려 주세요.\n> 검토 체크리스트는 [CURATION_GUIDE.md](../CURATION_GUIDE.md) 참고.\n\n생성: {{ env.GENERATED_AT }}\n\n"@
}

/// The closing lines.
pub open spec fn report_footer() -> Seq<char> {
    "---\n\n본 issue는 6시간마다 자동 갱신돼요 (`update_existing: true`). 닫지 말고 검토 댓글로 처리해 주세요.\n"@
}

/// The review section.
pub open spec fn review_section(r: Seq<EntryView>, top_n: nat) -> Seq<char> {
    "## Review queue — "@ + decimal(r.len()) + " 건 (사이즈 3~14B + license 통과)\n\n"@ + if r.len()
        == 0 {
        "이번 cron에서 정식 큐 후보가 없어요.\n\n"@
    } else {
        candidate_blocks(first_n(r, top_n))
    }
}

/// The info-only section.
pub open spec fn info_section(r: Seq<EntryView>, top_n: nat) -> Seq<char> {
    "## Info-only — "@ + decimal(r.len()) + " 건 (사이즈 외이)\n\n"@ + if r.len() == 0 {
        "(없음)\n\n"@
    } else {
        candidate_blocks(first_n(r, top_n))
    }
}

/// The excluded section: ids only.
pub open spec fn excluded_section(r: Seq<EntryView>, top_n: nat) -> Seq<char> {
    "## Excluded — "@ + decimal(r.len()) + " 건 (license 화이트리스트 미통과)\n\n"@ + if r.len()
        == 0 {
        "(없음)\n\n"@
    } else {
        "자동 제외된 후보 ID만 나열해요. 라이선스 매핑 갱신 시 다시 보일 수 있어요.\n\n"@ + id_lines(
            first_n(r, top_n),
        ) + "\n"@
    }
}

/// The whole report for a list of candidates.
pub open spec fn report_spec(es: Seq<EntryView>, top_n: nat) -> Seq<char> {
    report_header() + review_section(ranked(es, Queue::Review), top_n) + info_section(
        ranked(es, Queue::InfoOnly),
        top_n,
    ) + excluded_section(ranked(es, Queue::Excluded), top_n) + report_footer()
}


/// The views of the entries that a list of positions points at.
pub open spec fn index_views(es: Seq<ReportEntry>, idx: Seq<usize>) -> Seq<EntryView> {
    idx.map_values(|i: usize| es[i as int]@)
}

proof fn lemma_insert_by_key_split(x: EntryView, s: Seq<EntryView>, p: int)
    requires
        0 <= p <= s.len(),
        forall|j: int| 0 <= j < p ==> (#[trigger] s[j]).key >= x.key,
        p < s.len() ==> s[p].key < x.key,
    ensures
        insert_by_key(x, s) == s.take(p).push(x) + s.skip(p),
    decreases s.len(),
{
    if s.len() == 0 {
        assert(s.take(p).push(x) + s.skip(p) =~= seq![x]);
    } else if p == 0 {
        assert(s.take(0).push(x) + s.skip(0) =~= seq![x] + s);
    } else {
        let t = s.drop_first();
        assert forall|j: int| 0 <= j < p - 1 implies (#[trigger] t[j]).key >= x.key by {
            assert(t[j] == s[j + 1]);
        }
        lemma_insert_by_key_split(x, t, p - 1);
        assert(seq![s[0]] + (t.take(p - 1).push(x) + t.skip(p - 1)) =~= s.take(p).push(x) + s.skip(p));
    }
}

proof fn lemma_in_queue_step(v: Seq<EntryView>, i: int, q: Queue)
    requires
        0 <= i < v.len(),
    ensures
        in_queue(v.take(i + 1), q) == if v[i].queue == q {
            in_queue(v.take(i), q).push(v[i])
        } else {
            in_queue(v.take(i), q)
        },
{
    reveal(Seq::filter);
    assert(v.take(i + 1).drop_last() =~= v.take(i));
    assert(v.take(i + 1).last() == v[i]);
}

proof fn lemma_sort_push(s: Seq<EntryView>, x: EntryView)
    ensures
        sort_by_key_desc(s.push(x)) == insert_by_key(x, sort_by_key_desc(s)),
{
    assert(s.push(x).drop_last() =~= s);
}

/// Positions of the entries of queue `q`, in the order the report lists them.
fn ranked_indices(es: &[ReportEntry], q: Queue) -> (r: Vec<usize>)
    ensures
        forall|j: int| 0 <= j < r@.len() ==> r@[j] < es@.len(),
        index_views(es@, r@) == ranked(entry_views(es@), q),
{
    let ghost v = entry_views(es@);
    let n = es.len();
    let mut sorted: Vec<usize> = Vec::new();
    let mut i: usize = 0;
    assert(index_views(es@, sorted@) =~= sort_by_key_desc(in_queue(v.take(0), q))) by {
        reveal(Seq::filter);
    }
    while i < n
        invariant
            n == es@.len(),
            v == entry_views(es@),
            i <= n,
            forall|j: int| 0 <= j < sorted@.len() ==> sorted@[j] < n,
            index_views(es@, sorted@) == sort_by_key_desc(in_queue(v.take(i as int), q)),
        decreases n - i,
    {
        proof {
            lemma_in_queue_step(v, i as int, q);
        }
        if es[i].queue == q {
            let key = es[i].score_key;
            let ghost cur = index_views(es@, sorted@);
            let mut p: usize = 0;
            while p < sorted.len() && es[sorted[p]].score_key >= key
                invariant
                    p <= sorted@.len(),
                    forall|j: int| 0 <= j < sorted@.len() ==> sorted@[j] < n,
                    n == es@.len(),
                    cur == index_views(es@, sorted@),
                    key == es@[i as int].score_key,
                    forall|j: int| 0 <= j < p ==> (#[trigger] cur[j]).key >= key,
                decreases sorted@.len() - p,
            {
                p = p + 1;
            }
            proof {
                assert(v[i as int] == es@[i as int]@);
                lemma_insert_by_key_split(v[i as int], cur, p as int);
                lemma_sort_push(in_queue(v.take(i as int), q), v[i as int]);
            }
            sorted.insert(p, i);
            assert(index_views(es@, sorted@) =~= cur.take(p as int).push(v[i as int]) + cur.skip(p as int));
        }
        i = i + 1;
    }
    assert(v.take(n as int) =~= v);
    sorted
}

/// Appends the block of one candidate at a given rank: its header line with the
/// score, its size and score components, and its HuggingFace link.
pub fn write_candidate_block(out: &mut String, e: &ReportEntry, rank: usize)
    ensures
        final(out)@ == old(out)@ + candidate_block(e@, rank as nat),
{
    out.append("### ");
    push_decimal(out, rank as u64);
    out.append(". `");
    out.append(e.id.as_str());
    out.append("` — score ");
    out.append(e.score_text.as_str());
    out.append("\n\n");
    out.append("- size: ");
    out.append(e.size_text.as_str());
    out.append(" / Open_LLM=");
    out.append(e.open_llm_text.as_str());
    out.append(" / downloads=");
    out.append(e.downloads_text.as_str());
    out.append(" / korean=");
    out.append(e.korean_text.as_str());
    out.append(" / license=");
    out.append(e.license_text.as_str());
    out.append(" / gguf=");
    out.append(e.gguf_text.as_str());
    out.append("\n");
    out.append("- HuggingFace: https://huggingface.co/");
    out.append(e.id.as_str());
    out.append("\n\n");
    assert(out@ =~= old(out)@ + candidate_block(e@, rank as nat));
}

fn limit(len: usize, top_n: usize) -> (r: usize)
    ensures
        r == if top_n < len { top_n } else { len },
{
    if top_n < len { top_n } else { len }
}

fn push_candidate_blocks(out: &mut String, es: &[ReportEntry], idx: &Vec<usize>, top_n: usize)
    requires
        forall|j: int| 0 <= j < idx@.len() ==> idx@[j] < es@.len(),
    ensures
        final(out)@ == old(out)@ + candidate_blocks(first_n(index_views(es@, idx@), top_n as nat)),
{
    let ghost sel = first_n(index_views(es@, idx@), top_n as nat);
    let m = limit(idx.len(), top_n);
    let mut k: usize = 0;
    assert(sel.take(0) =~= Seq::<EntryView>::empty());
    while k < m
        invariant
            m == sel.len(),
            m <= idx@.len(),
            sel == first_n(index_views(es@, idx@), top_n as nat),
            forall|j: int| 0 <= j < idx@.len() ==> idx@[j] < es@.len(),
            k <= m,
            out@ == old(out)@ + candidate_blocks(sel.take(k as int)),
        decreases m - k,
    {
        let e = &es[idx[k]];
        assert(sel[k as int] == e@);
        write_candidate_block(out, e, k + 1);
        assert(sel.take(k + 1).drop_last() =~= sel.take(k as int));
        assert(candidate_blocks(sel.take(k + 1)) == candidate_blocks(sel.take(k as int))
            + candidate_block(sel[k as int], (k + 1) as nat));
        assert(out@ =~= old(out)@ + candidate_blocks(sel.take(k + 1)));
        k = k + 1;
    }
    assert(sel.take(m as int) =~= sel);
}

fn push_id_lines(out: &mut String, es: &[ReportEntry], idx: &Vec<usize>, top_n: usize)
    requires
        forall|j: int| 0 <= j < idx@.len() ==> idx@[j] < es@.len(),
    ensures
        final(out)@ == old(out)@ + id_lines(first_n(index_views(es@, idx@), top_n as nat)),
{
    let ghost sel = first_n(index_views(es@, idx@), top_n as nat);
    let m = limit(idx.len(), top_n);
    let mut k: usize = 0;
    assert(sel.take(0) =~= Seq::<EntryView>::empty());
    while k < m
        invariant
            m == sel.len(),
            m <= idx@.len(),
            sel == first_n(index_views(es@, idx@), top_n as nat),
            forall|j: int| 0 <= j < idx@.len() ==> idx@[j] < es@.len(),
            k <= m,
            out@ == old(out)@ + id_lines(sel.take(k as int)),
        decreases m - k,
    {
        let e = &es[idx[k]];
        assert(sel[k as int] == e@);
        out.append("- `");
        out.append(e.id.as_str());
        out.append("`\n");
        assert(sel.take(k + 1).drop_last() =~= sel.take(k as int));
        assert(out@ =~= old(out)@ + id_lines(sel.take(k + 1)));
        k = k + 1;
    }
    assert(sel.take(m as int) =~= sel);
}


fn push_review_section(out: &mut String, es: &[ReportEntry], idx: &Vec<usize>, top_n: usize)
    requires
        forall|j: int| 0 <= j < idx@.len() ==> idx@[j] < es@.len(),
    ensures
        final(out)@ == old(out)@ + review_section(index_views(es@, idx@), top_n as nat),
{
    let ghost r = index_views(es@, idx@);
    out.append("## Review queue — ");
    push_decimal(out, idx.len() as u64);
    out.append(" 건 (사이즈 3~14B + license 통과)\n\n");
    if idx.len() == 0 {
        out.append("이번 cron에서 정식 큐 후보가 없어요.\n\n");
    } else {
        push_candidate_blocks(out, es, idx, top_n);
    }
    assert(out@ =~= old(out)@ + review_section(r, top_n as nat));
}

fn push_info_section(out: &mut String, es: &[ReportEntry], idx: &Vec<usize>, top_n: usize)
    requires
        forall|j: int| 0 <= j < idx@.len() ==> idx@[j] < es@.len(),
    ensures
        final(out)@ == old(out)@ + info_section(index_views(es@, idx@), top_n as nat),
{
    let ghost r = index_views(es@, idx@);
    out.append("## Info-only — ");
    push_decimal(out, idx.len() as u64);
    out.append(" 건 (사이즈 외이)\n\n");
    if idx.len() == 0 {
        out.append("(없음)\n\n");
    } else {
        push_candidate_blocks(out, es, idx, top_n);
    }
    assert(out@ =~= old(out)@ + info_section(r, top_n as nat));
}

fn push_excluded_section(out: &mut String, es: &[ReportEntry], idx: &Vec<usize>, top_n: usize)
    requires
        forall|j: int| 0 <= j < idx@.len() ==> idx@[j] < es@.len(),
    ensures
        final(out)@ == old(out)@ + excluded_section(index_views(es@, idx@), top_n as nat),
{
    let ghost r = index_views(es@, idx@);
    out.append("## Excluded — ");
    push_decimal(out, idx.len() as u64);
    out.append(" 건 (license 화이트리스트 미통과)\n\n");
    if idx.len() == 0 {
        out.append("(없음)\n\n");
    } else {
        out.append("자동 제외된 후보 ID만 나열해요. 라이선스 매핑 갱신 시 다시 보일 수 있어요.\n\n");
        push_id_lines(out, es, idx, top_n);
        out.append("\n");
    }
    assert(out@ =~= old(out)@ + excluded_section(r, top_n as nat));
}

/// Builds the issue body: front matter, then the review, info-only and
/// excluded sections, each listing its candidates by descending score key
/// (ties keep the input order), at most `top_n` of them, under a header that
/// counts all of them.
pub fn generate_report(candidates: &[ReportEntry], top_n: usize) -> (r: String)
    ensures
        r@ == report_spec(entry_views(candidates@), top_n as nat),
{
    let review = ranked_indices(candidates, Queue::Review);
    let info_only = ranked_indices(candidates, Queue::InfoOnly);
    let excluded = ranked_indices(candidates, Queue::Excluded);
    let mut s = String::from_str(
        "---\ntitle: \"Trending Watcher — 큐레이션 review queue\"\nlabels: auto-curate, trending-watcher, needs-review\nassignees: freessunky-bit\n---\n\n> 자동 발견된 후보예요. 큐레이터가 검토 후 LMmaster 본 repo에 manifest PR을 올려 주세요.\n> 검토 체크리스트는 [CURATION_GUIDE.md](../CURATION_GUIDE.md) 참고.\n\n생성: {{ env.GENERATED_AT }}\n\n",
    );
    push_review_section(&mut s, candidates, &review, top_n);
    push_info_section(&mut s, candidates, &info_only, top_n);
    push_excluded_section(&mut s, candidates, &excluded, top_n);
    s.append(
        "---\n\n본 issue는 6시간마다 자동 갱신돼요 (`update_existing: true`). 닫지 말고 검토 댓글로 처리해 주세요.\n",
    );
    s
}


/// Keys never increase along `s`.
pub open spec fn sorted_by_key_desc(s: Seq<EntryView>) -> bool {
    forall|i: int, j: int| 0 <= i < j < s.len() ==> (#[trigger] s[i]).key >= (#[trigger] s[j]).key
}

/// The predicate "has key `k`".
pub open spec fn key_is(k: u64) -> spec_fn(EntryView) -> bool {
    |e: EntryView| e.key == k
}

proof fn lemma_insert_multiset(x: EntryView, s: Seq<EntryView>)
    ensures
        insert_by_key(x, s).to_multiset() =~= s.to_multiset().insert(x),
    decreases s.len(),
{
    broadcast use vstd::seq_lib::group_to_multiset_ensures;
    broadcast use vstd::multiset::group_multiset_axioms;

    if s.len() == 0 {
        assert(seq![x] =~= s.push(x));
    } else {
        let t = s.drop_first();
        assert(s =~= seq![s[0]] + t);
        vstd::seq_lib::lemma_multiset_commutative(seq![s[0]], t);
        if s[0].key >= x.key {
            lemma_insert_multiset(x, t);
            vstd::seq_lib::lemma_multiset_commutative(seq![s[0]], insert_by_key(x, t));
        } else {
            vstd::seq_lib::lemma_multiset_commutative(seq![x], s);
            assert(seq![x] =~= Seq::<EntryView>::empty().push(x));
        }
    }
}

proof fn lemma_sort_multiset(s: Seq<EntryView>)
    ensures
        sort_by_key_desc(s).to_multiset() =~= s.to_multiset(),
    decreases s.len(),
{
    broadcast use vstd::seq_lib::group_to_multiset_ensures;

    if s.len() > 0 {
        lemma_sort_multiset(s.drop_last());
        lemma_insert_multiset(s.last(), sort_by_key_desc(s.drop_last()));
        assert(s.drop_last().push(s.last()) =~= s);
    }
}

proof fn lemma_insert_sorted(x: EntryView, s: Seq<EntryView>)
    requires
        sorted_by_key_desc(s),
    ensures
        sorted_by_key_desc(insert_by_key(x, s)),
    decreases s.len(),
{
    broadcast use vstd::seq_lib::group_to_multiset_ensures;
    broadcast use vstd::multiset::group_multiset_axioms;

    if s.len() > 0 {
        let t = s.drop_first();
        if s[0].key >= x.key {
            assert(sorted_by_key_desc(t)) by {
                assert forall|i: int, j: int| 0 <= i < j < t.len() implies (#[trigger] t[i]).key
                    >= (#[trigger] t[j]).key by {
                    assert(t[i] == s[i + 1] && t[j] == s[j + 1]);
                }
            }
            lemma_insert_sorted(x, t);
            lemma_insert_multiset(x, t);
            let r = insert_by_key(x, t);
            assert forall|j: int| 0 <= j < r.len() implies s[0].key >= (#[trigger] r[j]).key by {
                assert(r.to_multiset().count(r[j]) > 0);
                if r[j] != x {
                    assert(t.to_multiset().count(r[j]) > 0);
                    assert(t.contains(r[j]));
                    let k = choose|k: int| 0 <= k < t.len() && t[k] == r[j];
                    assert(s[k + 1] == t[k]);
                }
            }
            let whole = seq![s[0]] + r;
            assert forall|i: int, j: int| 0 <= i < j < whole.len() implies (#[trigger] whole[i]).key
                >= (#[trigger] whole[j]).key by {
                if i == 0 {
                    assert(whole[j] == r[j - 1]);
                } else {
                    assert(whole[i] == r[i - 1] && whole[j] == r[j - 1]);
                }
            }
        } else {
            let whole = seq![x] + s;
            assert forall|i: int, j: int| 0 <= i < j < whole.len() implies (#[trigger] whole[i]).key
                >= (#[trigger] whole[j]).key by {
                if i == 0 {
                    assert(whole[j] == s[j - 1]);
                    if j > 1 {
                        assert(s[0].key >= s[j - 1].key);
                    }
                } else {
                    assert(whole[i] == s[i - 1] && whole[j] == s[j - 1]);
                }
            }
        }
    }
}

proof fn lemma_sort_sorted(s: Seq<EntryView>)
    ensures
        sorted_by_key_desc(sort_by_key_desc(s)),
    decreases s.len(),
{
    if s.len() > 0 {
        lemma_sort_sorted(s.drop_last());
        lemma_insert_sorted(s.last(), sort_by_key_desc(s.drop_last()));
    }
}

proof fn lemma_filter_none(s: Seq<EntryView>, k: u64)
    requires
        forall|j: int| 0 <= j < s.len() ==> (#[trigger] s[j]).key != k,
    ensures
        s.filter(key_is(k)) =~= Seq::<EntryView>::empty(),
    decreases s.len(),
{
    reveal(Seq::filter);
    if s.len() > 0 {
        lemma_filter_none(s.drop_last(), k);
        assert(s.last() == s[s.len() - 1]);
    }
}

proof fn lemma_filter_single(x: EntryView, k: u64)
    ensures
        seq![x].filter(key_is(k)) =~= if x.key == k { seq![x] } else { Seq::<EntryView>::empty() },
{
    reveal(Seq::filter);
    let e = Seq::<EntryView>::empty();
    assert(seq![x].drop_last() =~= e);
    assert(e.filter(key_is(k)) =~= e);
    assert(seq![x].last() == x);
    assert(key_is(k)(x) == (x.key == k));
    assert(seq![x].filter(key_is(k)) == if key_is(k)(x) { e.filter(key_is(k)).push(x) } else { e.filter(key_is(k)) });
    assert(e.push(x) =~= seq![x]);
}

proof fn lemma_insert_filter(x: EntryView, s: Seq<EntryView>, k: u64)
    requires
        sorted_by_key_desc(s),
    ensures
        insert_by_key(x, s).filter(key_is(k)) =~= if x.key == k {
            s.filter(key_is(k)).push(x)
        } else {
            s.filter(key_is(k))
        },
    decreases s.len(),
{
    broadcast use vstd::seq_lib::group_seq_lib_default;

    if s.len() == 0 {
        lemma_filter_single(x, k);
        reveal(Seq::filter);
    } else {
        let t = s.drop_first();
        assert(s =~= seq![s[0]] + t);
        lemma_filter_single(s[0], k);
        if s[0].key >= x.key {
            assert(sorted_by_key_desc(t)) by {
                assert forall|i: int, j: int| 0 <= i < j < t.len() implies (#[trigger] t[i]).key
                    >= (#[trigger] t[j]).key by {
                    assert(t[i] == s[i + 1] && t[j] == s[j + 1]);
                }
            }
            lemma_insert_filter(x, t, k);
        } else {
            lemma_filter_single(x, k);
            if x.key == k {
                assert forall|j: int| 0 <= j < s.len() implies (#[trigger] s[j]).key != k by {
                    if j > 0 {
                        assert(s[0].key >= s[j].key);
                    }
                }
                lemma_filter_none(s, k);
            }
        }
    }
}

proof fn lemma_sort_filter(s: Seq<EntryView>, k: u64)
    ensures
        sort_by_key_desc(s).filter(key_is(k)) =~= s.filter(key_is(k)),
    decreases s.len(),
{
    if s.len() > 0 {
        lemma_sort_filter(s.drop_last(), k);
        lemma_sort_sorted(s.drop_last());
        lemma_insert_filter(s.last(), sort_by_key_desc(s.drop_last()), k);
        reveal(Seq::filter);
    }
}

/// Each section lists its candidates by descending score key.
pub proof fn law_ranked_sorted(es: Seq<EntryView>, q: Queue)
    ensures
        sorted_by_key_desc(ranked(es, q)),
{
    lemma_sort_sorted(in_queue(es, q));
}

/// Each section lists exactly the candidates of its queue, each as often as it
/// occurs (the sort loses and adds nothing), so its header counts them all.
pub proof fn law_ranked_is_permutation(es: Seq<EntryView>, q: Queue)
    ensures
        ranked(es, q).to_multiset() == in_queue(es, q).to_multiset(),
        ranked(es, q).len() == in_queue(es, q).len(),
        forall|i: int| 0 <= i < ranked(es, q).len() ==> (#[trigger] ranked(es, q)[i]).queue == q,
{
    broadcast use vstd::seq_lib::group_to_multiset_ensures;
    broadcast use vstd::seq_lib::group_filter_ensures;

    let r = ranked(es, q);
    let g = in_queue(es, q);
    lemma_sort_multiset(g);
    assert(r.len() == r.to_multiset().len());
    assert forall|i: int| 0 <= i < r.len() implies (#[trigger] r[i]).queue == q by {
        assert(r.to_multiset().count(r[i]) > 0);
        assert(g.contains(r[i]));
        let j = choose|j: int| 0 <= j < g.len() && g[j] == r[i];
        assert((|e: EntryView| e.queue == q)(g[j]));
    }
}

/// The sort is stable: candidates with equal score keys appear in the order
/// they were given.
pub proof fn law_ranked_is_stable(es: Seq<EntryView>, q: Queue, k: u64)
    ensures
        ranked(es, q).filter(key_is(k)) == in_queue(es, q).filter(key_is(k)),
{
    lemma_sort_filter(in_queue(es, q), k);
}


proof fn lemma_prefix_trans(a: Seq<char>, b: Seq<char>, c: Seq<char>)
    requires
        has_prefix(c, b),
        has_prefix(b, a),
    ensures
        has_prefix(c, a),
{
    assert(c.subrange(0, a.len() as int) =~= b.subrange(0, a.len() as int));
}

proof fn lemma_blocks_prefix(t: Seq<EntryView>, k: int)
    requires
        0 <= k <= t.len(),
    ensures
        has_prefix(candidate_blocks(t), candidate_blocks(t.take(k))),
    decreases t.len() - k,
{
    if k == t.len() {
        assert(t.take(k) =~= t);
        assert(candidate_blocks(t).subrange(0, candidate_blocks(t).len() as int) =~= candidate_blocks(t));
    } else {
        lemma_blocks_prefix(t, k + 1);
        assert(t.take(k + 1).drop_last() =~= t.take(k));
        let a = candidate_blocks(t.take(k));
        let b = candidate_blocks(t.take(k + 1));
        assert(b == a + candidate_block(t.take(k + 1).last(), (k + 1) as nat));
        assert(b.subrange(0, a.len() as int) =~= a);
        lemma_prefix_trans(a, b, candidate_blocks(t));
    }
}

proof fn lemma_lines_prefix(t: Seq<EntryView>, k: int)
    requires
        0 <= k <= t.len(),
    ensures
        has_prefix(id_lines(t), id_lines(t.take(k))),
    decreases t.len() - k,
{
    if k == t.len() {
        assert(t.take(k) =~= t);
        assert(id_lines(t).subrange(0, id_lines(t).len() as int) =~= id_lines(t));
    } else {
        lemma_lines_prefix(t, k + 1);
        assert(t.take(k + 1).drop_last() =~= t.take(k));
        let a = id_lines(t.take(k));
        let b = id_lines(t.take(k + 1));
        assert(b == a + "- `"@ + t[k].id + "`\n"@);
        assert(b.subrange(0, a.len() as int) =~= a);
        lemma_prefix_trans(a, b, id_lines(t));
    }
}

/// Within a section's list of blocks, the blocks of the first `i` candidates
/// are followed by the block of candidate `i` at rank `i + 1`, for every `i`
/// below `top_n`: the list shows the candidates in their ranked order,
/// numbered from 1. (A section lists `ranked(es, q)`.)
pub proof fn law_blocks_follow_the_ranking(s: Seq<EntryView>, top_n: nat, i: int)
    requires
        0 <= i < s.len(),
        i < top_n,
    ensures
        has_prefix(
            candidate_blocks(first_n(s, top_n)),
            candidate_blocks(s.take(i)) + candidate_block(s[i], (i + 1) as nat),
        ),
{
    let t = first_n(s, top_n);
    assert(t.take(i + 1).drop_last() =~= s.take(i));
    assert(t.take(i + 1).last() == s[i]);
    lemma_blocks_prefix(t, i + 1);
}

/// In the excluded section, the id lines of the first `i` candidates are
/// followed by the line of candidate `i`, for every `i` below `top_n`.
pub proof fn law_id_lines_follow_the_ranking(s: Seq<EntryView>, top_n: nat, i: int)
    requires
        0 <= i < s.len(),
        i < top_n,
    ensures
        has_prefix(id_lines(first_n(s, top_n)), id_lines(s.take(i)) + "- `"@ + s[i].id + "`\n"@),
{
    let t = first_n(s, top_n);
    assert(t.take(i + 1).drop_last() =~= s.take(i));
    assert(t.take(i + 1).last() == s[i]);
    lemma_lines_prefix(t, i + 1);
}

/// Within the multiset `m`, an entry is determined by its key.
pub open spec fn key_determines(m: vstd::multiset::Multiset<EntryView>) -> bool {
    forall|x: EntryView, y: EntryView|
        m.count(x) > 0 && m.count(y) > 0 && x.key == y.key ==> x == y
}

proof fn lemma_filter_count(s: Seq<EntryView>, q: Queue, x: EntryView)
    ensures
        in_queue(s, q).to_multiset().count(x) == if x.queue == q {
            s.to_multiset().count(x)
        } else {
            0
        },
    decreases s.len(),
{
    broadcast use vstd::seq_lib::group_to_multiset_ensures;
    broadcast use vstd::multiset::group_multiset_axioms;

    reveal(Seq::filter);
    if s.len() == 0 {
    } else {
        let t = s.drop_last();
        lemma_filter_count(t, q, x);
        assert(t.push(s.last()) =~= s);
    }
}

proof fn lemma_sorted_unique(p: Seq<EntryView>, r: Seq<EntryView>)
    requires
        sorted_by_key_desc(p),
        sorted_by_key_desc(r),
        p.to_multiset() == r.to_multiset(),
        key_determines(p.to_multiset()),
    ensures
        p == r,
    decreases p.len(),
{
    broadcast use vstd::seq_lib::group_to_multiset_ensures;
    broadcast use vstd::multiset::group_multiset_axioms;

    assert(p.len() == p.to_multiset().len());
    assert(r.len() == r.to_multiset().len());
    if p.len() == 0 {
        assert(p =~= r);
    } else {
        assert(p.contains(p[0]));
        assert(p.to_multiset().count(p[0]) > 0);
        assert(r.to_multiset().count(p[0]) > 0);
        assert(r.contains(p[0]));
        let j = choose|j: int| 0 <= j < r.len() && r[j] == p[0];
        assert(r.contains(r[0]));
        assert(r.to_multiset().count(r[0]) > 0);
        assert(p.to_multiset().count(r[0]) > 0);
        assert(p.contains(r[0]));
        let i = choose|i: int| 0 <= i < p.len() && p[i] == r[0];
        if j > 0 {
            assert(r[0].key >= r[j].key);
        }
        if i > 0 {
            assert(p[0].key >= p[i].key);
        }
        assert(p[0].key == r[0].key);
        assert(p[0] == r[0]);
        let p1 = p.drop_first();
        let r1 = r.drop_first();
        assert(p.remove(0) =~= p1);
        assert(r.remove(0) =~= r1);
        assert(p1.to_multiset() =~= r1.to_multiset());
        assert(sorted_by_key_desc(p1)) by {
            assert forall|a: int, b: int| 0 <= a < b < p1.len() implies (#[trigger] p1[a]).key
                >= (#[trigger] p1[b]).key by {
                assert(p1[a] == p[a + 1] && p1[b] == p[b + 1]);
            }
        }
        assert(sorted_by_key_desc(r1)) by {
            assert forall|a: int, b: int| 0 <= a < b < r1.len() implies (#[trigger] r1[a]).key
                >= (#[trigger] r1[b]).key by {
                assert(r1[a] == r[a + 1] && r1[b] == r[b + 1]);
            }
        }
        assert(key_determines(p1.to_multiset())) by {
            assert forall|x: EntryView, y: EntryView|
                p1.to_multiset().count(x) > 0 && p1.to_multiset().count(y) > 0 && x.key
                    == y.key implies x == y by {
                assert(p.to_multiset().count(x) > 0);
                assert(p.to_multiset().count(y) > 0);
            }
        }
        lemma_sorted_unique(p1, r1);
        assert(p =~= r) by {
            assert forall|k: int| 0 <= k < p.len() implies p[k] == r[k] by {
                if k > 0 {
                    assert(p[k] == p1[k - 1] && r[k] == r1[k - 1]);
                }
            }
        }
    }
}

proof fn lemma_ranked_ignores_order(a: Seq<EntryView>, b: Seq<EntryView>, q: Queue)
    requires
        a.to_multiset() == b.to_multiset(),
        forall|i: int, j: int|
            0 <= i < a.len() && 0 <= j < a.len() && i != j && a[i].queue == a[j].queue ==> a[i].key
                != a[j].key,
    ensures
        ranked(a, q) == ranked(b, q),
{
    broadcast use vstd::seq_lib::group_to_multiset_ensures;
    broadcast use vstd::multiset::group_multiset_axioms;

    let ga = in_queue(a, q);
    let gb = in_queue(b, q);
    assert(ga.to_multiset() =~= gb.to_multiset()) by {
        assert forall|x: EntryView| ga.to_multiset().count(x) == gb.to_multiset().count(x) by {
            lemma_filter_count(a, q, x);
            lemma_filter_count(b, q, x);
        }
    }
    assert(key_determines(ga.to_multiset())) by {
        assert forall|x: EntryView, y: EntryView|
            ga.to_multiset().count(x) > 0 && ga.to_multiset().count(y) > 0 && x.key
                == y.key implies x == y by {
            lemma_filter_count(a, q, x);
            lemma_filter_count(a, q, y);
            assert(a.contains(x));
            assert(a.contains(y));
            let i = choose|i: int| 0 <= i < a.len() && a[i] == x;
            let j = choose|j: int| 0 <= j < a.len() && a[j] == y;
        }
    }
    lemma_sort_multiset(ga);
    lemma_sort_multiset(gb);
    lemma_sort_sorted(ga);
    lemma_sort_sorted(gb);
    lemma_sorted_unique(ranked(a, q), ranked(b, q));
}

/// The report does not depend on the order in which candidates are given, as
/// long as no two candidates of one queue share a score key.
pub proof fn law_report_ignores_input_order(a: Seq<EntryView>, b: Seq<EntryView>, top_n: nat)
    requires
        a.to_multiset() == b.to_multiset(),
        forall|i: int, j: int|
            0 <= i < a.len() && 0 <= j < a.len() && i != j && a[i].queue == a[j].queue ==> a[i].key
                != a[j].key,
    ensures
        report_spec(a, top_n) == report_spec(b, top_n),
{
    lemma_ranked_ignores_order(a, b, Queue::Review);
    lemma_ranked_ignores_order(a, b, Queue::InfoOnly);
    lemma_ranked_ignores_order(a, b, Queue::Excluded);
}


/// The first line of the review section, with its blank line.
pub open spec fn review_heading(count: nat) -> Seq<char> {
    "## Review queue — "@ + decimal(count) + " 건 (사이즈 3~14B + license 통과)\n\n"@
}

/// The first line of the info-only section, with its blank line.
pub open spec fn info_heading(count: nat) -> Seq<char> {
    "## Info-only — "@ + decimal(count) + " 건 (사이즈 외이)\n\n"@
}

/// The first line of the excluded section, with its blank line.
pub open spec fn excluded_heading(count: nat) -> Seq<char> {
    "## Excluded — "@ + decimal(count) + " 건 (license 화이트리스트 미통과)\n\n"@
}

/// The explanation that opens a non-empty excluded list.
pub open spec fn excluded_intro() -> Seq<char> {
    "자동 제외된 후보 ID만 나열해요. 라이선스 매핑 갱신 시 다시 보일 수 있어요.\n\n"@
}

proof fn lemma_prefix_extend(a: Seq<char>, b: Seq<char>, c: Seq<char>)
    requires
        has_prefix(b, c),
    ensures
        has_prefix(a + b, a + c),
{
    assert((a + b).subrange(0, (a + c).len() as int) =~= a + c);
}

proof fn lemma_prefix_self(a: Seq<char>, b: Seq<char>)
    ensures
        has_prefix(a + b, a),
{
    assert((a + b).subrange(0, a.len() as int) =~= a);
}

/// The report is the front matter, then the review, info-only and excluded
/// sections in that order, then the closing lines; each section opens with its
/// heading, which counts every candidate of its queue (not only those shown).
pub proof fn law_report_layout(es: Seq<EntryView>, top_n: nat)
    ensures
        report_spec(es, top_n) == report_header() + review_section(ranked(es, Queue::Review), top_n)
            + info_section(ranked(es, Queue::InfoOnly), top_n) + excluded_section(
            ranked(es, Queue::Excluded),
            top_n,
        ) + report_footer(),
        has_prefix(
            review_section(ranked(es, Queue::Review), top_n),
            review_heading(in_queue(es, Queue::Review).len()),
        ),
        has_prefix(
            info_section(ranked(es, Queue::InfoOnly), top_n),
            info_heading(in_queue(es, Queue::InfoOnly).len()),
        ),
        has_prefix(
            excluded_section(ranked(es, Queue::Excluded), top_n),
            excluded_heading(in_queue(es, Queue::Excluded).len()),
        ),
        report_spec(es, top_n).subrange(
            report_spec(es, top_n).len() - report_footer().len(),
            report_spec(es, top_n).len() as int,
        ) == report_footer(),
{
    law_ranked_is_permutation(es, Queue::Review);
    law_ranked_is_permutation(es, Queue::InfoOnly);
    law_ranked_is_permutation(es, Queue::Excluded);
    let r = ranked(es, Queue::Review);
    let i = ranked(es, Queue::InfoOnly);
    let x = ranked(es, Queue::Excluded);
    lemma_prefix_self(
        review_heading(r.len()),
        if r.len() == 0 {
            "이번 cron에서 정식 큐 후보가 없어요.\n\n"@
        } else {
            candidate_blocks(first_n(r, top_n))
        },
    );
    lemma_prefix_self(
        info_heading(i.len()),
        if i.len() == 0 {
            "(없음)\n\n"@
        } else {
            candidate_blocks(first_n(i, top_n))
        },
    );
    lemma_prefix_self(
        excluded_heading(x.len()),
        if x.len() == 0 {
            "(없음)\n\n"@
        } else {
            excluded_intro() + id_lines(first_n(x, top_n)) + "\n"@
        },
    );
    let all = report_spec(es, top_n);
    let front = report_header() + review_section(r, top_n) + info_section(i, top_n)
        + excluded_section(x, top_n);
    assert(all == front + report_footer());
    assert(all.subrange(front.len() as int, all.len() as int) =~= report_footer());
}

/// Under the review heading, for every `i` below `top_n` and the number of
/// review candidates, the blocks of the first `i` ranked candidates are
/// followed by the block of candidate `i` of the ranking at rank `i + 1`.
pub proof fn law_review_section_follows_the_ranking(es: Seq<EntryView>, top_n: nat, i: int)
    requires
        0 <= i < ranked(es, Queue::Review).len(),
        i < top_n,
    ensures
        has_prefix(
            review_section(ranked(es, Queue::Review), top_n),
            review_heading(ranked(es, Queue::Review).len()) + (candidate_blocks(
                ranked(es, Queue::Review).take(i),
            ) + candidate_block(ranked(es, Queue::Review)[i], (i + 1) as nat)),
        ),
{
    let r = ranked(es, Queue::Review);
    law_blocks_follow_the_ranking(r, top_n, i);
    lemma_prefix_extend(
        review_heading(r.len()),
        candidate_blocks(first_n(r, top_n)),
        candidate_blocks(r.take(i)) + candidate_block(r[i], (i + 1) as nat),
    );
}

/// Under the info-only heading, for every `i` below `top_n` and the number of
/// info-only candidates, the blocks of the first `i` ranked candidates are
/// followed by the block of candidate `i` of the ranking at rank `i + 1`.
pub proof fn law_info_section_follows_the_ranking(es: Seq<EntryView>, top_n: nat, i: int)
    requires
        0 <= i < ranked(es, Queue::InfoOnly).len(),
        i < top_n,
    ensures
        has_prefix(
            info_section(ranked(es, Queue::InfoOnly), top_n),
            info_heading(ranked(es, Queue::InfoOnly).len()) + (candidate_blocks(
                ranked(es, Queue::InfoOnly).take(i),
            ) + candidate_block(ranked(es, Queue::InfoOnly)[i], (i + 1) as nat)),
        ),
{
    let r = ranked(es, Queue::InfoOnly);
    law_blocks_follow_the_ranking(r, top_n, i);
    lemma_prefix_extend(
        info_heading(r.len()),
        candidate_blocks(first_n(r, top_n)),
        candidate_blocks(r.take(i)) + candidate_block(r[i], (i + 1) as nat),
    );
}

/// Under the excluded heading and its explanation, for every `i` below `top_n`
/// and the number of excluded candidates, the id lines of the first `i` ranked
/// candidates are followed by the line of candidate `i` of the ranking.
pub proof fn law_excluded_section_follows_the_ranking(es: Seq<EntryView>, top_n: nat, i: int)
    requires
        0 <= i < ranked(es, Queue::Excluded).len(),
        i < top_n,
    ensures
        has_prefix(
            excluded_section(ranked(es, Queue::Excluded), top_n),
            excluded_heading(ranked(es, Queue::Excluded).len()) + (excluded_intro() + (id_lines(
                ranked(es, Queue::Excluded).take(i),
            ) + "- `"@ + ranked(es, Queue::Excluded)[i].id + "`\n"@)),
        ),
{
    let r = ranked(es, Queue::Excluded);
    let line = id_lines(r.take(i)) + "- `"@ + r[i].id + "`\n"@;
    law_id_lines_follow_the_ranking(r, top_n, i);
    lemma_prefix_extend(excluded_intro(), id_lines(first_n(r, top_n)), line);
    lemma_prefix_self(excluded_intro() + id_lines(first_n(r, top_n)), "\n"@);
    lemma_prefix_trans(
        excluded_intro() + line,
        excluded_intro() + id_lines(first_n(r, top_n)),
        excluded_intro() + id_lines(first_n(r, top_n)) + "\n"@,
    );
    lemma_prefix_extend(
        excluded_heading(r.len()),
        excluded_intro() + id_lines(first_n(r, top_n)) + "\n"@,
        excluded_intro() + line,
    );
}


/// `piece` occurs somewhere in `text`.
pub open spec fn occurs(text: Seq<char>, piece: Seq<char>) -> bool {
    exists|p: int|
        0 <= p && p + piece.len() <= text.len() && #[trigger] text.subrange(p, p + piece.len())
            == piece
}

proof fn lemma_occurs_tail(p: Seq<char>, a: Seq<char>, b: Seq<char>, c: Seq<char>)
    ensures
        occurs(p + a + b + c, a + b + c),
{
    let t = p + a + b + c;
    let m = a + b + c;
    assert(t.subrange(p.len() as int, (p.len() + m.len()) as int) =~= m);
}

proof fn lemma_occurs_grow(x: Seq<char>, y: Seq<char>)
    ensures
        forall|m: Seq<char>| occurs(x, m) ==> #[trigger] occurs(x + y, m),
{
    assert forall|m: Seq<char>| occurs(x, m) implies #[trigger] occurs(x + y, m) by {
        let p = choose|p: int|
            0 <= p && p + m.len() <= x.len() && #[trigger] x.subrange(p, p + m.len()) == m;
        assert((x + y).subrange(p, p + m.len()) =~= x.subrange(p, p + m.len()));
    }
}

/// A candidate's block opens with its rank, id and score, and shows each of its
/// own fields framed by the labels around it: its size after `- size: `, its
/// Open LLM component between `Open_LLM=` and `downloads=`, its downloads
/// component between `downloads=` and `korean=`, its Korean component between
/// `korean=` and `license=`, its license component between `license=` and
/// `gguf=`, its GGUF component after `gguf=`, and its id in the HuggingFace link.
pub proof fn law_block_shows_each_field(e: EntryView, rank: nat)
    ensures
        has_prefix(
            candidate_block(e, rank),
            "### "@ + decimal(rank) + ". `"@ + e.id + "` — score "@ + e.score + "\n\n"@,
        ),
        occurs(candidate_block(e, rank), "- size: "@ + e.size + " / Open_LLM="@),
        occurs(candidate_block(e, rank), " / Open_LLM="@ + e.open_llm + " / downloads="@),
        occurs(candidate_block(e, rank), " / downloads="@ + e.downloads + " / korean="@),
        occurs(candidate_block(e, rank), " / korean="@ + e.korean + " / license="@),
        occurs(candidate_block(e, rank), " / license="@ + e.license + " / gguf="@),
        occurs(candidate_block(e, rank), " / gguf="@ + e.gguf + "\n"@),
        occurs(candidate_block(e, rank), "- HuggingFace: https://huggingface.co/"@ + e.id + "\n\n"@),
{
    let h = "### "@ + decimal(rank) + ". `"@ + e.id + "` — score "@ + e.score + "\n\n"@;
    let l1 = "- size: "@;
    let l2 = " / Open_LLM="@;
    let l3 = " / downloads="@;
    let l4 = " / korean="@;
    let l5 = " / license="@;
    let l6 = " / gguf="@;
    let l7 = "\n"@;
    let l8 = "- HuggingFace: https://huggingface.co/"@;
    let l9 = "\n\n"@;
    lemma_prefix_self(
        h,
        l1 + e.size + l2 + e.open_llm + l3 + e.downloads + l4 + e.korean + l5 + e.license + l6
            + e.gguf + l7 + l8 + e.id + l9,
    );
    assert(candidate_block(e, rank) =~= h + (l1 + e.size + l2 + e.open_llm + l3 + e.downloads
        + l4 + e.korean + l5 + e.license + l6 + e.gguf + l7 + l8 + e.id + l9));
    let t1 = h + l1 + e.size + l2;
    lemma_occurs_tail(h, l1, e.size, l2);
    lemma_occurs_grow(t1, e.open_llm);
    lemma_occurs_grow(t1 + e.open_llm, l3);
    let t2 = t1 + e.open_llm + l3;
    lemma_occurs_tail(h + l1 + e.size, l2, e.open_llm, l3);
    lemma_occurs_grow(t2, e.downloads);
    lemma_occurs_grow(t2 + e.downloads, l4);
    let t3 = t2 + e.downloads + l4;
    lemma_occurs_tail(t1 + e.open_llm, l3, e.downloads, l4);
    lemma_occurs_grow(t3, e.korean);
    lemma_occurs_grow(t3 + e.korean, l5);
    let t4 = t3 + e.korean + l5;
    lemma_occurs_tail(t2 + e.downloads, l4, e.korean, l5);
    lemma_occurs_grow(t4, e.license);
    lemma_occurs_grow(t4 + e.license, l6);
    let t5 = t4 + e.license + l6;
    lemma_occurs_tail(t3 + e.korean, l5, e.license, l6);
    lemma_occurs_grow(t5, e.gguf);
    lemma_occurs_grow(t5 + e.gguf, l7);
    let t6 = t5 + e.gguf + l7;
    lemma_occurs_tail(t4 + e.license, l6, e.gguf, l7);
    lemma_occurs_grow(t6, l8);
    lemma_occurs_grow(t6 + l8, e.id);
    lemma_occurs_grow(t6 + l8 + e.id, l9);
    lemma_occurs_tail(t6, l8, e.id, l9);
    assert(candidate_block(e, rank) == t6 + l8 + e.id + l9);
}

} // verus!
