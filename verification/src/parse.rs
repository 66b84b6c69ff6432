//! What the watcher makes of response bodies: rows of the trending listing,
//! the Parquet URL index, and the rows of the leaderboard table.

use vstd::prelude::*;

use crate::error::{WatcherError, WatcherResult};
use crate::text::same_text;
use crate::types::TrendingModelMeta;

verus! {

/// The values present in a list of optional values, in order.
pub open spec fn present<T>(rows: Seq<Option<T>>) -> Seq<T>
    decreases rows.len(),
{
    if rows.len() == 0 {
        Seq::empty()
    } else {
        match rows[0] {
            Some(x) => seq![x] + present(rows.drop_first()),
            None => present(rows.drop_first()),
        }
    }
}

/// Appending a value appends what it contributes.
pub proof fn lemma_present_push<T>(rows: Seq<Option<T>>, x: Option<T>)
    ensures
        present(rows.push(x)) == present(rows) + match x {
            Some(v) => seq![v],
            None => Seq::<T>::empty(),
        },
    decreases rows.len(),
{
    if rows.len() == 0 {
        assert(rows.push(x).drop_first() =~= rows);
        assert(present(rows) =~= Seq::<T>::empty());
        assert(present(rows.push(x).drop_first()) =~= Seq::<T>::empty());
        match x {
            Some(v) => assert(present(rows.push(x)) =~= seq![v]),
            None => assert(present(rows.push(x)) =~= Seq::<T>::empty()),
        }
    } else {
        assert(rows.push(x).drop_first() =~= rows.drop_first().push(x));
        lemma_present_push(rows.drop_first(), x);
        match rows[0] {
            Some(v) => {
                assert(present(rows.push(x)) =~= seq![v] + present(rows.drop_first().push(x)));
            },
            None => {},
        }
    }
}

proof fn lemma_present_contains<T>(rows: Seq<Option<T>>, i: int)
    requires
        0 <= i < rows.len(),
        rows[i] is Some,
    ensures
        present(rows).contains(rows[i]->Some_0),
    decreases rows.len(),
{
    let rest = rows.drop_first();
    if i == 0 {
        assert(present(rows)[0] == rows[0]->Some_0);
    } else {
        assert(rest[i - 1] == rows[i]);
        lemma_present_contains(rest, i - 1);
        let k = choose|k: int| 0 <= k < present(rest).len() && present(rest)[k] == rows[i]->Some_0;
        match rows[0] {
            Some(x) => {
                assert(present(rows)[k + 1] == present(rest)[k]);
            },
            None => {
                assert(present(rows)[k] == present(rest)[k]);
            },
        }
    }
}

proof fn lemma_present_len<T>(rows: Seq<Option<T>>)
    ensures
        present(rows).len() <= rows.len(),
    decreases rows.len(),
{
    if rows.len() > 0 {
        lemma_present_len(rows.drop_first());
    }
}

/// A row that reads as a model is never dropped, and collecting adds no row:
/// one broken row does not cost the others.
pub proof fn law_readable_rows_are_kept<T>(rows: Seq<Option<T>>)
    ensures
        present(rows).len() <= rows.len(),
        forall|i: int| 0 <= i < rows.len() && (#[trigger] rows[i]) is Some ==> present(rows).contains(
            rows[i]->Some_0,
        ),
{
    lemma_present_len(rows);
    assert forall|i: int| 0 <= i < rows.len() && (#[trigger] rows[i]) is Some implies present(
        rows,
    ).contains(rows[i]->Some_0) by {
        lemma_present_contains(rows, i);
    }
}

/// How many characters of the body a schema error quotes.
pub const QUOTED_BODY_CHARS: usize = 120;

/// The first `QUOTED_BODY_CHARS` characters of a body.
pub open spec fn quoted_body(json: Seq<char>) -> Seq<char> {
    if json.len() <= QUOTED_BODY_CHARS {
        json
    } else {
        json.take(QUOTED_BODY_CHARS as int)
    }
}

/// The message for a trending body that is not a JSON array.
pub open spec fn not_an_array_message(detail: Seq<char>, json: Seq<char>) -> Seq<char> {
    "응답이 array가 아니에요: "@ + detail + " ("@ + quoted_body(json) + ")"@
}

/// Collects the rows of the trending listing. `parsed` is the outcome of
/// reading `json` as a JSON array (the parser's message on failure) with each
/// element read as a model (`None` where that failed). A body that is not an
/// array is a schema mismatch quoting its first 120 characters; rows that did
/// not read as a model are dropped, the others kept in order.
pub fn collect_trending_rows(
    parsed: Result<Vec<Option<TrendingModelMeta>>, String>,
    json: &str,
) -> (r: WatcherResult<Vec<TrendingModelMeta>>)
    ensures
        parsed is Err ==> (r matches Err(WatcherError::SchemaMismatch(m)) && m@
            == not_an_array_message(parsed->Err_0@, json@)),
        parsed is Ok ==> (r matches Ok(v) && v@ == present(parsed->Ok_0@)),
{
    match parsed {
        Err(detail) => {
            let n = json.unicode_len();
            let k = if n <= QUOTED_BODY_CHARS { n } else { QUOTED_BODY_CHARS };
            let quoted = json.substring_char(0, k);
            let mut m = String::from_str("응답이 array가 아니에요: ");
            m.append(detail.as_str());
            m.append(" (");
            m.append(quoted);
            m.append(")");
            assert(quoted@ =~= quoted_body(json@));
            Err(WatcherError::SchemaMismatch(m))
        },
        Ok(rows) => {
            let ghost all = rows@;
            let mut rows = rows;
            let mut out: Vec<TrendingModelMeta> = Vec::new();
            assert(out@ + present(rows@) =~= present(all));
            while rows.len() > 0
                invariant
                    out@ + present(rows@) == present(all),
                decreases rows@.len(),
            {
                let ghost before = rows@;
                let row = rows.remove(0);
                assert(rows@ =~= before.drop_first());
                match row {
                    Some(m) => {
                        out.push(m);
                        assert(out@ + present(rows@) =~= present(all));
                    },
                    None => {},
                }
            }
            assert(out@ =~= present(all));
            Ok(out)
        },
    }
}


/// What `serde_json::from_str::<Vec<String>>` reads from a body: `None` when
/// the body is not a JSON array of strings.
pub uninterp spec fn json_string_list(json: Seq<char>) -> Option<Seq<Seq<char>>>;

/// What `serde_json::from_str` reads from a body as a map from config names to
/// maps from split names to URL lists, as (key, value) pairs in key order; on
/// failure, the text of serde_json's error.
pub uninterp spec fn json_nested_index(json: Seq<char>) -> Result<
    Seq<(Seq<char>, Seq<(Seq<char>, Seq<Seq<char>>)>)>,
    Seq<char>,
>;

/// Reads a body as a flat JSON array of strings with
/// `serde_json::from_str::<Vec<String>>`. Trusted: the result is
/// `json_string_list(json)`; what serde_json accepts is not stated here.
#[verifier::external_body]
fn read_string_list(json: &str) -> (r: Option<Vec<String>>)
    ensures
        match r {
            Some(v) => json_string_list(json@) == Some(v.deep_view()),
            None => json_string_list(json@) is None,
        },
{
    serde_json::from_str::<Vec<String>>(json).ok()
}

/// Reads a body as `{config: {split: [url, ...]}}` with `serde_json::from_str`
/// into nested `BTreeMap`s, handing the maps out as (key, value) pairs in key
/// order. Trusted: the result is `json_nested_index(json)`, and, as in any
/// map, no key occurs twice at either level. What serde_json accepts, how it
/// words its errors, and that the keys come in increasing order are not stated
/// here.
#[verifier::external_body]
fn read_nested_index(json: &str) -> (r: Result<Vec<(String, Vec<(String, Vec<String>)>)>, String>)
    ensures
        match r {
            Ok(v) => json_nested_index(json@) == Ok::<_, Seq<char>>(v.deep_view()),
            Err(e) => json_nested_index(json@) == Err::<Seq<(Seq<char>, Seq<(Seq<char>, Seq<Seq<char>>)>)>, Seq<char>>(e@),
        },
        r matches Ok(v) ==> unique_keys(v.deep_view()) && forall|i: int|
            0 <= i < v.deep_view().len() ==> unique_keys(#[trigger] v.deep_view()[i].1),
{
    match serde_json::from_str::<
        std::collections::BTreeMap<String, std::collections::BTreeMap<String, Vec<String>>>,
    >(json) {
        Ok(m) => Ok(m.into_iter().map(|(c, splits)| (c, splits.into_iter().collect())).collect()),
        Err(e) => Err(e.to_string()),
    }
}

/// No key occurs twice.
pub open spec fn unique_keys<V>(entries: Seq<(Seq<char>, V)>) -> bool {
    forall|i: int, j: int| 0 <= i < j < entries.len() ==> entries[i].0 != entries[j].0
}

/// The value of the first entry whose key is `key`.
pub open spec fn lookup<V>(entries: Seq<(Seq<char>, V)>, key: Seq<char>) -> Option<V>
    decreases entries.len(),
{
    if entries.len() == 0 {
        None
    } else if entries[0].0 == key {
        Some(entries[0].1)
    } else {
        lookup(entries.drop_first(), key)
    }
}

proof fn lemma_lookup_skip<V>(entries: Seq<(Seq<char>, V)>, key: Seq<char>, i: int)
    requires
        0 <= i <= entries.len(),
        forall|j: int| 0 <= j < i ==> (#[trigger] entries[j]).0 != key,
    ensures
        lookup(entries, key) == lookup(entries.skip(i), key),
    decreases i,
{
    if i > 0 {
        let rest = entries.drop_first();
        assert(entries[0].0 != key);
        assert forall|j: int| 0 <= j < i - 1 implies (#[trigger] rest[j]).0 != key by {
            assert(rest[j] == entries[j + 1]);
        }
        lemma_lookup_skip(rest, key, i - 1);
        assert(rest.skip(i - 1) =~= entries.skip(i));
    } else {
        assert(entries.skip(0) =~= entries);
    }
}

/// Takes the value of the first entry whose key is `key`.
fn take_entry<V: DeepView>(entries: Vec<(String, V)>, key: &str) -> (r: Option<V>)
    ensures
        r.deep_view() == lookup(entries.deep_view(), key@),
{
    let ghost d = entries.deep_view();
    let mut list = entries;
    let n = list.len();
    let mut i: usize = 0;
    while i < n
        invariant
            n == list@.len(),
            d == list.deep_view(),
            d == entries.deep_view(),
            i <= n,
            forall|j: int| 0 <= j < i ==> (#[trigger] d[j]).0 != key@,
        decreases n - i,
    {
        assert(d[i as int] == list@[i as int].deep_view());
        if same_text(list[i].0.as_str(), key) {
            proof {
                lemma_lookup_skip(d, key@, i as int);
                assert(d.skip(i as int)[0] == d[i as int]);
                assert(d[i as int].0 == key@);
                assert(lookup(d, key@) == Some(d[i as int].1));
            }
            let ghost before = list@;
            let e = list.remove(i);
            assert(e == before[i as int]);
            assert(e.deep_view() == d[i as int]);
            let r = Some(e.1);
            assert(r.deep_view() == Some(d[i as int].1));
            return r;
        }
        i = i + 1;
    }
    proof {
        lemma_lookup_skip(d, key@, n as int);
        assert(d.skip(n as int).len() == 0);
    }
    None
}

/// The URLs of a dataset split from the two readings of the index body: a
/// flat array of URLs is taken as it is; otherwise the URLs under `config` and
/// `split` of the nested form, none when either is missing; a body of neither
/// form is an error with the nested reading's message.
pub open spec fn url_list_spec(
    flat: Option<Seq<Seq<char>>>,
    nested: Result<Seq<(Seq<char>, Seq<(Seq<char>, Seq<Seq<char>>)>)>, Seq<char>>,
    config: Seq<char>,
    split: Seq<char>,
) -> Result<Seq<Seq<char>>, Seq<char>> {
    match flat {
        Some(urls) => Ok(urls),
        None => match nested {
            Err(e) => Err("parquet URL list schema 인식 실패: "@ + e),
            Ok(index) => Ok(
                match lookup(index, config) {
                    Some(splits) => match lookup(splits, split) {
                        Some(urls) => urls,
                        None => Seq::empty(),
                    },
                    None => Seq::empty(),
                },
            ),
        },
    }
}

/// What a dataset's URL index body says (see [`url_list_spec`]).
pub open spec fn parquet_url_list_spec(json: Seq<char>, config: Seq<char>, split: Seq<char>) -> Result<
    Seq<Seq<char>>,
    Seq<char>,
> {
    url_list_spec(json_string_list(json), json_nested_index(json), config, split)
}

/// Picks the URLs of `config` / `split` from the readings of an index body:
/// `flat` as a flat array of URLs, `nested` as `{config: {split: [url, ...]}}`
/// pairs (consulted only when `flat` is `None`).
pub fn urls_from_index(
    flat: Option<Vec<String>>,
    nested: Result<Vec<(String, Vec<(String, Vec<String>)>)>, String>,
    config: &str,
    split: &str,
) -> (r: WatcherResult<Vec<String>>)
    ensures
        match r {
            Ok(v) => url_list_spec(flat.deep_view(), nested_view(nested), config@, split@) == Ok::<
                _,
                Seq<char>,
            >(v.deep_view()),
            Err(WatcherError::SchemaMismatch(m)) => url_list_spec(
                flat.deep_view(),
                nested_view(nested),
                config@,
                split@,
            ) == Err::<Seq<Seq<char>>, Seq<char>>(m@),
            Err(_) => false,
        },
{
    if let Some(urls) = flat {
        return Ok(urls);
    }
    match nested {
        Err(e) => {
            let mut m = String::from_str("parquet URL list schema 인식 실패: ");
            m.append(e.as_str());
            Err(WatcherError::SchemaMismatch(m))
        },
        Ok(index) => {
            let ghost d = index.deep_view();
            let urls = match take_entry(index, config) {
                Some(splits) => match take_entry(splits, split) {
                    Some(urls) => urls,
                    None => Vec::new(),
                },
                None => Vec::new(),
            };
            assert(urls.deep_view() =~= match lookup(d, config@) {
                Some(splits) => match lookup(splits, split@) {
                    Some(u) => u,
                    None => Seq::<Seq<char>>::empty(),
                },
                None => Seq::<Seq<char>>::empty(),
            });
            Ok(urls)
        },
    }
}

/// The plain content of a nested reading.
pub open spec fn nested_view(
    nested: Result<Vec<(String, Vec<(String, Vec<String>)>)>, String>,
) -> Result<Seq<(Seq<char>, Seq<(Seq<char>, Seq<Seq<char>>)>)>, Seq<char>> {
    match nested {
        Ok(v) => Ok(v.deep_view()),
        Err(e) => Err(e@),
    }
}

/// Reads the Parquet URL index of a dataset (`{config: {split: [url, ...]}}`,
/// or a flat array of URLs).
pub fn parse_parquet_url_list(json: &str, config: &str, split: &str) -> (r: WatcherResult<Vec<String>>)
    ensures
        match r {
            Ok(v) => parquet_url_list_spec(json@, config@, split@) == Ok::<_, Seq<char>>(v.deep_view()),
            Err(WatcherError::SchemaMismatch(m)) => parquet_url_list_spec(json@, config@, split@)
                == Err::<Seq<Seq<char>>, Seq<char>>(m@),
            Err(_) => false,
        },
{
    let flat = read_string_list(json);
    if flat.is_some() {
        return urls_from_index(flat, Err(String::new()), config, split);
    }
    let nested = read_nested_index(json);
    urls_from_index(flat, nested, config, split)
}

/// What a record batch offers for a required column.
#[derive(Debug, Clone, Copy, PartialEq, Eq, Structural)]
pub enum ColumnState {
    /// The batch has no column of that name.
    Missing,
    /// The column exists with another data type.
    WrongType,
    /// The column exists with the expected data type.
    Present,
}

/// The schema problem of a leaderboard batch, checking `eval_name` (Utf8)
/// before `Average` (Float64); `None` when both are usable.
pub open spec fn leaderboard_column_problem(eval_name: ColumnState, average: ColumnState) -> Option<Seq<char>> {
    if eval_name == ColumnState::Missing {
        Some("'eval_name' 컬럼 없음"@)
    } else if eval_name == ColumnState::WrongType {
        Some("'eval_name'이 Utf8 StringArray 아님"@)
    } else if average == ColumnState::Missing {
        Some("'Average' 컬럼 없음"@)
    } else if average == ColumnState::WrongType {
        Some("'Average'이 Float64 아님"@)
    } else {
        None
    }
}

/// Checks that a leaderboard batch has its two required columns.
pub fn check_leaderboard_columns(eval_name: ColumnState, average: ColumnState) -> (r: WatcherResult<()>)
    ensures
        match leaderboard_column_problem(eval_name, average) {
            None => r is Ok,
            Some(p) => r matches Err(WatcherError::SchemaMismatch(m)) && m@ == p,
        },
{
    if eval_name == ColumnState::Missing {
        Err(WatcherError::SchemaMismatch(String::from_str("'eval_name' 컬럼 없음")))
    } else if eval_name == ColumnState::WrongType {
        Err(WatcherError::SchemaMismatch(String::from_str("'eval_name'이 Utf8 StringArray 아님")))
    } else if average == ColumnState::Missing {
        Err(WatcherError::SchemaMismatch(String::from_str("'Average' 컬럼 없음")))
    } else if average == ColumnState::WrongType {
        Err(WatcherError::SchemaMismatch(String::from_str("'Average'이 Float64 아님")))
    } else {
        Ok(())
    }
}

/// The rows, among the first `n`, where neither the name nor the average is null.
pub open spec fn kept_rows(eval_name_null: Seq<bool>, average_null: Seq<bool>, n: nat) -> Seq<usize>
    decreases n,
{
    if n == 0 {
        Seq::empty()
    } else {
        let i = (n - 1) as nat;
        kept_rows(eval_name_null, average_null, i) + if !eval_name_null[i as int]
            && !average_null[i as int] {
            seq![i as usize]
        } else {
            Seq::empty()
        }
    }
}

/// The rows of a leaderboard batch that become entries: those whose
/// `eval_name` and `Average` are both non-null, in order.
pub fn leaderboard_rows(eval_name_null: &Vec<bool>, average_null: &Vec<bool>) -> (r: Vec<usize>)
    requires
        eval_name_null@.len() == average_null@.len(),
    ensures
        r@ == kept_rows(eval_name_null@, average_null@, eval_name_null@.len()),
{
    let n = eval_name_null.len();
    let mut out: Vec<usize> = Vec::new();
    let mut i: usize = 0;
    while i < n
        invariant
            n == eval_name_null@.len(),
            n == average_null@.len(),
            i <= n,
            out@ == kept_rows(eval_name_null@, average_null@, i as nat),
        decreases n - i,
    {
        if !eval_name_null[i] && !average_null[i] {
            out.push(i);
        }
        assert(out@ =~= kept_rows(eval_name_null@, average_null@, (i + 1) as nat));
        i = i + 1;
    }
    out
}

/// A Parquet reading failure: `ParquetReadFailed` with `{context}: {detail}`
/// (the context is `builder`, `reader` or `batch`).
pub fn parquet_read_error(context: &str, detail: &str) -> (r: WatcherError)
    ensures
        r matches WatcherError::ParquetReadFailed(m) && m@ == context@ + ": "@ + detail@,
{
    let mut m = String::from_str(context);
    m.append(": ");
    m.append(detail);
    WatcherError::ParquetReadFailed(m)
}

} // verus!
