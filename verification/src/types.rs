//! Model metadata taken from the HuggingFace trending listing: only the
//! fields the watcher reads.

use vstd::prelude::*;

use crate::text::{has_prefix, same_text, starts_with_text};

verus! {

/// One row of the HuggingFace `/api/models?sort=trending` listing.
#[derive(Debug, Clone, PartialEq, Eq)]
pub struct TrendingModelMeta {
    /// `<author>/<repo>`, e.g. `Qwen/Qwen2.5-7B-Instruct`.
    pub id: String,
    /// Download count.
    pub downloads: u64,
    /// Like count.
    pub likes: u64,
    /// `transformers`, `gguf`, ...
    pub library_name: Option<String>,
    /// Tags such as `text-generation`, `ko`, `license:apache-2.0`.
    pub tags: Vec<String>,
    /// `text-generation`, `image-text-to-text`, ...
    pub pipeline_tag: Option<String>,
    /// Creation time as HuggingFace writes it.
    pub created_at: Option<String>,
}

/// The texts of a list of tags.
pub open spec fn tag_texts(tags: Seq<String>) -> Seq<Seq<char>> {
    tags.map_values(|t: String| t@)
}

/// The prefix that marks a license tag.
pub open spec fn license_marker() -> Seq<char> {
    "license:"@
}

/// What follows `license:` in the first tag that starts with it.
pub open spec fn license_of(tags: Seq<Seq<char>>) -> Option<Seq<char>>
    decreases tags.len(),
{
    if tags.len() == 0 {
        None
    } else if has_prefix(tags[0], license_marker()) {
        Some(tags[0].skip(license_marker().len() as int))
    } else {
        license_of(tags.drop_first())
    }
}

/// One of the tags is exactly `ko`.
pub open spec fn has_korean_tag_spec(tags: Seq<Seq<char>>) -> bool {
    exists|i: int| 0 <= i < tags.len() && tags[i] == "ko"@
}

/// The library name is exactly `gguf`.
pub open spec fn is_gguf_spec(library_name: Option<String>) -> bool {
    match library_name {
        Some(l) => l@ == "gguf"@,
        None => false,
    }
}

/// The Korean signal is on exactly when some tag, at any position, is `ko`.
pub proof fn law_korean_tag_anywhere(tags: Seq<Seq<char>>, i: int)
    ensures
        0 <= i < tags.len() && tags[i] == "ko"@ ==> has_korean_tag_spec(tags),
        has_korean_tag_spec(tags) ==> exists|j: int| 0 <= j < tags.len() && #[trigger] tags[j] == "ko"@,
{
}

proof fn lemma_license_of_skip(tags: Seq<Seq<char>>, i: int)
    requires
        0 <= i <= tags.len(),
        forall|j: int| 0 <= j < i ==> !has_prefix(#[trigger] tags[j], license_marker()),
    ensures
        license_of(tags) == license_of(tags.skip(i)),
    decreases i,
{
    if i > 0 {
        assert(!has_prefix(tags[0], license_marker()));
        let rest = tags.drop_first();
        assert forall|j: int| 0 <= j < i - 1 implies !has_prefix(#[trigger] rest[j], license_marker()) by {
            assert(rest[j] == tags[j + 1]);
        }
        lemma_license_of_skip(rest, i - 1);
        assert(rest.skip(i - 1) =~= tags.skip(i));
    } else {
        assert(tags.skip(0) =~= tags);
    }
}

impl TrendingModelMeta {
    /// The license named by the first `license:*` tag, without the marker.
    pub fn license(&self) -> (r: Option<String>)
        ensures
            r matches Some(l) ==> license_of(tag_texts(self.tags@)) == Some(l@),
            r is None ==> license_of(tag_texts(self.tags@)) is None,
    {
        let marker = "license:";
        proof {
            reveal_strlit("license:");
        }
        let ghost texts = tag_texts(self.tags@);
        let n = self.tags.len();
        let mut i: usize = 0;
        while i < n
            invariant
                n == self.tags@.len(),
                texts == tag_texts(self.tags@),
                i <= n,
                marker@ == license_marker(),
                forall|j: int| 0 <= j < i ==> !has_prefix(#[trigger] texts[j], license_marker()),
            decreases n - i,
        {
            let t = self.tags[i].as_str();
            if starts_with_text(t, marker) {
                proof {
                    lemma_license_of_skip(texts, i as int);
                    assert(texts.skip(i as int)[0] == texts[i as int]);
                }
                let m = marker.unicode_len();
                let len = t.unicode_len();
                let rest = t.substring_char(m, len);
                assert(rest@ =~= texts[i as int].skip(license_marker().len() as int));
                return Some(String::from_str(rest));
            }
            i = i + 1;
        }
        proof {
            lemma_license_of_skip(texts, n as int);
            assert(texts.skip(n as int).len() == 0);
        }
        None
    }

    /// Whether one of the tags is `ko` (HuggingFace maps `language: ko` to it).
    pub fn has_korean_tag(&self) -> (r: bool)
        ensures
            r == has_korean_tag_spec(tag_texts(self.tags@)),
    {
        let ghost texts = tag_texts(self.tags@);
        let n = self.tags.len();
        let mut i: usize = 0;
        while i < n
            invariant
                n == self.tags@.len(),
                texts == tag_texts(self.tags@),
                i <= n,
                forall|j: int| 0 <= j < i ==> texts[j] != "ko"@,
            decreases n - i,
        {
            if same_text(self.tags[i].as_str(), "ko") {
                assert(texts[i as int] == "ko"@);
                return true;
            }
            i = i + 1;
        }
        false
    }

    /// Whether the model's library is `gguf`.
    pub fn is_gguf(&self) -> (r: bool)
        ensures
            r == is_gguf_spec(self.library_name),
    {
        match &self.library_name {
            Some(l) => same_text(l.as_str(), "gguf"),
            None => false,
        }
    }
}

} // verus!
