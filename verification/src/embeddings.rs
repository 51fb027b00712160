//! The embedding provider's catalog: model names, their dimensionalities,
//! and token estimation.  The provider itself (the loaded model producing
//! vectors) is an outside collaborator; this module holds what can be said
//! about it from names alone.

use vstd::prelude::*;
use vstd::string::StrSliceExecFns;
use vstd::string::StringExecFns;
use crate::text::{chars_of, lower_seq, str_eq, string_of, to_lower};

verus! {

/// Errors of the embedding provider.
#[derive(Debug, Clone)]
pub enum EmbeddingsError {
    /// The model could not be initialized.
    InitError(String),
    /// Embedding generation failed.
    EmbedError(String),
    /// The input was rejected (for instance, an empty batch).
    InvalidInput(String),
}

/// Information about an embedding model.
#[derive(Debug, Clone)]
pub struct EmbeddingModelInfo {
    /// Canonical model name.
    pub name: String,
    /// Output embedding dimensionality.
    pub dimensions: usize,
    /// Model description.
    pub description: String,
}

/// Rough token estimate for a batch of texts: one token per four characters.
pub fn estimate_tokens(texts: &Vec<String>) -> (r: u32)
    ensures
        r == ((total_chars(crate::text::str_views(texts@)) / 4) as u32),
{
    let n = texts.len();
    let mut total: u128 = 0;
    let mut i: usize = 0;
    proof {
        assert(crate::text::str_views(texts@).subrange(0, 0) =~= Seq::<Seq<char>>::empty());
    }
    while i < n
        invariant
            n == texts@.len(),
            i <= n,
            total == total_chars(crate::text::str_views(texts@).subrange(0, i as int)),
            total <= i * 0x10000000000000000,
        decreases n - i,
    {
        let ghost prefix = crate::text::str_views(texts@).subrange(0, i as int);
        let len = texts[i].as_str().unicode_len();
        proof {
            lemma_total_chars_push(prefix, texts@[i as int]@);
            assert(prefix.push(texts@[i as int]@) =~= crate::text::str_views(texts@).subrange(
                0,
                i as int + 1,
            ));
            assert(len as int <= 0x10000000000000000);
        }
        total = total + (len as u128);
        i = i + 1;
    }
    proof {
        assert(crate::text::str_views(texts@).subrange(0, n as int) =~= crate::text::str_views(
            texts@,
        ));
    }
    #[verifier::truncate] ((total / 4) as u32)
}

/// The character count of all texts together.
pub open spec fn total_chars(texts: Seq<Seq<char>>) -> int
    decreases texts.len(),
{
    if texts.len() == 0 {
        0
    } else {
        total_chars(texts.drop_last()) + texts.last().len()
    }
}

/// One more text adds its length.
proof fn lemma_total_chars_push(texts: Seq<Seq<char>>, t: Seq<char>)
    ensures
        total_chars(texts.push(t)) == total_chars(texts) + t.len(),
{
    assert(texts.push(t).drop_last() =~= texts);
}

/// The catalog entry for a model name: OpenAI-style names are mapped to the
/// local equivalents, and an unknown name falls back to the default model.
pub fn model_info_for_name(model_name: &str) -> (r: EmbeddingModelInfo)
    ensures
        r.dimensions == spec_dimensions_for(lower_seq(model_name@)),
        r.dimensions >= 1,
{
    let v = chars_of(model_name);
    let lowv = to_lower(&v);
    let low = string_of(&lowv);
    let m = low.as_str();
    if str_eq(m, "text-embedding-ada-002") || str_eq(m, "all-minilm-l6-v2") || str_eq(
        m,
        "allminiml6v2",
    ) {
        EmbeddingModelInfo {
            name: String::from_str("all-MiniLM-L6-v2"),
            dimensions: 384,
            description: String::from_str("Fast, good quality general-purpose embeddings"),
        }
    } else if str_eq(m, "text-embedding-3-small") || str_eq(m, "bge-small-en-v1.5") || str_eq(
        m,
        "bgesmallenv15",
    ) {
        EmbeddingModelInfo {
            name: String::from_str("bge-small-en-v1.5"),
            dimensions: 384,
            description: String::from_str("BGE small model, good quality"),
        }
    } else if str_eq(m, "text-embedding-3-large") || str_eq(m, "bge-base-en-v1.5") || str_eq(
        m,
        "bgebaseenv15",
    ) {
        EmbeddingModelInfo {
            name: String::from_str("bge-base-en-v1.5"),
            dimensions: 768,
            description: String::from_str("BGE base model, high quality"),
        }
    } else if str_eq(m, "bge-large-en-v1.5") || str_eq(m, "bgelargeenv15") {
        EmbeddingModelInfo {
            name: String::from_str("bge-large-en-v1.5"),
            dimensions: 1024,
            description: String::from_str("BGE large model, highest quality"),
        }
    } else if str_eq(m, "multilingual-e5-small") || str_eq(m, "multilinguale5small") {
        EmbeddingModelInfo {
            name: String::from_str("multilingual-e5-small"),
            dimensions: 384,
            description: String::from_str("Multilingual support, 100+ languages"),
        }
    } else if str_eq(m, "multilingual-e5-base") || str_eq(m, "multilinguale5base") {
        EmbeddingModelInfo {
            name: String::from_str("multilingual-e5-base"),
            dimensions: 768,
            description: String::from_str("Multilingual base model"),
        }
    } else {
        EmbeddingModelInfo {
            name: String::from_str("all-MiniLM-L6-v2"),
            dimensions: 384,
            description: String::from_str("Fast, good quality general-purpose embeddings"),
        }
    }
}

/// The dimensionality the catalog assigns to a lowered model name.
pub open spec fn spec_dimensions_for(m: Seq<char>) -> usize {
    if m == "text-embedding-ada-002"@ || m == "all-minilm-l6-v2"@ || m == "allminiml6v2"@ {
        384usize
    } else if m == "text-embedding-3-small"@ || m == "bge-small-en-v1.5"@ || m
        == "bgesmallenv15"@ {
        384usize
    } else if m == "text-embedding-3-large"@ || m == "bge-base-en-v1.5"@ || m == "bgebaseenv15"@ {
        768usize
    } else if m == "bge-large-en-v1.5"@ || m == "bgelargeenv15"@ {
        1024usize
    } else if m == "multilingual-e5-small"@ || m == "multilinguale5small"@ {
        384usize
    } else if m == "multilingual-e5-base"@ || m == "multilinguale5base"@ {
        768usize
    } else {
        384usize
    }
}

/// The catalog of locally available models.
pub fn list_available_models() -> (r: Vec<EmbeddingModelInfo>)
    ensures
        r@.len() == 6,
        forall|i: int| 0 <= i < r@.len() ==> (#[trigger] r@[i]).dimensions >= 1,
{
    let mut r: Vec<EmbeddingModelInfo> = Vec::new();
    r.push(model_info_for_name("all-MiniLM-L6-v2"));
    r.push(model_info_for_name("bge-small-en-v1.5"));
    r.push(model_info_for_name("bge-base-en-v1.5"));
    r.push(model_info_for_name("bge-large-en-v1.5"));
    r.push(model_info_for_name("multilingual-e5-small"));
    r.push(model_info_for_name("multilingual-e5-base"));
    r
}

} // verus!
