//! Settings.

use crate::error::Error;
use crate::text::split::{
    contains_text, law_a_text_holds_its_middle, starts_with, text_starts_with,
};
use crate::text::{owned, same};
use vstd::prelude::*;

verus! {

/// The model that embeds where nothing else is configured.
pub const DEFAULT_EMBEDDER_MODEL: &'static str = "embeddinggemma-300m-q4";

/// The number of components of its vectors.
pub const DEFAULT_VECTOR_DIMENSION: u16 = 768;

/// The settings of the program.
#[derive(Debug, Clone)]
pub struct KatokConfig {
    pub source_adapter: String,
    pub chunk_gap_group_seconds: i64,
    pub chunk_gap_direct_seconds: i64,
    pub semantic_dir: String,
    pub embedder_model: String,
    pub embedding_batch_size: usize,
    pub vector_dimension: u16,
    pub snippet_length: usize,
    pub embedding_provider: String,
    pub embedding_endpoint: Option<String>,
    pub embedding_timeout_ms: u64,
    pub embedding_query_prefix: String,
    pub embedding_passage_prefix: String,
}

/// Whether `config` holds what is used where nothing is configured.
pub open spec fn is_default(config: KatokConfig) -> bool {
    &&& config.source_adapter@ == "fixture"@
    &&& config.chunk_gap_group_seconds == 600
    &&& config.chunk_gap_direct_seconds == 1800
    &&& config.semantic_dir@ == "semantic"@
    &&& config.embedder_model@ == "embeddinggemma-300m-q4"@
    &&& config.embedding_batch_size == 64
    &&& config.vector_dimension == DEFAULT_VECTOR_DIMENSION
    &&& config.snippet_length == 80
    &&& config.embedding_provider@ == "local"@
    &&& config.embedding_endpoint is None
    &&& config.embedding_timeout_ms == 10000
    &&& config.embedding_query_prefix@ == "query: "@
    &&& config.embedding_passage_prefix@ == "passage: "@
}

impl Default for KatokConfig {
    fn default() -> (config: KatokConfig)
        ensures
            is_default(config),
    {
        KatokConfig {
            source_adapter: owned("fixture"),
            chunk_gap_group_seconds: 600,
            chunk_gap_direct_seconds: 1800,
            semantic_dir: owned("semantic"),
            embedder_model: owned("embeddinggemma-300m-q4"),
            embedding_batch_size: 64,
            vector_dimension: DEFAULT_VECTOR_DIMENSION,
            snippet_length: 80,
            embedding_provider: owned("local"),
            embedding_endpoint: None,
            embedding_timeout_ms: 10000,
            embedding_query_prefix: owned("query: "),
            embedding_passage_prefix: owned("passage: "),
        }
    }
}

/// Whether an endpoint is plain HTTP to a port of this machine.
pub open spec fn loopback_endpoint(endpoint: Seq<char>) -> bool {
    ||| starts_with(endpoint, "http://localhost:"@)
    ||| starts_with(endpoint, "http://127.0.0.1:"@)
    ||| starts_with(endpoint, "http://[::1]:"@)
}

/// Why a configuration is refused, where it is.
pub open spec fn config_problem(config: KatokConfig) -> Option<Seq<char>> {
    if config.embedding_provider@ == "local"@ {
        None
    } else if config.embedding_provider@ == "loopback-http"@ {
        match config.embedding_endpoint {
            None => Some("loopback-http requires embedding_endpoint"@),
            Some(endpoint) => if loopback_endpoint(endpoint@) {
                None
            } else {
                Some("embedding endpoint must be loopback and use http://"@)
            },
        }
    } else {
        Some("unsupported embedding provider: "@ + config.embedding_provider@)
    }
}

impl KatokConfig {
    /// Refuses a configuration that would send text to another machine, or that
    /// names an unknown provider.
    pub fn validate(&self) -> (r: Result<(), Error>)
        ensures
            match r {
                Ok(_) => config_problem(*self) is None,
                Err(error) => error is Embedding && config_problem(*self) == Some(
                    error->Embedding_0@,
                ),
            },
    {
        proof {
            reveal_strlit("local");
            reveal_strlit("loopback-http");
        }
        if same(self.embedding_provider.as_str(), "local") {
            return Ok(());
        }
        if !same(self.embedding_provider.as_str(), "loopback-http") {
            return Err(
                Error::Embedding(
                    owned("unsupported embedding provider: ").concat(
                        self.embedding_provider.as_str(),
                    ),
                ),
            );
        }
        match &self.embedding_endpoint {
            None => Err(Error::Embedding(owned("loopback-http requires embedding_endpoint"))),
            Some(endpoint) => {
                let url = endpoint.as_str();
                if text_starts_with(url, "http://localhost:") || text_starts_with(
                    url,
                    "http://127.0.0.1:",
                ) || text_starts_with(url, "http://[::1]:") {
                    Ok(())
                } else {
                    Err(
                        Error::Embedding(
                            owned("embedding endpoint must be loopback and use http://"),
                        ),
                    )
                }
            },
        }
    }
}

/// A configuration that is accepted embeds on this machine: with the local
/// model, or over plain HTTP to one of its own ports.
pub proof fn law_accepted_config_stays_local(config: KatokConfig)
    ensures
        config_problem(config) is None ==> config.embedding_provider@ == "local"@ || (
        config.embedding_endpoint matches Some(endpoint) && loopback_endpoint(endpoint@)),
{
}

/// The settings of the program where documents are embedded by a server.
#[derive(Debug, Clone)]
pub struct HypeConfig {
    pub source_adapter: String,
    pub chunk_gap_group_seconds: i64,
    pub chunk_gap_direct_seconds: i64,
    pub minsync_dir: String,
    pub embedder_model: String,
    pub vector_dimension: u16,
    pub snippet_length: usize,
}

impl Default for HypeConfig {
    fn default() -> (config: HypeConfig)
        ensures
            config.source_adapter@ == "fixture"@,
            config.chunk_gap_group_seconds == 600,
            config.chunk_gap_direct_seconds == 1800,
            config.minsync_dir@ == "semantic"@,
            config.embedder_model@ == "tei:jinaai/jina-embeddings-v4"@,
            config.vector_dimension == 2048,
            config.snippet_length == 80,
    {
        HypeConfig {
            source_adapter: owned("fixture"),
            chunk_gap_group_seconds: 600,
            chunk_gap_direct_seconds: 1800,
            minsync_dir: owned("semantic"),
            embedder_model: owned("tei:jinaai/jina-embeddings-v4"),
            vector_dimension: 2048,
            snippet_length: 80,
        }
    }
}

/// An accepted endpoint starts with the scheme and a name of this machine and a
/// colon, letter for letter; a provider that is not known is refused.
pub proof fn law_an_accepted_endpoint_names_this_machine(config: KatokConfig)
    ensures
        config.embedding_provider@ != "local"@ && config_problem(config) is None
            ==> config.embedding_provider@ == "loopback-http"@ && (
        config.embedding_endpoint matches Some(e) && ((e@.len() >= 17 && e@.take(17)
            == "http://localhost:"@) || (e@.len() >= 17 && e@.take(17) == "http://127.0.0.1:"@) || (
        e@.len() >= 13 && e@.take(13) == "http://[::1]:"@))),
        config.embedding_provider@ == "local"@ ==> config_problem(config) is None,
{
    reveal_strlit("http://localhost:");
    reveal_strlit("http://127.0.0.1:");
    reveal_strlit("http://[::1]:");
    if let Some(e) = config.embedding_endpoint {
        if e@.len() >= 17 {
            assert(e@.subrange(0, 17) =~= e@.take(17));
        }
        if e@.len() >= 13 {
            assert(e@.subrange(0, 13) =~= e@.take(13));
        }
    }
}

/// What stays on this machine is accepted: the local model, and a server at one of
/// the three addresses of this machine, whatever its port; what is used where
/// nothing is configured is. A provider that is not known is named in the refusal.
pub proof fn law_what_stays_local_is_accepted(config: KatokConfig, rest: Seq<char>)
    ensures
        is_default(config) ==> config_problem(config) is None,
        config.embedding_provider@ == "local"@ ==> config_problem(config) is None,
        config.embedding_provider@ == "loopback-http"@ ==> (
        config.embedding_endpoint matches Some(endpoint) ==> (endpoint@ == "http://localhost:"@
            + rest || endpoint@ == "http://127.0.0.1:"@ + rest || endpoint@ == "http://[::1]:"@
            + rest ==> config_problem(config) is None)),
        config.embedding_provider@ == "loopback-http"@ && config.embedding_endpoint is None
            ==> config_problem(config) is Some,
        config_problem(config) is None ==> config.embedding_provider@ == "local"@
            || config.embedding_provider@ == "loopback-http"@,
        config.embedding_provider@ != "local"@ && config.embedding_provider@ != "loopback-http"@
            ==> (config_problem(config) matches Some(text) && contains_text(
            text,
            config.embedding_provider@,
        )),
{
    reveal_strlit("local");
    reveal_strlit("loopback-http");
    assert("local"@.len() == 5 && "loopback-http"@.len() == 13);
    let none = Seq::<char>::empty();
    let name = config.embedding_provider@;
    law_a_text_holds_its_middle("unsupported embedding provider: "@, name, none);
    assert("unsupported embedding provider: "@ + name + none =~= "unsupported embedding provider: "@
        + name);
    lemma_starts("http://localhost:"@, rest);
    lemma_starts("http://127.0.0.1:"@, rest);
    lemma_starts("http://[::1]:"@, rest);
}

proof fn lemma_starts(head: Seq<char>, rest: Seq<char>)
    ensures
        starts_with(head + rest, head),
{
    assert((head + rest).subrange(0, head.len() as int) =~= head);
    assert((head + rest).take(head.len() as int) =~= head);
}

} // verus!
