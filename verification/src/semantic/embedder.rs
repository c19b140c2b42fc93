//! Which embedder is used, how one on this machine is spoken to over HTTP, and
//! the terms that stand for a text in the deterministic one.

use crate::config::{KatokConfig, DEFAULT_EMBEDDER_MODEL};
use crate::digest::{sha256, sha256_of};
use crate::error::Error;
use crate::kakao::media_resolver::bytes_at;
use crate::text::number::{
    decimal, decimal_u64, decimal_usize, law_written_numbers_read_back, parsed_int,
};
use crate::text::split::{
    after_prefix, contains_text, first_at, first_index, last_before, last_index,
    law_a_text_holds_its_middle, lemma_first_at, lemma_last_before, split_words, starts_with,
    text_starts_with, words,
};
use crate::text::trim::{copy_range, ends_stripped, strip_ends, trim, trimmed};
use crate::text::{chars_of, owned, same, string_of};
use vstd::prelude::*;
use vstd::string::StringSliceAdditionalSpecFns;
use vstd::utf8::{decode_utf8, encode_utf8, valid_utf8};

verus! {

// ---------------------------------------------------------------------------
// The choice
// ---------------------------------------------------------------------------

/// An embedder.
#[derive(Debug, Clone, Copy, PartialEq, Eq, Structural)]
pub enum EmbedderChoice {
    /// A server on this machine.
    LoopbackHttp,
    /// The one that counts terms, for tests.
    Deterministic,
    /// The local model.
    Local,
}

/// Whether the environment asks for the deterministic embedder.
pub open spec fn asks_for_test(mode: Option<Seq<char>>) -> bool {
    mode == Some("mock"@) || mode == Some("local-test"@)
}

/// The embedder of a configuration, or why there is none.
pub open spec fn chosen(config: KatokConfig, mode: Option<Seq<char>>) -> Result<
    EmbedderChoice,
    Seq<char>,
> {
    if config.embedding_provider@ == "loopback-http"@ {
        Ok(EmbedderChoice::LoopbackHttp)
    } else if config.embedding_provider@ != "local"@ {
        Err("unsupported embedding provider: "@ + config.embedding_provider@)
    } else if asks_for_test(mode) {
        Ok(EmbedderChoice::Deterministic)
    } else if config.embedder_model@ != DEFAULT_EMBEDDER_MODEL@ {
        Err("unsupported local embedder model: "@ + config.embedder_model@)
    } else {
        Ok(EmbedderChoice::Local)
    }
}

/// The view of an optional text.
pub open spec fn opt_view(text: Option<&str>) -> Option<Seq<char>> {
    match text {
        Some(text) => Some(text@),
        None => None,
    }
}

/// The embedder of a configuration; `mode` is what the environment asks for.
pub fn choose_embedder(config: &KatokConfig, mode: Option<&str>) -> (r: Result<
    EmbedderChoice,
    Error,
>)
    ensures
        match r {
            Ok(choice) => chosen(*config, opt_view(mode)) == Ok::<_, Seq<char>>(choice),
            Err(error) => error is Embedding && chosen(*config, opt_view(mode)) == Err::<
                EmbedderChoice,
                _,
            >(error->Embedding_0@),
        },
{
    if same(config.embedding_provider.as_str(), "loopback-http") {
        return Ok(EmbedderChoice::LoopbackHttp);
    }
    if !same(config.embedding_provider.as_str(), "local") {
        return Err(
            Error::Embedding(
                owned("unsupported embedding provider: ").concat(
                    config.embedding_provider.as_str(),
                ),
            ),
        );
    }
    let test = match mode {
        Some(mode) => same(mode, "mock") || same(mode, "local-test"),
        None => false,
    };
    if test {
        return Ok(EmbedderChoice::Deterministic);
    }
    if !same(config.embedder_model.as_str(), DEFAULT_EMBEDDER_MODEL) {
        return Err(
            Error::Embedding(
                owned("unsupported local embedder model: ").concat(config.embedder_model.as_str()),
            ),
        );
    }
    Ok(EmbedderChoice::Local)
}

// ---------------------------------------------------------------------------
// The inputs
// ---------------------------------------------------------------------------

/// Whether `inputs` are the texts, each behind the prefix.
pub open spec fn are_passages(inputs: Seq<String>, prefix: Seq<char>, texts: Seq<String>) -> bool {
    &&& inputs.len() == texts.len()
    &&& forall|i: int| 0 <= i < texts.len() ==> (#[trigger] inputs[i])@ == prefix + texts[i]@
}

/// The texts, each behind the prefix.
fn prefixed(prefix: &str, texts: &[String]) -> (inputs: Vec<String>)
    ensures
        are_passages(inputs@, prefix@, texts@),
{
    let mut inputs: Vec<String> = Vec::new();
    for i in 0..texts.len()
        invariant
            are_passages(inputs@, prefix@, texts@.take(i as int)),
    {
        inputs.push(owned(prefix).concat(texts[i].as_str()));
    }
    proof {
        assert(texts@.take(texts@.len() as int) == texts@);
    }
    inputs
}

/// The trimmed query behind the prefix.
fn query_behind(prefix: &str, query: &str) -> (input: String)
    ensures
        input@ == prefix@ + trim(query@),
{
    let chars = chars_of(query);
    let bare = trimmed(chars.as_slice());
    let text = string_of(bare.as_slice());
    owned(prefix).concat(text.as_str())
}

/// What the local model is given for documents.
pub fn local_passages(texts: &[String]) -> (inputs: Vec<String>)
    ensures
        are_passages(inputs@, "passage: "@, texts@),
{
    prefixed("passage: ", texts)
}

/// What the local model is given for a query.
pub fn local_query(query: &str) -> (input: String)
    ensures
        input@ == "query: "@ + trim(query@),
{
    query_behind("query: ", query)
}

// ---------------------------------------------------------------------------
// The endpoint
// ---------------------------------------------------------------------------

/// A server on this machine.
#[derive(Debug, Clone, PartialEq, Eq)]
pub struct Endpoint {
    pub host: String,
    pub port: u16,
    pub path: String,
}

/// The model of an [`Endpoint`].
pub struct EndpointView {
    pub host: Seq<char>,
    pub port: int,
    pub path: Seq<char>,
}

/// The view of an endpoint.
pub open spec fn endpoint_view(e: Endpoint) -> EndpointView {
    EndpointView { host: e.host@, port: e.port as int, path: e.path@ }
}

/// The sentence with which `str::parse` refuses a port.
pub uninterp spec fn port_error(text: Seq<char>) -> Seq<char>;

/// `str::parse::<u16>`: an optional plus sign and digits, of a value that fits.
/// The sentence of a refusal depends on the text alone.
#[verifier::external_body]
fn parse_port(text: &str) -> (r: Result<u16, String>)
    ensures
        match r {
            Ok(port) => parsed_int(text@, false, 0, u16::MAX as int) == Some(port as int),
            Err(reason) => parsed_int(text@, false, 0, u16::MAX as int) is None && reason@
                == port_error(text@),
        },
{
    text.parse::<u16>().map_err(|error| error.to_string())
}

/// Whether a host is this machine.
pub open spec fn loopback_host(host: Seq<char>) -> bool {
    host == "localhost"@ || host == "127.0.0.1"@ || host == "::1"@
}

/// The part before the first slash.
pub open spec fn authority_of(rest: Seq<char>) -> Seq<char> {
    rest.take(first_at(rest, '/', 0))
}

/// The path behind the first slash, or `embed` where there is none.
pub open spec fn path_of(rest: Seq<char>) -> Seq<char> {
    let at = first_at(rest, '/', 0);
    if at < rest.len() {
        rest.skip(at + 1)
    } else {
        "embed"@
    }
}

/// What a loopback address says, or why it is refused.
pub open spec fn parsed_endpoint(raw: Seq<char>) -> Result<EndpointView, Seq<char>> {
    if !starts_with(raw, "http://"@) {
        Err("loopback endpoint must use http://"@)
    } else {
        let rest = raw.skip("http://"@.len() as int);
        let authority = authority_of(rest);
        let colon = last_before(authority, ':', authority.len() as int);
        if colon < 0 {
            Err("loopback endpoint requires a port"@)
        } else {
            let host = strip_ends(authority.take(colon), seq!['[', ']']);
            let port = authority.skip(colon + 1);
            match parsed_int(port, false, 0, u16::MAX as int) {
                None => Err("invalid loopback port: "@ + port_error(port)),
                Some(number) => if !loopback_host(host) {
                    Err("embedding endpoint must be loopback, got "@ + host)
                } else {
                    Ok(EndpointView { host, port: number, path: "/"@ + path_of(rest) })
                },
            }
        }
    }
}

/// Reads a loopback address.
pub fn parse_loopback_endpoint(raw: &str) -> (r: Result<Endpoint, Error>)
    ensures
        match r {
            Ok(endpoint) => parsed_endpoint(raw@) == Ok::<_, Seq<char>>(endpoint_view(endpoint)),
            Err(error) => error is Embedding && parsed_endpoint(raw@) == Err::<EndpointView, _>(
                error->Embedding_0@,
            ),
        },
{
    let rest = match after_prefix(raw, "http://") {
        Some(rest) => rest,
        None => return Err(Error::Embedding(owned("loopback endpoint must use http://"))),
    };
    let chars = chars_of(rest.as_str());
    let total: usize = chars.len();
    let slash: usize = first_index(chars.as_slice(), '/', 0);
    let authority = copy_range(chars.as_slice(), 0, slash);
    proof {
        assert(authority@ =~= authority_of(rest@));
    }
    let path = if slash < total {
        let tail = copy_range(chars.as_slice(), slash + 1, total);
        proof {
            assert(tail@ =~= path_of(rest@));
        }
        string_of(tail.as_slice())
    } else {
        owned("embed")
    };
    let colon: usize = match last_index(authority.as_slice(), ':') {
        Some(colon) => colon,
        None => return Err(Error::Embedding(owned("loopback endpoint requires a port"))),
    };
    let host_chars = copy_range(authority.as_slice(), 0, colon);
    let port_chars = copy_range(authority.as_slice(), colon + 1, authority.len());
    let brackets: [char; 2] = ['[', ']'];
    proof {
        assert(brackets@ =~= seq!['[', ']']);
        assert(host_chars@ =~= authority@.take(colon as int));
        assert(port_chars@ =~= authority@.skip(colon + 1));
    }
    let bare = ends_stripped(host_chars.as_slice(), &brackets);
    let host = string_of(bare.as_slice());
    let port_text = string_of(port_chars.as_slice());
    let port: u16 = match parse_port(port_text.as_str()) {
        Ok(port) => port,
        Err(reason) => {
            return Err(
                Error::Embedding(owned("invalid loopback port: ").concat(reason.as_str())),
            );
        },
    };
    if !(same(host.as_str(), "localhost") || same(host.as_str(), "127.0.0.1") || same(
        host.as_str(),
        "::1",
    )) {
        return Err(
            Error::Embedding(
                owned("embedding endpoint must be loopback, got ").concat(host.as_str()),
            ),
        );
    }
    Ok(Endpoint { host, port, path: owned("/").concat(path.as_str()) })
}

/// An address that is accepted is on this machine.
pub proof fn law_accepted_endpoint_is_loopback(raw: Seq<char>)
    ensures
        parsed_endpoint(raw) matches Ok(endpoint) ==> loopback_host(endpoint.host),
{
}

// ---------------------------------------------------------------------------
// Speaking to the server
// ---------------------------------------------------------------------------

/// An embedder on this machine that is spoken to over HTTP.
#[derive(Debug, Clone)]
pub struct LoopbackHttpEmbedder {
    pub endpoint: Endpoint,
    pub model: String,
    pub dimension: usize,
    pub timeout_ms: u64,
    pub query_prefix: String,
    pub passage_prefix: String,
    pub identity: String,
}

/// What tells one configuration of the embedder from another: vectors made
/// under one are not compared with those made under another.
pub open spec fn identity_of(config: KatokConfig) -> Seq<char> {
    "embeddinggemma/loopback-http:"@ + config.embedder_model@ + ":"@ + decimal(
        config.vector_dimension as nat,
    ) + ":"@ + config.embedding_query_prefix@ + ":"@ + config.embedding_passage_prefix@ + ":"@
        + decimal(config.embedding_timeout_ms as nat) + ":"@ + match config.embedding_endpoint {
        Some(endpoint) => endpoint@,
        None => seq![],
    }
}

impl LoopbackHttpEmbedder {
    /// The embedder of a configuration.
    pub fn new(config: &KatokConfig) -> (r: Result<LoopbackHttpEmbedder, Error>)
        ensures
            match config.embedding_endpoint {
                None => r matches Err(error) && error is Embedding && error->Embedding_0@
                    == "loopback-http requires embedding_endpoint"@,
                Some(raw) => match r {
                    Ok(embedder) => {
                        &&& parsed_endpoint(raw@) == Ok::<_, Seq<char>>(
                            endpoint_view(embedder.endpoint),
                        )
                        &&& embedder.model@ == config.embedder_model@
                        &&& embedder.dimension == config.vector_dimension
                        &&& embedder.timeout_ms == if config.embedding_timeout_ms == 0 {
                            1
                        } else {
                            config.embedding_timeout_ms
                        }
                        &&& embedder.query_prefix@ == config.embedding_query_prefix@
                        &&& embedder.passage_prefix@ == config.embedding_passage_prefix@
                        &&& embedder.identity@ == identity_of(*config)
                    },
                    Err(error) => error is Embedding && parsed_endpoint(raw@) == Err::<
                        EndpointView,
                        _,
                    >(error->Embedding_0@),
                },
            },
    {
        let raw: &String = match &config.embedding_endpoint {
            Some(raw) => raw,
            None => {
                return Err(Error::Embedding(owned("loopback-http requires embedding_endpoint")));
            },
        };
        let endpoint = match parse_loopback_endpoint(raw.as_str()) {
            Ok(endpoint) => endpoint,
            Err(error) => return Err(error),
        };
        let dimension = decimal_u64(config.vector_dimension as u64);
        let timeout = decimal_u64(config.embedding_timeout_ms);
        let mut identity = owned("embeddinggemma/loopback-http:");
        identity.append(config.embedder_model.as_str());
        identity.append(":");
        identity.append(dimension.as_str());
        identity.append(":");
        identity.append(config.embedding_query_prefix.as_str());
        identity.append(":");
        identity.append(config.embedding_passage_prefix.as_str());
        identity.append(":");
        identity.append(timeout.as_str());
        identity.append(":");
        identity.append(raw.as_str());
        Ok(
            LoopbackHttpEmbedder {
                endpoint,
                model: config.embedder_model.clone(),
                dimension: config.vector_dimension as usize,
                timeout_ms: if config.embedding_timeout_ms == 0 {
                    1
                } else {
                    config.embedding_timeout_ms
                },
                query_prefix: config.embedding_query_prefix.clone(),
                passage_prefix: config.embedding_passage_prefix.clone(),
                identity,
            },
        )
    }

    /// The inputs of a request for documents: each text behind the passage prefix.
    pub fn passages(&self, texts: &[String]) -> (inputs: Vec<String>)
        ensures
            are_passages(inputs@, self.passage_prefix@, texts@),
    {
        prefixed(self.passage_prefix.as_str(), texts)
    }

    /// The input of a request for a query: the trimmed query behind the query prefix.
    pub fn query_input(&self, query: &str) -> (input: String)
        ensures
            input@ == self.query_prefix@ + trim(query@),
    {
        query_behind(self.query_prefix.as_str(), query)
    }

    /// The head of a request with a body of `body_len` bytes.
    pub fn request_head(&self, body_len: usize) -> (head: String)
        ensures
            head@ == "POST "@ + self.endpoint.path@ + " HTTP/1.1\r\nHost: "@ + self.endpoint.host@
                + "\r\nContent-Type: application/json\r\nContent-Length: "@ + decimal(
                body_len as nat,
            ) + "\r\nConnection: close\r\n\r\n"@,
    {
        let length = decimal_usize(body_len);
        let mut head = owned("POST ");
        head.append(self.endpoint.path.as_str());
        head.append(" HTTP/1.1\r\nHost: ");
        head.append(self.endpoint.host.as_str());
        head.append("\r\nContent-Type: application/json\r\nContent-Length: ");
        head.append(length.as_str());
        head.append("\r\nConnection: close\r\n\r\n");
        head
    }

    /// Refuses a reply that has not one vector of the right dimension per input;
    /// `lengths` are the numbers of components that came back.
    pub fn check_vectors(&self, lengths: &[usize], inputs: usize) -> (r: Result<(), Error>)
        ensures
            match r {
                Ok(_) => fit_request(lengths@, inputs as int, self.dimension as int),
                Err(error) => !fit_request(lengths@, inputs as int, self.dimension as int)
                    && error is Embedding && error->Embedding_0@ == "endpoint returned "@ + decimal(
                    lengths@.len(),
                ) + " embeddings with expected "@ + decimal(inputs as nat)
                    + " vectors of dimension "@ + decimal(self.dimension as nat),
            },
    {
        let mut fits = lengths.len() == inputs;
        for i in 0..lengths.len()
            invariant
                fits == (lengths@.len() == inputs && forall|k: int|
                    0 <= k < i ==> lengths@[k] == self.dimension),
        {
            if lengths[i] != self.dimension {
                fits = false;
            }
        }
        if fits {
            return Ok(());
        }
        let got = decimal_usize(lengths.len());
        let wanted = decimal_usize(inputs);
        let dimension = decimal_usize(self.dimension);
        let mut reason = owned("endpoint returned ");
        reason.append(got.as_str());
        reason.append(" embeddings with expected ");
        reason.append(wanted.as_str());
        reason.append(" vectors of dimension ");
        reason.append(dimension.as_str());
        Err(Error::Embedding(reason))
    }
}

/// Whether there is one vector of the right dimension per input.
pub open spec fn fit_request(lengths: Seq<usize>, inputs: int, dimension: int) -> bool {
    lengths.len() == inputs && forall|k: int| 0 <= k < lengths.len() ==> lengths[k] == dimension
}

/// The four bytes between the head of a reply and its body.
pub open spec fn blank_line() -> Seq<u8> {
    seq![13u8, 10, 13, 10]
}

/// The sentence with which `std::str::from_utf8` refuses bytes.
pub uninterp spec fn utf8_error(bytes: Seq<u8>) -> Seq<char>;

/// `std::str::from_utf8`: the text that the bytes encode, where they are UTF-8.
/// The sentence of a refusal depends on the bytes alone.
#[verifier::external_body]
fn utf8_text(bytes: &[u8]) -> (r: Result<String, String>)
    ensures
        match r {
            Ok(text) => valid_utf8(bytes@) && text@ == decode_utf8(bytes@),
            Err(reason) => !valid_utf8(bytes@) && reason@ == utf8_error(bytes@),
        },
{
    std::str::from_utf8(bytes).map(|text| text.to_owned()).map_err(|error| error.to_string())
}

/// The first line of a head: without the line break that ends it.
pub open spec fn first_line(head: Seq<char>) -> Seq<char> {
    if head.len() == 0 {
        "unknown status"@
    } else {
        let end = first_at(head, '\n', 0);
        if 0 < end < head.len() && head[end - 1] == '\r' {
            head.take(end - 1)
        } else {
            head.take(end)
        }
    }
}

/// Whether the head of a reply reports success.
pub open spec fn success(head: Seq<char>) -> bool {
    starts_with(head, "HTTP/1.1 200 "@) || starts_with(head, "HTTP/1.0 200 "@)
}

/// Why a reply whose head ends at `end` is refused, where it is.
pub open spec fn head_problem(response: Seq<u8>, end: int) -> Option<Seq<char>> {
    let head = response.take(end);
    if !valid_utf8(head) {
        Some("invalid embedding headers: "@ + utf8_error(head))
    } else if !success(decode_utf8(head)) {
        Some("embedding endpoint returned "@ + first_line(decode_utf8(head)))
    } else {
        None
    }
}

/// Where the head of a reply ends.
fn head_end(response: &[u8]) -> (r: Option<usize>)
    ensures
        match r {
            Some(end) => bytes_at(response@, end as int, blank_line()) && end + 4 <= response@.len()
                && forall|j: int| 0 <= j < end ==> !bytes_at(response@, j, blank_line()),
            None => forall|j: int| 0 <= j ==> !bytes_at(response@, j, blank_line()),
        },
{
    let total: usize = response.len();
    let mut i: usize = 0;
    while i < total && total - i >= 4
        invariant
            i <= total == response@.len(),
            forall|j: int| 0 <= j < i ==> !bytes_at(response@, j, blank_line()),
        decreases total - i,
    {
        let found = response[i] == 13 && response[i + 1] == 10 && response[i + 2] == 13
            && response[i + 3] == 10;
        proof {
            let piece = response@.subrange(i as int, i + 4);
            assert(piece[0] == response@[i as int] && piece[1] == response@[i + 1] && piece[2]
                == response@[i + 2] && piece[3] == response@[i + 3]);
            let line = blank_line();
            assert(line[0] == 13 && line[1] == 10 && line[2] == 13 && line[3] == 10);
            if found {
                assert(piece =~= line);
            }
        }
        if found {
            return Some(i);
        }
        i = i + 1;
    }
    None
}

/// Where the body of a reply starts; an error where the reply is no HTTP
/// success.
pub fn response_body_start(response: &[u8]) -> (r: Result<usize, Error>)
    ensures
        match r {
            Ok(start) => start >= 4 && start <= response@.len() && bytes_at(
                response@,
                start - 4,
                blank_line(),
            ) && (forall|j: int| 0 <= j < start - 4 ==> !bytes_at(response@, j, blank_line()))
                && head_problem(response@, start - 4) is None,
            Err(error) => error is Embedding && (((forall|j: int|
                0 <= j ==> !bytes_at(response@, j, blank_line())) && error->Embedding_0@
                == "embedding response has no headers"@) || exists|end: int|
                0 <= end && #[trigger] bytes_at(response@, end, blank_line()) && (forall|j: int|
                    0 <= j < end ==> !bytes_at(response@, j, blank_line())) && head_problem(
                    response@,
                    end,
                ) == Some(error->Embedding_0@)),
        },
{
    let total: usize = response.len();
    let end: usize = match head_end(response) {
        Some(end) => end,
        None => return Err(Error::Embedding(owned("embedding response has no headers"))),
    };
    let (head_bytes, _) = response.split_at(end);
    proof {
        assert(head_bytes@ =~= response@.take(end as int));
    }
    let head = match utf8_text(head_bytes) {
        Ok(head) => head,
        Err(reason) => {
            return Err(
                Error::Embedding(owned("invalid embedding headers: ").concat(reason.as_str())),
            );
        },
    };
    match check_status(head.as_str()) {
        Ok(_) => Ok(end + 4),
        Err(error) => Err(error),
    }
}

/// Refuses the head of a reply that does not report success.
pub fn check_status(head: &str) -> (r: Result<(), Error>)
    ensures
        match r {
            Ok(_) => success(head@),
            Err(error) => !success(head@) && error is Embedding && error->Embedding_0@
                == "embedding endpoint returned "@ + first_line(head@),
        },
{
    if text_starts_with(head, "HTTP/1.1 200 ") || text_starts_with(head, "HTTP/1.0 200 ") {
        return Ok(());
    }
    let chars = chars_of(head);
    if chars.len() == 0 {
        return Err(
            Error::Embedding(owned("embedding endpoint returned ").concat("unknown status")),
        );
    }
    let end: usize = first_index(chars.as_slice(), '\n', 0);
    let cut: usize = if end > 0 && end < chars.len() && chars[end - 1] == '\r' {
        end - 1
    } else {
        end
    };
    let line = copy_range(chars.as_slice(), 0, cut);
    proof {
        assert(line@ =~= first_line(head@));
    }
    let text = string_of(line.as_slice());
    Err(Error::Embedding(owned("embedding endpoint returned ").concat(text.as_str())))
}

// ---------------------------------------------------------------------------
// Counting terms
// ---------------------------------------------------------------------------

/// The number that `bytes` denote, least significant byte first.
pub open spec fn le_value(bytes: Seq<u8>) -> nat
    decreases bytes.len(),
{
    if bytes.len() == 0 {
        0
    } else {
        bytes[0] as nat + 256 * le_value(bytes.drop_first())
    }
}

/// The component that a term counts in, by its digest.
pub open spec fn digest_bucket(digest: Seq<u8>, dimension: nat) -> nat {
    le_value(digest.take(8)) % dimension
}

/// The component that a term counts in.
pub open spec fn bucket(term: Seq<char>, dimension: nat) -> nat {
    digest_bucket(sha256(encode_utf8(term)), dimension)
}

/// How many of the terms count in component `k`.
pub open spec fn bucket_count(terms: Seq<Seq<char>>, dimension: nat, k: nat) -> nat
    decreases terms.len(),
{
    if terms.len() == 0 {
        0
    } else {
        bucket_count(terms.drop_last(), dimension, k) + if bucket(terms.last(), dimension) == k {
            1nat
        } else {
            0
        }
    }
}

proof fn lemma_bucket_count_bound(terms: Seq<Seq<char>>, dimension: nat, k: nat)
    ensures
        bucket_count(terms, dimension, k) <= terms.len(),
    decreases terms.len(),
{
    if terms.len() > 0 {
        lemma_bucket_count_bound(terms.drop_last(), dimension, k);
    }
}

/// The component that a digest counts in.
pub fn bucket_of_digest(digest: &[u8], dimension: usize) -> (k: usize)
    requires
        digest@.len() >= 8,
        dimension > 0,
    ensures
        k == digest_bucket(digest@, dimension as nat),
        k < dimension,
{
    let ghost head = digest@.take(8);
    let b7: u64 = digest[7] as u64;
    let b6: u64 = digest[6] as u64;
    let b5: u64 = digest[5] as u64;
    let b4: u64 = digest[4] as u64;
    let b3: u64 = digest[3] as u64;
    let b2: u64 = digest[2] as u64;
    let b1: u64 = digest[1] as u64;
    let b0: u64 = digest[0] as u64;
    let v7: u64 = b7;
    let v6: u64 = v7 * 256 + b6;
    let v5: u64 = v6 * 256 + b5;
    let v4: u64 = v5 * 256 + b4;
    let v3: u64 = v4 * 256 + b3;
    let v2: u64 = v3 * 256 + b2;
    let v1: u64 = v2 * 256 + b1;
    let value: u64 = v1 * 256 + b0;
    proof {
        assert(le_value(head) == value) by {
            reveal_with_fuel(le_value, 9);
            let h1 = head.drop_first();
            let h2 = h1.drop_first();
            let h3 = h2.drop_first();
            let h4 = h3.drop_first();
            let h5 = h4.drop_first();
            let h6 = h5.drop_first();
            let h7 = h6.drop_first();
            assert(h7.drop_first() =~= Seq::<u8>::empty());
            assert(h7[0] == digest@[7]);
            assert(le_value(h7) == v7);
            assert(le_value(h6) == v6);
            assert(le_value(h5) == v5);
            assert(le_value(h4) == v4);
            assert(le_value(h3) == v3);
            assert(le_value(h2) == v2);
            assert(le_value(h1) == v1);
        }
    }
    (value % (dimension as u64)) as usize
}

/// How many terms of `text` count in each of `dimension` components.
pub fn term_counts(text: &str, dimension: usize) -> (r: Result<Vec<usize>, Error>)
    ensures
        match r {
            Ok(counts) => dimension > 0 && counts@.len() == dimension && forall|k: int|
                0 <= k < dimension ==> (#[trigger] counts@[k]) == bucket_count(
                    words(text@),
                    dimension as nat,
                    k as nat,
                ),
            Err(error) => dimension == 0 && error is Embedding && error->Embedding_0@
                == "embedding dimension must be nonzero"@,
        },
{
    if dimension == 0 {
        return Err(Error::Embedding(owned("embedding dimension must be nonzero")));
    }
    let chars = chars_of(text);
    let parts = split_words(chars.as_slice());
    let ghost terms = words(text@);
    let zero: usize = 0;
    let mut counts: Vec<usize> = vec![zero; dimension];
    let total: usize = parts.len();
    for i in 0..total
        invariant
            dimension > 0,
            total == parts@.len(),
            parts@.map_values(|p: Vec<char>| p@) == terms,
            counts@.len() == dimension,
            forall|k: int|
                0 <= k < dimension ==> (#[trigger] counts@[k]) == bucket_count(
                    terms.take(i as int),
                    dimension as nat,
                    k as nat,
                ),
    {
        let term = string_of(parts[i].as_slice());
        let digest = sha256_of(term.as_str().as_bytes());
        let k: usize = bucket_of_digest(digest.as_slice(), dimension);
        proof {
            assert(terms[i as int] == parts@[i as int]@);
            assert(terms.take(i + 1).drop_last() =~= terms.take(i as int));
            lemma_bucket_count_bound(terms.take(i as int), dimension as nat, k as nat);
            assert(counts@[k as int] == bucket_count(
                terms.take(i as int),
                dimension as nat,
                k as nat,
            ));
        }
        let n: usize = counts[k];
        counts.set(k, n + 1);
    }
    proof {
        assert(terms.take(total as int) =~= terms);
    }
    Ok(counts)
}

// ---------------------------------------------------------------------------
// Laws
// ---------------------------------------------------------------------------

/// What is handed to a model ends with the whole text and has nothing but the
/// prefix before it, text by text in the order given.
pub proof fn law_whole_texts_are_handed_over(
    inputs: Seq<String>,
    prefix: Seq<char>,
    texts: Seq<String>,
)
    requires
        are_passages(inputs, prefix, texts),
    ensures
        inputs.len() == texts.len(),
        forall|i: int|
            0 <= i < texts.len() ==> {
                let input = (#[trigger] inputs[i])@;
                &&& input.len() == prefix.len() + texts[i]@.len()
                &&& input.take(prefix.len() as int) == prefix
                &&& input.skip(prefix.len() as int) == texts[i]@
            },
{
    assert forall|i: int| 0 <= i < texts.len() implies {
        let input = (#[trigger] inputs[i])@;
        &&& input.len() == prefix.len() + texts[i]@.len()
        &&& input.take(prefix.len() as int) == prefix
        &&& input.skip(prefix.len() as int) == texts[i]@
    } by {
        let input = inputs[i]@;
        assert(input.take(prefix.len() as int) =~= prefix);
        assert(input.skip(prefix.len() as int) =~= texts[i]@);
    }
}

/// An address is read as it is written: the host, the port and what stands behind
/// the first slash.
pub proof fn law_an_address_is_read_as_written(host: Seq<char>, port: nat, path: Seq<char>)
    requires
        host == "localhost"@ || host == "127.0.0.1"@,
        port <= u16::MAX,
    ensures
        parsed_endpoint("http://"@ + host + seq![':'] + decimal(port) + seq!['/'] + path) == Ok::<
            _,
            Seq<char>,
        >(EndpointView { host, port: port as int, path: seq!['/'] + path }),
{
    reveal_strlit("http://");
    reveal_strlit("/");
    reveal_strlit("localhost");
    reveal_strlit("127.0.0.1");
    let digits = decimal(port);
    let raw = "http://"@ + host + seq![':'] + digits + seq!['/'] + path;
    let rest = host + seq![':'] + digits + seq!['/'] + path;
    let authority = host + seq![':'] + digits;
    law_written_numbers_read_back(port as int, 0, u16::MAX as int);
    assert(raw.subrange(0, 7) =~= "http://"@);
    assert(raw.skip(7) =~= rest);
    let n = authority.len() as int;
    assert forall|i: int| 0 <= i < n implies rest[i] != '/' by {
        if i < host.len() {
            assert(rest[i] == host[i]);
        } else if i > host.len() {
            assert(rest[i] == digits[i - host.len() - 1]);
        }
    }
    lemma_first_at(rest, '/', 0);
    assert(rest[n] == '/');
    assert(first_at(rest, '/', 0) == n);
    assert(rest.take(n) =~= authority);
    assert(rest.skip(n + 1) =~= path);
    lemma_last_before(authority, ':', n);
    let m = host.len() as int;
    assert(authority[m] == ':');
    assert forall|i: int| m < i < n implies authority[i] != ':' by {
        assert(authority[i] == digits[i - m - 1]);
    }
    assert(last_before(authority, ':', n) == m);
    assert(authority.take(m) =~= host);
    assert(authority.skip(m + 1) =~= digits);
    let brackets = seq!['[', ']'];
    assert(!brackets.contains(host[0]) && !brackets.contains(host.last()));
    assert(strip_ends(host, brackets) == host);
    lemma_unsigned(digits, port as int);
    assert("/"@ + path =~= seq!['/'] + path);
}

/// A number without a sign reads the same where no minus is allowed.
proof fn lemma_unsigned(digits: Seq<char>, n: int)
    requires
        parsed_int(digits, true, 0, u16::MAX as int) == Some(n),
        digits.len() > 0,
        forall|i: int| 0 <= i < digits.len() ==> 48 <= (#[trigger] digits[i]) as int <= 57,
    ensures
        parsed_int(digits, false, 0, u16::MAX as int) == Some(n),
{
    assert(48 <= digits[0] as int <= 57);
}

/// Only this machine is spoken to, by one of its names, over plain HTTP.
pub proof fn law_only_this_machine_is_spoken_to(raw: Seq<char>)
    ensures
        parsed_endpoint(raw) matches Ok(e) ==> (e.host == "localhost"@ || e.host == "127.0.0.1"@
            || e.host == "::1"@) && 0 <= e.port <= 65535 && e.path.len() > 0 && e.path[0] == '/'
            && raw.len() > 7 && raw.take(7) == "http://"@,
{
    reveal_strlit("http://");
    reveal_strlit("/");
    if parsed_endpoint(raw) is Ok {
        assert(raw.subrange(0, 7) =~= raw.take(7));
        let rest = raw.skip(7);
        if rest.len() == 0 {
            lemma_first_at(rest, '/', 0);
            lemma_last_before(authority_of(rest), ':', authority_of(rest).len() as int);
        }
    }
}

/// A reply counts as a success by its status: what says another number does not.
pub proof fn law_success_is_the_status(head: Seq<char>)
    ensures
        success(head) ==> head.len() >= 13 && head[9] == '2' && head[10] == '0' && head[11] == '0'
            && head[12] == ' ',
        head.len() >= 13 && (head.take(13) == "HTTP/1.1 200 "@ || head.take(13)
            == "HTTP/1.0 200 "@) ==> success(head),
{
    reveal_strlit("HTTP/1.1 200 ");
    reveal_strlit("HTTP/1.0 200 ");
    if head.len() >= 13 {
        assert(head.subrange(0, 13) =~= head.take(13));
        assert(head.take(13)[9] == head[9] && head.take(13)[10] == head[10] && head.take(13)[11]
            == head[11] && head.take(13)[12] == head[12]);
    }
}

/// An embedder is the one that the settings name: a server only where they name
/// it, the local model only under its own name, the one for tests only where the
/// environment asks for it. Anything else is refused.
pub proof fn law_the_named_embedder_is_chosen(config: KatokConfig, mode: Option<Seq<char>>)
    ensures
        chosen(config, mode) matches Ok(choice) ==> {
            &&& choice == EmbedderChoice::LoopbackHttp <==> config.embedding_provider@
                == "loopback-http"@
            &&& choice == EmbedderChoice::Local ==> config.embedding_provider@ == "local"@
                && config.embedder_model@ == "embeddinggemma-300m-q4"@
            &&& choice == EmbedderChoice::Deterministic ==> config.embedding_provider@ == "local"@
                && (mode == Some("mock"@) || mode == Some("local-test"@))
        },
        mode is None && config.embedding_provider@ == "local"@ && config.embedder_model@
            == "embeddinggemma-300m-q4"@ ==> chosen(config, mode) is Ok,
        config.embedding_provider@ != "local"@ && config.embedding_provider@ != "loopback-http"@
            ==> chosen(config, mode) is Err,
{
    reveal_strlit("local");
    reveal_strlit("loopback-http");
    assert("local"@.len() == 5 && "loopback-http"@.len() == 13);
}

/// What tells embedders apart holds everything that decides their vectors: the
/// model, the number of components, both prefixes, and the endpoint.
pub proof fn law_the_identity_holds_what_matters(config: KatokConfig)
    ensures
        contains_text(identity_of(config), config.embedder_model@),
        contains_text(identity_of(config), decimal(config.vector_dimension as nat)),
        contains_text(identity_of(config), config.embedding_query_prefix@),
        contains_text(identity_of(config), config.embedding_passage_prefix@),
        config.embedding_endpoint matches Some(endpoint) ==> contains_text(
            identity_of(config),
            endpoint@,
        ),
{
    let all = identity_of(config);
    let end = match config.embedding_endpoint {
        Some(endpoint) => endpoint@,
        None => seq![],
    };
    let lead = "embeddinggemma/loopback-http:"@;
    let c = ":"@;
    let (m, d) = (config.embedder_model@, decimal(config.vector_dimension as nat));
    let (q, p) = (config.embedding_query_prefix@, config.embedding_passage_prefix@);
    let t = decimal(config.embedding_timeout_ms as nat);
    let tail = c + t + c + end;
    assert(all =~= lead + m + (c + d + c + q + c + p + tail));
    law_a_text_holds_its_middle(lead, m, c + d + c + q + c + p + tail);
    assert(all =~= (lead + m + c) + d + (c + q + c + p + tail));
    law_a_text_holds_its_middle(lead + m + c, d, c + q + c + p + tail);
    assert(all =~= (lead + m + c + d + c) + q + (c + p + tail));
    law_a_text_holds_its_middle(lead + m + c + d + c, q, c + p + tail);
    assert(all =~= (lead + m + c + d + c + q + c) + p + tail);
    law_a_text_holds_its_middle(lead + m + c + d + c + q + c, p, tail);
    let before = lead + m + c + d + c + q + c + p + c + t + c;
    assert(all =~= before + end + Seq::<char>::empty());
    law_a_text_holds_its_middle(before, end, Seq::<char>::empty());
}

/// Every term counts for one in the component that its digest picks, and in no
/// other; the component is one of those that there are.
pub proof fn law_every_term_counts_in_one_component(
    terms: Seq<Seq<char>>,
    term: Seq<char>,
    dimension: nat,
    k: nat,
)
    requires
        dimension > 0,
    ensures
        bucket(term, dimension) < dimension,
        bucket_count(terms.push(term), dimension, k) == bucket_count(terms, dimension, k) + if k
            == bucket(term, dimension) {
            1int
        } else {
            0
        },
        bucket_count(seq![], dimension, k) == 0,
        bucket_count(terms, dimension, k) <= terms.len(),
{
    assert(terms.push(term).drop_last() =~= terms);
    lemma_bucket_count_bound(terms, dimension, k);
}

/// A refused reply is named by its first line, whole and without the line break.
pub proof fn law_a_refusal_names_the_first_line(line: Seq<char>, rest: Seq<char>)
    requires
        line.len() > 0,
        !line.contains('\n'),
        line[line.len() - 1] != '\r',
    ensures
        first_line(line) == line,
        first_line(line.push('\n') + rest) == line,
        first_line(line.push('\r').push('\n') + rest) == line,
{
    lemma_first_at(line, '\n', 0);
    if first_at(line, '\n', 0) < line.len() {
        assert(line.contains(line[first_at(line, '\n', 0)]));
    }
    assert(line.take(line.len() as int) =~= line);
    let bare = line.push('\n') + rest;
    lemma_first_at(bare, '\n', 0);
    let at = first_at(bare, '\n', 0);
    if at < line.len() {
        assert(bare[at] == line[at]);
        assert(line.contains(line[at]));
    }
    assert(bare[line.len() as int] == '\n');
    assert(bare.take(at) =~= line);
    let full = line.push('\r').push('\n') + rest;
    lemma_first_at(full, '\n', 0);
    let end = first_at(full, '\n', 0);
    if end < line.len() {
        assert(full[end] == line[end]);
        assert(line.contains(line[end]));
    }
    assert(full[line.len() as int] == '\r');
    assert(full[line.len() as int + 1] == '\n');
    assert(full.take(end - 1) =~= line);
}

/// A reply is taken exactly where its head is text and reports success; one that
/// is text and reports something else is refused with what it reports.
pub proof fn law_only_a_success_is_taken(head: Seq<u8>, rest: Seq<u8>)
    ensures
        head_problem(head + rest, head.len() as int) is None <==> valid_utf8(head) && success(
            decode_utf8(head),
        ),
        valid_utf8(head) && !success(decode_utf8(head)) ==> head_problem(
            head + rest,
            head.len() as int,
        ) == Some("embedding endpoint returned "@ + first_line(decode_utf8(head))),
{
    assert((head + rest).take(head.len() as int) =~= head);
}

/// Vectors fit a request only where there is one for each input and each has as
/// many components as the model: one more, one less or one of another length does
/// not.
pub proof fn law_vectors_fit_one_by_one(lengths: Seq<usize>, more: usize, inputs: int, dimension: int)
    ensures
        fit_request(seq![], 0, dimension),
        fit_request(lengths, inputs, dimension) ==> (fit_request(
            lengths.push(more),
            inputs + 1,
            dimension,
        ) <==> more == dimension),
        fit_request(lengths, inputs, dimension) ==> !fit_request(
            lengths,
            inputs + 1,
            dimension,
        ) && !fit_request(lengths.push(more), inputs, dimension),
{
    if fit_request(lengths, inputs, dimension) {
        let longer = lengths.push(more);
        assert(longer[lengths.len() as int] == more);
        if more == dimension {
            assert forall|k: int| 0 <= k < longer.len() implies longer[k] == dimension by {
                if k < lengths.len() {
                    assert(longer[k] == lengths[k]);
                }
            }
        }
    }
}

/// A component is picked by the first eight bytes of a digest, the least
/// significant first; the rest of the digest does not matter.
pub proof fn law_the_first_bytes_pick_the_component(
    low: u8,
    bytes: Seq<u8>,
    digest: Seq<u8>,
    rest: Seq<u8>,
    dimension: nat,
)
    requires
        digest.len() == 8,
        dimension > 0,
    ensures
        le_value(seq![]) == 0,
        le_value(seq![low] + bytes) == low + 256 * le_value(bytes),
        digest_bucket(digest + rest, dimension) == le_value(digest) % dimension,
        digest_bucket(digest + rest, dimension) < dimension,
{
    assert((seq![low] + bytes).drop_first() =~= bytes);
    assert((digest + rest).take(8) =~= digest);
}

/// An endpoint is seen as it is: the host, the port and the path each as itself.
pub proof fn law_an_endpoint_is_seen_as_it_is(e: Endpoint)
    ensures
        endpoint_view(e).host == e.host@,
        endpoint_view(e).port == e.port,
        endpoint_view(e).path == e.path@,
{
}

} // verus!
