//! The inference-service boundary: building embedding and generation
//! requests, classifying HTTP outcomes, and accepting an embedding reply.
//! The transport itself lives outside the engine; these functions decide
//! what is sent and what a reply means.

use vstd::prelude::*;
use crate::config::Config;
use crate::math::{embedding_wf, COORD_BOUND, MAX_DIM};
use crate::models::{
    EngineError, OllamaEmbedRequest, OllamaEmbedResponse, OllamaGenerateRequest,
};

verus! {

/// Converts text to embedding vectors through the external inference
/// service; this side holds the service's address and the embedding model
/// identifier, while the transport lives with the caller.
#[derive(Debug, Clone, PartialEq)]
pub struct EmbeddingClient {
    pub ollama_url: String,
    pub model: String,
}

impl EmbeddingClient {
    /// Binds the client to the configured service URL and embedding model.
    pub fn new(config: &Config) -> (c: EmbeddingClient)
        ensures
            c.ollama_url@ == config.ollama_url@,
            c.model@ == config.embed_model@,
    {
        EmbeddingClient {
            ollama_url: config.ollama_url.clone(),
            model: config.embed_model.clone(),
        }
    }

    /// The embedding endpoint.
    pub fn embed_url(&self) -> (r: String)
        ensures
            r@ == self.ollama_url@ + "/api/embed"@,
    {
        self.ollama_url.clone().concat("/api/embed")
    }

    /// The body of an embedding call for one input text.
    pub fn embed_request(&self, text: &str) -> (r: OllamaEmbedRequest)
        ensures
            r.model@ == self.model@,
            r.input@ == text@,
    {
        OllamaEmbedRequest { model: self.model.clone(), input: String::from_str(text) }
    }
}

/// The generation endpoint.
pub fn generate_url(config: &Config) -> (r: String)
    ensures
        r@ == config.ollama_url@ + "/api/generate"@,
{
    config.ollama_url.clone().concat("/api/generate")
}

/// The body of a generation call: the configured chat model, the prompt,
/// and never a streaming reply.
pub fn generate_request(config: &Config, prompt: String) -> (r: OllamaGenerateRequest)
    ensures
        r.model@ == config.chat_model@,
        r.prompt == prompt,
        r.stream == false,
{
    OllamaGenerateRequest { model: config.chat_model.clone(), prompt, stream: false }
}

/// Classifies an HTTP reply status: success is exactly the 2xx range;
/// anything else is an upstream error carrying the status and body.
pub fn classify_status(status: u16, body: String) -> (r: Result<(), EngineError>)
    ensures
        match r {
            Result::Ok(u) => 200 <= status < 300,
            Result::Err(e) => !(200 <= status < 300) && e == (EngineError::UpstreamError {
                status,
                body,
            }),
        },
{
    if 200 <= status && status < 300 {
        Result::Ok(())
    } else {
        Result::Err(EngineError::UpstreamError { status, body })
    }
}

/// Accepts an embedding reply: exactly the first returned vector, a hard
/// protocol failure when the service returned none, and a protocol
/// failure as well when the vector exceeds the engine's dimension or
/// coordinate ceilings — an accepted vector is always well formed.
pub fn first_embedding(resp: OllamaEmbedResponse) -> (r: Result<Vec<i32>, EngineError>)
    ensures
        match r {
            Result::Ok(v) => resp.embeddings@.len() > 0 && v@ == resp.embeddings@[0]@
                && embedding_wf(v@),
            Result::Err(e) => match e {
                EngineError::UpstreamProtocolError(m) => (resp.embeddings@.len() == 0 && m@
                    == "no embedding returned"@) || (resp.embeddings@.len() > 0
                    && resp.embeddings@[0]@.len() > MAX_DIM && m@
                    == "embedding dimension out of range"@) || (resp.embeddings@.len() > 0
                    && resp.embeddings@[0]@.len() <= MAX_DIM && !embedding_wf(
                    resp.embeddings@[0]@,
                ) && m@ == "embedding coordinate out of range"@),
                _ => false,
            },
        },
{
    let ghost orig = resp.embeddings@;
    let mut embeddings = resp.embeddings;
    if embeddings.len() == 0 {
        return Result::Err(
            EngineError::UpstreamProtocolError(String::from_str("no embedding returned")),
        );
    }
    let v = embeddings.remove(0);
    proof {
        assert(v@ == orig[0]@);
    }
    if v.len() > MAX_DIM {
        return Result::Err(
            EngineError::UpstreamProtocolError(
                String::from_str("embedding dimension out of range"),
            ),
        );
    }
    let mut i: usize = 0;
    while i < v.len()
        invariant
            0 <= i <= v@.len(),
            v@ == orig[0]@,
            orig == resp.embeddings@,
            orig.len() > 0,
            v@.len() <= MAX_DIM,
            forall|k: int| 0 <= k < i ==> -COORD_BOUND <= #[trigger] v@[k] <= COORD_BOUND,
        decreases v@.len() - i,
    {
        let c = v[i];
        if c > COORD_BOUND || c < -COORD_BOUND {
            proof {
                assert(!embedding_wf(v@));
            }
            return Result::Err(
                EngineError::UpstreamProtocolError(
                    String::from_str("embedding coordinate out of range"),
                ),
            );
        }
        i = i + 1;
    }
    proof {
        assert(embedding_wf(v@));
    }
    Result::Ok(v)
}

} // verus!
