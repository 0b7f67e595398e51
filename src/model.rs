//! What a model must offer to drive an inference session, and what a sampler
//! must offer to pick the next token.
use vstd::prelude::*;

use crate::sampling::{InferenceParameters, TokenId};
use crate::session::{CacheState, InferenceSession, InferenceSessionConfig};

verus! {

/// Why a text could not be turned into tokens.
#[derive(Clone, Debug, PartialEq, Eq)]
pub enum TokenizationError {
    /// The tokenizer rejected the text; holds its message.
    TokenizationFailed(String),
    /// The tokenizer produced an id outside the vocabulary.
    InvalidTokenId,
}

/// Optional extra outputs of an evaluation. Values are binary32 bit patterns.
#[derive(Clone, Debug, PartialEq, Eq)]
pub struct OutputRequest {
    /// When present, receives the logits of every evaluated position.
    pub all_logits: Option<Vec<u32>>,
    /// When present, receives the embeddings of the evaluated positions.
    pub embeddings: Option<Vec<u32>>,
}

impl OutputRequest {
    /// A request for no extra output.
    pub fn none() -> (r: OutputRequest)
        ensures
            r.all_logits is None,
            r.embeddings is None,
    {
        OutputRequest { all_logits: None, embeddings: None }
    }
}

impl Default for OutputRequest {
    fn default() -> (r: OutputRequest)
        ensures
            r.all_logits is None,
            r.embeddings is None,
    {
        OutputRequest::none()
    }
}

/// A language model as an inference session sees it: its shape, its tokenizer,
/// and its forward pass. An implementation verified with the library describes
/// itself by overriding the specification functions; others leave them unknown.
pub trait Model {
    /// The size of the context window, in tokens.
    closed spec fn context_len(&self) -> nat {
        arbitrary()
    }

    /// The number of tokens in the vocabulary.
    closed spec fn vocab_len(&self) -> nat {
        arbitrary()
    }

    /// The number of layers.
    closed spec fn layer_count(&self) -> nat {
        arbitrary()
    }

    /// The width of the embedding.
    closed spec fn embedding_len(&self) -> nat {
        arbitrary()
    }

    /// The beginning-of-text token, if the model has one.
    closed spec fn bot(&self) -> Option<TokenId> {
        arbitrary()
    }

    /// The end-of-text token.
    closed spec fn eot(&self) -> TokenId {
        arbitrary()
    }

    /// The bytes that a token stands for.
    closed spec fn token_bytes(&self, id: TokenId) -> Seq<u8> {
        arbitrary()
    }

    /// The model's default inference parameters.
    closed spec fn default_parameters(&self) -> InferenceParameters {
        arbitrary()
    }

    /// What tokenizing `text` gives, with or without a beginning-of-text marker.
    closed spec fn tokenization(&self, text: Seq<char>, bos: bool) -> Result<Seq<TokenId>, TokenizationError> {
        arbitrary()
    }

    /// What a forward pass over `input` makes of the cache state `before`.
    closed spec fn evaluation(&self, before: CacheState, input: Seq<TokenId>) -> CacheState {
        arbitrary()
    }

    fn n_context_tokens(&self) -> (r: usize)
        ensures
            r == self.context_len(),
    ;

    fn n_vocab(&self) -> (r: usize)
        ensures
            r == self.vocab_len(),
    ;

    fn n_layer(&self) -> (r: usize)
        ensures
            r == self.layer_count(),
    ;

    fn n_embedding(&self) -> (r: usize)
        ensures
            r == self.embedding_len(),
    ;

    fn bot_token_id(&self) -> (r: Option<TokenId>)
        ensures
            r == self.bot(),
    ;

    fn eot_token_id(&self) -> (r: TokenId)
        ensures
            r == self.eot(),
    ;

    /// Splits `text` into tokens, prepending the beginning-of-text marker (if the
    /// model has one) when `bos` holds.
    fn tokenize(&self, text: &str, bos: bool) -> (r: Result<Vec<TokenId>, TokenizationError>)
        ensures
            match r {
                Ok(v) => self.tokenization(text@, bos) == Ok::<Seq<TokenId>, TokenizationError>(v@),
                Err(e) => self.tokenization(text@, bos) == Err::<Seq<TokenId>, TokenizationError>(e),
            },
    ;

    /// The bytes of token `id`.
    fn token(&self, id: TokenId) -> (r: Vec<u8>)
        ensures
            r@ == self.token_bytes(id),
    ;

    /// The model's default inference parameters.
    fn inference_parameters(&self) -> (r: &InferenceParameters)
        ensures
            *r == self.default_parameters(),
    ;

    /// A new session sized for this model.
    fn start_session(&self, config: InferenceSessionConfig) -> (s: InferenceSession)
        ensures
            s.is_fresh(
                config,
                self.context_len(),
                self.layer_count(),
                self.embedding_len(),
                self.vocab_len(),
            ),
    ;

    /// Runs the forward pass over `input_tokens`: appends their keys and values to
    /// the session's cache, advances `n_past` by their number and leaves the logits
    /// of the last of them in `last_logits`.
    fn evaluate(
        &self,
        session: &mut InferenceSession,
        params: &InferenceParameters,
        input_tokens: &[TokenId],
        output_request: &mut OutputRequest,
    )
        requires
            input_tokens@.len() > 0,
            old(session).n_past + input_tokens@.len() <= self.context_len(),
        ensures
            final(session).n_past == old(session).n_past + input_tokens@.len(),
            final(session).tokens@ == old(session).tokens@,
            final(session).config == old(session).config,
            final(session).memory_k@.len() == old(session).memory_k@.len(),
            final(session).memory_v@.len() == old(session).memory_v@.len(),
            final(session).state@.len() == old(session).state@.len(),
            final(session).last_logits@.len() == self.vocab_len(),
            final(session).cache_state() == self.evaluation(
                old(session).cache_state(),
                input_tokens@,
            ),
    ;
}

/// Picks the next token from the last logits (binary32 bit patterns, one per
/// vocabulary entry) and the tokens seen so far, or fails when the numbers allow no
/// pick. What it returns, and the state it moves to, depend on its own state and
/// its inputs alone. As for `Model`, an implementation verified with the library
/// overrides the specification functions; others leave them unknown.
pub trait Sampler {
    /// What is returned in this state.
    closed spec fn choice(
        &self,
        params: InferenceParameters,
        previous_tokens: Seq<TokenId>,
        logits: Seq<u32>,
    ) -> Result<TokenId, String> {
        arbitrary()
    }

    /// The state after sampling.
    closed spec fn advanced(
        &self,
        params: InferenceParameters,
        previous_tokens: Seq<TokenId>,
        logits: Seq<u32>,
    ) -> Self where Self: Sized {
        arbitrary()
    }

    /// Whether every pick from now on succeeds.
    closed spec fn never_fails(&self) -> bool {
        arbitrary()
    }

    fn sample(
        &mut self,
        params: &InferenceParameters,
        previous_tokens: &[TokenId],
        logits: &[u32],
    ) -> (r: Result<TokenId, String>) where Self: Sized
        requires
            logits@.len() > 0,
            params.top_k >= 1,
        ensures
            r == old(self).choice(*params, previous_tokens@, logits@),
            *final(self) == old(self).advanced(*params, previous_tokens@, logits@),
            r matches Ok(t) ==> (t as int) < logits@.len(),
            old(self).never_fails() ==> r is Ok && final(self).never_fails(),
    ;
}

/// Receives the bytes of fed tokens, one token at a time. The specification
/// functions are the implementation's to override, as for `Model`.
pub trait TokenSink {
    /// Everything received so far, one entry per call.
    closed spec fn received(&self) -> Seq<Seq<u8>> {
        arbitrary()
    }

    /// Whether every call from now on succeeds.
    closed spec fn accepts_all(&self) -> bool {
        arbitrary()
    }

    fn receive(&mut self, bytes: &[u8]) -> (r: Result<(), String>)
        ensures
            final(self).received() == old(self).received().push(bytes@),
            old(self).accepts_all() ==> r is Ok && final(self).accepts_all(),
    ;
}

/// Receives generated text in complete UTF-8 pieces. The specification functions
/// are the implementation's to override, as for `Model`.
pub trait TextSink {
    /// All text received so far, concatenated.
    closed spec fn received(&self) -> Seq<char> {
        arbitrary()
    }

    /// Whether every call from now on succeeds.
    closed spec fn accepts_all(&self) -> bool {
        arbitrary()
    }

    fn receive(&mut self, text: &str) -> (r: Result<(), String>)
        ensures
            final(self).received() == old(self).received() + text@,
            old(self).accepts_all() ==> r is Ok && final(self).accepts_all(),
    ;
}

} // verus!
