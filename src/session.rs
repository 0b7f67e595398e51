//! The inference session: the token history, the key/value cache and the last
//! logits of one generation stream, with prompt feeding, generation and snapshots.
use vstd::prelude::*;

use crate::model::{Model, OutputRequest, Sampler, TextSink, TokenSink, TokenizationError};
use crate::sampling::{InferenceParameters, TokenId};
use crate::utf8::{utf8_pieces, utf8_text_of, TokenUtf8Buffer};

verus! {

/// Relies on `std::io::Error` as an opaque error value carried through.
#[verifier::external_type_specification]
#[verifier::external_body]
pub struct ExIoError(std::io::Error);

/// Element types allowed for the key/value cache.
#[derive(Clone, Copy, Debug, PartialEq, Eq, Structural)]
pub enum ModelKVMemoryType {
    /// 16-bit float.
    Float16,
    /// 32-bit float.
    Float32,
}

impl ModelKVMemoryType {
    /// Bytes per element.
    pub open spec fn byte_width(self) -> nat {
        match self {
            ModelKVMemoryType::Float16 => 2,
            ModelKVMemoryType::Float32 => 4,
        }
    }

    /// Bytes per element.
    pub fn element_size(&self) -> (r: usize)
        ensures
            r == self.byte_width(),
    {
        match self {
            ModelKVMemoryType::Float16 => 2,
            ModelKVMemoryType::Float32 => 4,
        }
    }
}

/// Configuration fixed when a session is created.
#[derive(Clone, Copy, Debug, PartialEq, Eq, Structural)]
pub struct InferenceSessionConfig {
    /// Element type of the key cache.
    pub memory_k_type: ModelKVMemoryType,
    /// Element type of the value cache.
    pub memory_v_type: ModelKVMemoryType,
}

impl Default for InferenceSessionConfig {
    fn default() -> (r: InferenceSessionConfig)
        ensures
            r.memory_k_type == ModelKVMemoryType::Float32,
            r.memory_v_type == ModelKVMemoryType::Float32,
    {
        InferenceSessionConfig {
            memory_k_type: ModelKVMemoryType::Float32,
            memory_v_type: ModelKVMemoryType::Float32,
        }
    }
}

/// Bytes of a key or value cache: one element per layer, position and embedding
/// component.
pub open spec fn kv_bytes(n_ctx: nat, n_layer: nat, n_embd: nat, t: ModelKVMemoryType) -> nat {
    n_layer * n_ctx * n_embd * t.byte_width()
}

/// Bytes of the recurrent state: five 32-bit vectors of the embedding width per layer.
pub open spec fn state_bytes(n_layer: nat, n_embd: nat) -> nat {
    n_layer * 5 * n_embd * 4
}

/// The little-endian bytes of the binary32 value -1e30, the "empty running
/// maximum" of the recurrent state.
pub open spec fn running_max_sentinel() -> Seq<u8> {
    seq![0xcau8, 0xf2u8, 0x49u8, 0xf1u8]
}

/// `n` copies of `s`, one after the other.
pub open spec fn repeated(s: Seq<u8>, n: nat) -> Seq<u8>
    decreases n,
{
    if n == 0 {
        Seq::empty()
    } else {
        repeated(s, (n - 1) as nat) + s
    }
}

/// The initial recurrent state of one layer: four zeroed vectors of the embedding
/// width, then one vector filled with the running-maximum sentinel.
pub open spec fn initial_layer_state(n_embd: nat) -> Seq<u8> {
    Seq::new(16 * n_embd, |i: int| 0u8) + repeated(running_max_sentinel(), n_embd)
}

/// The initial recurrent state of all layers.
pub open spec fn initial_state(n_layer: nat, n_embd: nat) -> Seq<u8> {
    repeated(initial_layer_state(n_embd), n_layer)
}

proof fn lemma_repeated_len(s: Seq<u8>, n: nat)
    ensures
        repeated(s, n).len() == n * s.len(),
    decreases n,
{
    if n > 0 {
        lemma_repeated_len(s, (n - 1) as nat);
        assert((n - 1) * s.len() + s.len() == n * s.len()) by (nonlinear_arith);
    } else {
        assert(0 * s.len() == 0) by (nonlinear_arith);
    }
}

proof fn lemma_initial_state_len(n_layer: nat, n_embd: nat)
    ensures
        initial_state(n_layer, n_embd).len() == state_bytes(n_layer, n_embd),
{
    lemma_repeated_len(running_max_sentinel(), n_embd);
    lemma_repeated_len(initial_layer_state(n_embd), n_layer);
    assert(n_layer * (16 * n_embd + n_embd * 4) == n_layer * 5 * n_embd * 4) by (nonlinear_arith);
}

/// Appends the bytes of `s` to `v`.
fn append_bytes(v: &mut Vec<u8>, s: &[u8])
    ensures
        final(v)@ == old(v)@ + s@,
{
    let mut i: usize = 0;
    while i < s.len()
        invariant
            i <= s@.len(),
            v@ == old(v)@ + s@.take(i as int),
        decreases s.len() - i,
    {
        v.push(s[i]);
        i = i + 1;
        proof {
            assert(v@ =~= old(v)@ + s@.take(i as int));
        }
    }
    proof {
        assert(s@.take(s@.len() as int) =~= s@);
    }
}

/// The initial recurrent state for `n_layer` layers of width `n_embd`.
fn initial_state_bytes(n_layer: usize, n_embd: usize) -> (r: Vec<u8>)
    requires
        n_layer * 5 * n_embd * 4 <= usize::MAX,
    ensures
        r@ == initial_state(n_layer as nat, n_embd as nat),
{
    let mut out: Vec<u8> = Vec::new();
    if n_layer == 0 {
        proof {
            assert(out@ =~= initial_state(0, n_embd as nat));
        }
        return out;
    }
    proof {
        assert(n_embd * 20 <= n_layer * 5 * n_embd * 4) by (nonlinear_arith)
            requires
                n_layer >= 1,
        ;
    }
    let mut block: Vec<u8> = Vec::new();
    let zeros = 16 * n_embd;
    let mut i: usize = 0;
    while i < zeros
        invariant
            i <= zeros,
            block@ == Seq::new(i as nat, |k: int| 0u8),
        decreases zeros - i,
    {
        block.push(0);
        i = i + 1;
        proof {
            assert(block@ =~= Seq::new(i as nat, |k: int| 0u8));
        }
    }
    let sentinel: [u8; 4] = [0xca, 0xf2, 0x49, 0xf1];
    proof {
        assert(sentinel@ =~= running_max_sentinel());
    }
    let mut j: usize = 0;
    while j < n_embd
        invariant
            j <= n_embd,
            sentinel@ == running_max_sentinel(),
            block@ == Seq::new(16 * n_embd as nat, |k: int| 0u8) + repeated(
                running_max_sentinel(),
                j as nat,
            ),
        decreases n_embd - j,
    {
        append_bytes(&mut block, sentinel.as_slice());
        j = j + 1;
        proof {
            assert(block@ =~= Seq::new(16 * n_embd as nat, |k: int| 0u8) + repeated(
                running_max_sentinel(),
                j as nat,
            ));
        }
    }
    let mut l: usize = 0;
    while l < n_layer
        invariant
            l <= n_layer,
            block@ == initial_layer_state(n_embd as nat),
            out@ == repeated(initial_layer_state(n_embd as nat), l as nat),
        decreases n_layer - l,
    {
        append_bytes(&mut out, block.as_slice());
        l = l + 1;
    }
    out
}

/// `a + b`, or the largest `usize` where the sum does not fit.
pub open spec fn capped_sum(a: nat, b: nat) -> nat {
    if a + b > usize::MAX {
        usize::MAX as nat
    } else {
        a + b
    }
}

/// Errors of snapshot restoring and storage.
#[derive(Debug)]
pub enum SnapshotError {
    /// Reading or writing the snapshot failed.
    IO(std::io::Error),
    /// The snapshot's cache does not have the size that the model gives a session.
    MemorySizeMismatch {
        /// The size that the model gives a session.
        self_size: usize,
        /// The size found in the snapshot.
        input_size: usize,
    },
}

/// Errors of prompt feeding and generation.
#[derive(Debug, PartialEq, Eq)]
pub enum InferenceError {
    /// The context window has no room left.
    ContextFull,
    /// The end-of-text token was sampled.
    EndOfText,
    /// The prompt could not be tokenized.
    TokenizationFailed(TokenizationError),
    /// A caller's callback failed; holds its message.
    UserCallback(String),
    /// The sampler could not pick a token from the logits; holds its message.
    SamplingFailed(String),
}

/// The mutable state of one generation stream.
#[derive(Clone, Debug)]
pub struct InferenceSession {
    /// Configuration fixed at creation.
    pub config: InferenceSessionConfig,
    /// Key cache, `[layer][position][embedding]`.
    pub memory_k: Vec<u8>,
    /// Value cache, `[layer][position][embedding]`.
    pub memory_v: Vec<u8>,
    /// Recurrent state, for models that keep one.
    pub state: Vec<u8>,
    /// How many tokens the cache holds.
    pub n_past: usize,
    /// Scratch needed per token, as last measured by the model.
    pub mem_per_token: usize,
    /// Every token fed or generated so far.
    pub tokens: Vec<TokenId>,
    /// Logits of the last evaluated token, as binary32 bit patterns.
    pub last_logits: Vec<u32>,
}

/// The state that a borrowed snapshot shows.
pub struct InferenceSnapshotRef<'a> {
    /// How many tokens the cache holds.
    pub npast: usize,
    /// Configuration of the session.
    pub config: InferenceSessionConfig,
    /// Every token fed or generated so far.
    pub tokens: Vec<TokenId>,
    /// Logits of the last evaluated token.
    pub logits: Vec<u32>,
    /// Contents of the key cache.
    pub memory_k: &'a [u8],
    /// Contents of the value cache.
    pub memory_v: &'a [u8],
    /// Contents of the recurrent state.
    pub state: &'a [u8],
}

/// An owned snapshot, from which a session can be restored.
#[derive(Clone, Debug, PartialEq, Eq)]
pub struct InferenceSnapshot {
    /// How many tokens the cache holds.
    pub npast: usize,
    /// Configuration of the session.
    pub config: InferenceSessionConfig,
    /// Every token fed or generated so far.
    pub tokens: Vec<TokenId>,
    /// Logits of the last evaluated token.
    pub last_logits: Vec<u32>,
    /// Contents of the key cache.
    pub memory_k: Vec<u8>,
    /// Contents of the value cache.
    pub memory_v: Vec<u8>,
    /// Contents of the recurrent state.
    pub state: Vec<u8>,
}


/// Relies on `std::time::Instant` as an opaque point in time.
#[verifier::external_type_specification]
#[verifier::external_body]
pub struct ExInstant(std::time::Instant);

/// Relies on `std::time::Instant::now`: the current time, which nothing here inspects.
#[verifier::external_body]
fn now() -> (r: std::time::Instant) {
    std::time::Instant::now()
}

/// Relies on `std::time::Instant::elapsed`: the time since `start`.
#[verifier::external_body]
fn elapsed(start: &std::time::Instant) -> (r: std::time::Duration) {
    start.elapsed()
}

/// Relies on `std::time::Duration::from_secs`: a zero duration here.
#[verifier::external_body]
fn no_time() -> (r: std::time::Duration) {
    std::time::Duration::from_secs(0)
}

/// Settings of one call of `InferenceSession::infer`.
#[derive(Clone, Copy, Debug)]
pub struct InferenceRequest<'a> {
    /// The prompt to feed to the model.
    pub prompt: &'a str,
    /// The parameters to use; the model's defaults where absent.
    pub parameters: Option<&'a InferenceParameters>,
    /// Whether to pass the tokens already in the session to the callback first.
    pub play_back_previous_tokens: bool,
    /// The most tokens to generate; no limit where absent.
    pub maximum_token_count: Option<usize>,
}

/// Timing and counts of one call of `InferenceSession::infer`.
#[derive(Clone, Copy, Debug)]
pub struct InferenceStats {
    /// Time taken to feed the prompt.
    pub feed_prompt_duration: std::time::Duration,
    /// Tokens in the session once the prompt was fed.
    pub prompt_tokens: usize,
    /// Time taken until generation stopped.
    pub predict_duration: std::time::Duration,
    /// Tokens in the session once generation stopped.
    pub predict_tokens: usize,
}

impl Default for InferenceStats {
    fn default() -> (r: InferenceStats)
        ensures
            r.prompt_tokens == 0,
            r.predict_tokens == 0,
    {
        InferenceStats {
            feed_prompt_duration: no_time(),
            prompt_tokens: 0,
            predict_duration: no_time(),
            predict_tokens: 0,
        }
    }
}

/// What a forward pass reads and writes in a session: all of it but the token
/// history and the scratch estimate.
pub struct CacheState {
    /// Configuration of the session.
    pub config: InferenceSessionConfig,
    /// How many tokens the cache holds.
    pub n_past: nat,
    /// Key cache.
    pub memory_k: Seq<u8>,
    /// Value cache.
    pub memory_v: Seq<u8>,
    /// Recurrent state.
    pub state: Seq<u8>,
    /// Logits of the last evaluated token.
    pub last_logits: Seq<u32>,
}

/// The cache state after evaluating `t` from `c` in consecutive batches of
/// `n_batch` tokens, the last one possibly shorter.
pub open spec fn evaluate_batches<M: Model>(
    model: &M,
    c: CacheState,
    t: Seq<TokenId>,
    n_batch: nat,
) -> CacheState
    decreases t.len(),
{
    if t.len() == 0 || n_batch == 0 {
        c
    } else if t.len() <= n_batch {
        model.evaluation(c, t)
    } else {
        evaluate_batches(
            model,
            model.evaluation(c, t.take(n_batch as int)),
            t.skip(n_batch as int),
            n_batch,
        )
    }
}

/// The bytes handed over while `t` is fed: those of every token but the
/// beginning-of-text marker, in order.
pub open spec fn emitted_bytes<M: Model>(model: &M, t: Seq<TokenId>) -> Seq<Seq<u8>>
    decreases t.len(),
{
    if t.len() == 0 {
        Seq::empty()
    } else {
        let rest = emitted_bytes(model, t.drop_last());
        if model.bot() == Some(t.last()) {
            rest
        } else {
            rest.push(model.token_bytes(t.last()))
        }
    }
}

/// The bytes of every token of `t`, in order.
pub open spec fn token_bytes_of<M: Model>(model: &M, t: Seq<TokenId>) -> Seq<Seq<u8>> {
    Seq::new(t.len(), |i: int| model.token_bytes(t[i]))
}

/// The bytes handed over for generated tokens `g`: all but a final end-of-text token.
pub open spec fn generated_bytes<M: Model>(model: &M, g: Seq<TokenId>) -> Seq<Seq<u8>> {
    if g.len() > 0 && g.last() == model.eot() {
        token_bytes_of(model, g.drop_last())
    } else {
        token_bytes_of(model, g)
    }
}

/// What feeding `prompt` in batches of `n_batch` does. Tokenization errors and a
/// full context change nothing. Otherwise the call succeeds when the sink accepts
/// everything; on success every prompt token is appended, the caches are the
/// model's evaluation of the batches, and the sink got the bytes of each token but
/// the beginning-of-text marker. When the sink fails, the whole batches up to the
/// failing one are appended and evaluated, and the sink got the bytes up to the
/// failing token, which is not the marker.
pub open spec fn prompt_fed<M: Model>(
    model: &M,
    n_batch: nat,
    before: &InferenceSession,
    after: &InferenceSession,
    prompt: Seq<char>,
    accepting: bool,
    log_before: Seq<Seq<u8>>,
    log_after: Seq<Seq<u8>>,
    r: Result<(), InferenceError>,
) -> bool {
    match model.tokenization(prompt, before.n_past == 0) {
        Err(e) => r == Err::<(), InferenceError>(InferenceError::TokenizationFailed(e)) && *after
            == *before && log_after == log_before,
        Ok(t) => if before.n_past + t.len() >= model.context_len() {
            r == Err::<(), InferenceError>(InferenceError::ContextFull) && *after == *before
                && log_after == log_before
        } else {
            &&& accepting ==> r is Ok
            &&& r is Ok ==> {
                &&& after.tokens@ == before.tokens@ + t
                &&& after.cache_state() == evaluate_batches(model, before.cache_state(), t, n_batch)
                &&& log_after == log_before + emitted_bytes(model, t)
            }
            &&& r is Err ==> (r matches Err(InferenceError::UserCallback(_)) && exists|k: int, j: int|
                {
                    &&& 0 < j <= k <= t.len()
                    &&& k == t.len() || k % (n_batch as int) == 0
                    &&& after.tokens@ == before.tokens@ + t.take(k)
                    &&& after.cache_state() == evaluate_batches(
                        model,
                        before.cache_state(),
                        t.take(k),
                        n_batch,
                    )
                    &&& log_after == log_before + emitted_bytes(model, t.take(j))
                    &&& model.bot() != Some(t[j - 1])
                })
        },
    }
}

/// Evaluating `m` more tokens after `k` whole batches is one more forward pass.
proof fn lemma_batches_extend<M: Model>(
    model: &M,
    c: CacheState,
    x: Seq<TokenId>,
    n: int,
    k: int,
    m: int,
)
    requires
        n > 0,
        k >= 0,
        0 < m <= n,
        k * n + m <= x.len(),
    ensures
        evaluate_batches(model, c, x.take(k * n + m), n as nat) == model.evaluation(
            evaluate_batches(model, c, x.take(k * n), n as nat),
            x.subrange(k * n, k * n + m),
        ),
    decreases k,
{
    if k == 0 {
        assert(0 * n == 0) by (nonlinear_arith);
        assert(x.take(0).len() == 0);
        assert(x.subrange(0, m) =~= x.take(m));
    } else {
        let s = k * n;
        assert(k * n == (k - 1) * n + n) by (nonlinear_arith);
        assert((k - 1) * n >= 0) by (nonlinear_arith)
            requires
                k >= 1,
                n > 0,
        ;
        let y = x.skip(n);
        let c1 = model.evaluation(c, x.take(n));
        let big = x.take(s + m);
        assert(big.take(n) =~= x.take(n));
        assert(big.skip(n) =~= y.take((k - 1) * n + m));
        if k == 1 {
            assert((k - 1) * n == 0) by (nonlinear_arith)
                requires
                    k == 1,
            ;
            assert(x.take(s) =~= x.take(n));
            assert(y.take(0).len() == 0);
        } else {
            assert((k - 1) * n >= n) by (nonlinear_arith)
                requires
                    k >= 2,
                    n > 0,
            ;
            assert(x.take(s).take(n) =~= x.take(n));
            assert(x.take(s).skip(n) =~= y.take((k - 1) * n));
        }
        lemma_batches_extend(model, c1, y, n, k - 1, m);
        assert(x.subrange(s, s + m) =~= y.subrange((k - 1) * n, (k - 1) * n + m));
    }
}

/// Pushes `bytes` through the UTF-8 buffer and hands any completed text to `sink`.
fn deliver_text<T: TextSink>(
    buffer: &mut TokenUtf8Buffer,
    sink: &mut T,
    bytes: &[u8],
    Ghost(chunks): Ghost<Seq<Seq<u8>>>,
    Ghost(base): Ghost<Seq<char>>,
) -> (r: Result<(), String>)
    requires
        old(buffer).pending() == utf8_pieces(chunks).1,
        old(sink).received() == base + utf8_pieces(chunks).0,
    ensures
        final(buffer).pending() == utf8_pieces(chunks.push(bytes@)).1,
        final(sink).received() == base + utf8_pieces(chunks.push(bytes@)).0,
        old(sink).accepts_all() ==> r is Ok && final(sink).accepts_all(),
{
    proof {
        assert(chunks.push(bytes@).drop_last() =~= chunks);
    }
    match buffer.push(bytes) {
        Some(text) => {
            let r = sink.receive(text.as_str());
            proof {
                let p = utf8_pieces(chunks).0;
                assert(base + p + text@ =~= base + (p + text@));
            }
            r
        },
        None => Ok(()),
    }
}

/// The prompt of `request` tokenizes, and the prompt plus the most tokens that
/// `request` lets `infer` generate fit the context of `model` after `before`.
pub open spec fn generation_fits<M: Model>(
    model: &M,
    request: &InferenceRequest,
    before: &InferenceSession,
) -> bool {
    match model.tokenization(request.prompt@, before.n_past == 0) {
        Ok(t) => match request.maximum_token_count {
            Some(k) => before.n_past + t.len() + k < model.context_len(),
            None => false,
        },
        Err(_) => false,
    }
}

/// The text that `infer` plays back from the tokens `before` already holds, if
/// `request` asks for it.
pub open spec fn playback_text<M: Model>(
    model: &M,
    request: &InferenceRequest,
    before: &InferenceSession,
) -> Seq<char> {
    if request.play_back_previous_tokens {
        utf8_text_of(token_bytes_of(model, before.tokens@))
    } else {
        Seq::empty()
    }
}

/// The most tokens that `request` lets `infer` generate.
pub open spec fn token_limit(request: &InferenceRequest) -> nat {
    match request.maximum_token_count {
        Some(m) => m as nat,
        None => usize::MAX as nat,
    }
}

/// Where `infer` stopped, and what it had done by then. It stops in one of four
/// places:
/// - during playback, on a failing sink: nothing is changed, and the sink got the
///   text of the first tokens played back;
/// - before feeding, on a prompt that does not tokenize or does not fit: nothing is
///   changed, and the sink got the playback text;
/// - while feeding, on a failing sink: whole batches of the prompt are appended, and
///   the sink got the playback text and the prompt's text up to a token that is not
///   the beginning-of-text marker;
/// - after feeding: the prompt's tokens follow the old ones, at most the limit of
///   tokens follow them, the sink got the playback text, the prompt's text and the
///   text of the generated tokens (a final end-of-text token excluded), and the
///   call ended with success, a failing sink, a failing sampler, or a full context.
pub open spec fn infer_outcome<M: Model>(
    model: &M,
    request: &InferenceRequest,
    before: &InferenceSession,
    after: &InferenceSession,
    log_before: Seq<char>,
    log_after: Seq<char>,
    r: Result<InferenceStats, InferenceError>,
) -> bool {
    let pb = playback_text(model, request, before);
    let tk = model.tokenization(request.prompt@, before.n_past == 0);
    ||| {
        &&& request.play_back_previous_tokens
        &&& r matches Err(InferenceError::UserCallback(_))
        &&& *after == *before
        &&& exists|i: int|
            0 < i <= before.tokens@.len() && log_after == log_before + utf8_text_of(
                token_bytes_of(model, before.tokens@.take(i)),
            )
    }
    ||| {
        &&& *after == *before
        &&& log_after == log_before + pb
        &&& match tk {
            Err(e) => r == Err::<InferenceStats, InferenceError>(
                InferenceError::TokenizationFailed(e),
            ),
            Ok(t) => before.n_past + t.len() >= model.context_len() && r == Err::<
                InferenceStats,
                InferenceError,
            >(InferenceError::ContextFull),
        }
    }
    ||| match tk {
        Ok(t) => {
            &&& before.n_past + t.len() < model.context_len()
            &&& r matches Err(InferenceError::UserCallback(_))
            &&& exists|k: int, j: int|
                {
                    &&& 0 < j <= k <= t.len()
                    &&& after.tokens@ == before.tokens@ + t.take(k)
                    &&& log_after == log_before + pb + utf8_text_of(
                        emitted_bytes(model, t.take(j)),
                    )
                    &&& model.bot() != Some(t[j - 1])
                }
        },
        Err(_) => false,
    }
    ||| match tk {
        Ok(t) => {
            let plen = (before.tokens@.len() + t.len()) as int;
            &&& before.n_past + t.len() < model.context_len()
            &&& after.tokens@.len() >= plen
            &&& after.tokens@.take(plen) == before.tokens@ + t
            &&& after.tokens@.len() <= plen + token_limit(request)
            &&& log_after == log_before + pb + utf8_text_of(emitted_bytes(model, t))
                + utf8_text_of(generated_bytes(model, after.tokens@.skip(plen)))
            &&& match r {
                Ok(_) => (after.tokens@.len() > plen && after.tokens@.last() == model.eot())
                    || after.tokens@.len() == plen + token_limit(request),
                Err(InferenceError::ContextFull) => after.n_past + 1 >= model.context_len(),
                Err(InferenceError::UserCallback(_)) => true,
                Err(InferenceError::SamplingFailed(_)) => true,
                Err(_) => false,
            }
        },
        Err(_) => false,
    }
}

/// The parameters that `infer` uses for `request`.
pub open spec fn request_parameters<M: Model>(
    model: &M,
    request: &InferenceRequest,
) -> InferenceParameters {
    match request.parameters {
        Some(p) => *p,
        None => model.default_parameters(),
    }
}

impl InferenceSnapshotRef<'_> {
    /// An owned copy of this snapshot.
    pub fn to_owned(&self) -> (r: InferenceSnapshot)
        ensures
            r.npast == self.npast,
            r.config == self.config,
            r.tokens@ == self.tokens@,
            r.last_logits@ == self.logits@,
            r.memory_k@ == self.memory_k@,
            r.memory_v@ == self.memory_v@,
            r.state@ == self.state@,
    {
        InferenceSnapshot {
            npast: self.npast,
            config: self.config,
            tokens: vstd::slice::slice_to_vec(self.tokens.as_slice()),
            last_logits: vstd::slice::slice_to_vec(self.logits.as_slice()),
            memory_k: vstd::slice::slice_to_vec(self.memory_k),
            memory_v: vstd::slice::slice_to_vec(self.memory_v),
            state: vstd::slice::slice_to_vec(self.state),
        }
    }
}

impl InferenceSnapshot {
    /// Whether this snapshot records exactly the state of `s`.
    pub open spec fn describes(&self, s: &InferenceSession) -> bool {
        &&& self.npast == s.n_past
        &&& self.config == s.config
        &&& self.tokens@ == s.tokens@
        &&& self.last_logits@ == s.last_logits@
        &&& self.memory_k@ == s.memory_k@
        &&& self.memory_v@ == s.memory_v@
        &&& self.state@ == s.state@
    }

    /// Whether two snapshots hold the same values, byte for byte.
    pub open spec fn same_as(&self, other: &InferenceSnapshot) -> bool {
        &&& self.npast == other.npast
        &&& self.config == other.config
        &&& self.tokens@ == other.tokens@
        &&& self.last_logits@ == other.last_logits@
        &&& self.memory_k@ == other.memory_k@
        &&& self.memory_v@ == other.memory_v@
        &&& self.state@ == other.state@
    }

    /// Whether the snapshot's cache has the sizes that `model` gives a session
    /// with the snapshot's configuration.
    pub open spec fn fits<M: Model>(&self, model: &M) -> bool {
        &&& self.memory_k@.len() == kv_bytes(
            model.context_len(),
            model.layer_count(),
            model.embedding_len(),
            self.config.memory_k_type,
        )
        &&& self.memory_v@.len() == kv_bytes(
            model.context_len(),
            model.layer_count(),
            model.embedding_len(),
            self.config.memory_v_type,
        )
        &&& self.state@.len() == state_bytes(model.layer_count(), model.embedding_len())
    }
}

impl InferenceSession {
    /// A session just created with these dimensions: empty history, zeroed logits
    /// and caches of the sizes that the dimensions give.
    pub open spec fn is_fresh(
        &self,
        config: InferenceSessionConfig,
        n_ctx: nat,
        n_layer: nat,
        n_embd: nat,
        n_vocab: nat,
    ) -> bool {
        &&& self.config == config
        &&& self.n_past == 0
        &&& self.mem_per_token == 0
        &&& self.tokens@.len() == 0
        &&& self.last_logits@ == Seq::new(n_vocab, |i: int| 0u32)
        &&& self.memory_k@.len() == kv_bytes(n_ctx, n_layer, n_embd, config.memory_k_type)
        &&& self.memory_v@.len() == kv_bytes(n_ctx, n_layer, n_embd, config.memory_v_type)
        &&& self.state@.len() == state_bytes(n_layer, n_embd)
        &&& self.state@ == initial_state(n_layer, n_embd)
    }

    /// The session is consistent with `model`: one token per cached position, one
    /// logit per vocabulary entry, and caches of the sizes that the model gives.
    pub open spec fn wf_for<M: Model>(&self, model: &M) -> bool {
        &&& self.tokens@.len() == self.n_past
        &&& self.last_logits@.len() == model.vocab_len()
        &&& self.caches_fit(model)
    }

    /// The caches have the sizes that `model` gives a session with this configuration.
    pub open spec fn caches_fit<M: Model>(&self, model: &M) -> bool {
        &&& self.memory_k@.len() == kv_bytes(
            model.context_len(),
            model.layer_count(),
            model.embedding_len(),
            self.config.memory_k_type,
        )
        &&& self.memory_v@.len() == kv_bytes(
            model.context_len(),
            model.layer_count(),
            model.embedding_len(),
            self.config.memory_v_type,
        )
        &&& self.state@.len() == state_bytes(model.layer_count(), model.embedding_len())
    }

    /// Whether two sessions hold the same state (all but the scratch estimate).
    pub open spec fn same_state(&self, other: &InferenceSession) -> bool {
        &&& self.config == other.config
        &&& self.n_past == other.n_past
        &&& self.tokens@ == other.tokens@
        &&& self.last_logits@ == other.last_logits@
        &&& self.memory_k@ == other.memory_k@
        &&& self.memory_v@ == other.memory_v@
        &&& self.state@ == other.state@
    }

    /// Creates a session with caches for `n_ctx` positions of `n_layer` layers of
    /// width `n_embd`, and a zeroed logit for each of `n_vocab` tokens.
    pub fn new(
        config: InferenceSessionConfig,
        n_ctx: usize,
        n_layer: usize,
        n_embd: usize,
        n_vocab: usize,
    ) -> (r: InferenceSession)
        requires
            n_layer * n_ctx * n_embd * 4 <= usize::MAX,
            n_layer * 5 * n_embd * 4 <= usize::MAX,
        ensures
            r.is_fresh(config, n_ctx as nat, n_layer as nat, n_embd as nat, n_vocab as nat),
    {
        let k_width = config.memory_k_type.element_size();
        let v_width = config.memory_v_type.element_size();
        proof {
            lemma_product_fits(n_layer as nat, n_ctx as nat, n_embd as nat, k_width as nat);
            lemma_product_fits(n_layer as nat, n_ctx as nat, n_embd as nat, v_width as nat);
            lemma_product_fits(n_layer as nat, 5, n_embd as nat, 4);
        }
        let n_elements = product3(n_layer, n_ctx, n_embd);
        let k_bytes = n_elements * k_width;
        let v_bytes = n_elements * v_width;
        let memory_k: Vec<u8> = vec![0u8; k_bytes];
        let memory_v: Vec<u8> = vec![0u8; v_bytes];
        let state = initial_state_bytes(n_layer, n_embd);
        proof {
            lemma_initial_state_len(n_layer as nat, n_embd as nat);
        }
        let last_logits = zeroed_logits(n_vocab);
        InferenceSession {
            config,
            memory_k,
            memory_v,
            state,
            n_past: 0,
            mem_per_token: 0,
            tokens: Vec::new(),
            last_logits,
        }
    }

    /// The part of the session that a forward pass reads and writes.
    pub open spec fn cache_state(&self) -> CacheState {
        CacheState {
            config: self.config,
            n_past: self.n_past as nat,
            memory_k: self.memory_k@,
            memory_v: self.memory_v@,
            state: self.state@,
            last_logits: self.last_logits@,
        }
    }

    /// Evaluates the tokens `t[start..end]`, one batch, and appends them.
    fn feed_batch<M: Model>(
        &mut self,
        model: &M,
        params: &InferenceParameters,
        t: &[TokenId],
        start: usize,
        end: usize,
        output_request: &mut OutputRequest,
        Ghost(nb): Ghost<nat>,
        Ghost(c0): Ghost<CacheState>,
        Ghost(before): Ghost<Seq<TokenId>>,
    )
        requires
            old(self).wf_for(model),
            params.n_batch > 0,
            start < end <= t@.len(),
            end - start <= params.n_batch,
            start == nb * params.n_batch,
            before.len() + t@.len() < model.context_len(),
            old(self).tokens@ == before + t@.take(start as int),
            old(self).cache_state() == evaluate_batches(
                model,
                c0,
                t@.take(start as int),
                params.n_batch as nat,
            ),
        ensures
            final(self).wf_for(model),
            final(self).config == old(self).config,
            final(self).tokens@ == before + t@.take(end as int),
            final(self).cache_state() == evaluate_batches(
                model,
                c0,
                t@.take(end as int),
                params.n_batch as nat,
            ),
    {
        let batch = &t[start..end];
        proof {
            lemma_batches_extend(
                model,
                c0,
                t@,
                params.n_batch as int,
                nb as int,
                (end - start) as int,
            );
            assert(batch@ =~= t@.subrange(start as int, end as int));
            assert(t@.take(end as int).take(start as int) =~= t@.take(start as int));
        }
        model.evaluate(self, params, batch, output_request);
        let mut i: usize = start;
        while i < end
            invariant
                start <= i <= end,
                end <= t@.len(),
                self.tokens@ == before + t@.take(i as int),
                self.n_past == before.len() + end,
                self.config == old(self).config,
                self.last_logits@.len() == model.vocab_len(),
                self.caches_fit(model),
                self.cache_state() == evaluate_batches(
                    model,
                    c0,
                    t@.take(end as int),
                    params.n_batch as nat,
                ),
            decreases end - i,
        {
            self.tokens.push(t[i]);
            i = i + 1;
            proof {
                assert(t@.take(i as int) =~= t@.take(i - 1).push(t@[i - 1]));
            }
        }
    }

    /// Feeds `prompt` to the model in batches of `params.n_batch` tokens, handing
    /// the bytes of each token (but the beginning-of-text marker) to `callback`.
    pub fn feed_prompt<M: Model, S: TokenSink>(
        &mut self,
        model: &M,
        params: &InferenceParameters,
        prompt: &str,
        output_request: &mut OutputRequest,
        callback: &mut S,
    ) -> (r: Result<(), InferenceError>)
        requires
            old(self).wf_for(model),
            params.n_batch > 0,
        ensures
            final(self).wf_for(model),
            final(self).config == old(self).config,
            prompt_fed(
                model,
                params.n_batch as nat,
                old(self),
                final(self),
                prompt@,
                old(callback).accepts_all(),
                old(callback).received(),
                final(callback).received(),
                r,
            ),
            old(callback).accepts_all() ==> final(callback).accepts_all(),
    {
        let bos = self.n_past == 0;
        let prompt_tokens = match model.tokenize(prompt, bos) {
            Ok(t) => t,
            Err(e) => {
                return Err(InferenceError::TokenizationFailed(e));
            },
        };
        let n_ctx = model.n_context_tokens();
        let n = prompt_tokens.len();
        if n >= n_ctx || self.n_past >= n_ctx - n {
            return Err(InferenceError::ContextFull);
        }
        let bot = model.bot_token_id();
        let ghost t = prompt_tokens@;
        let ghost before = self.tokens@;
        let ghost c0 = self.cache_state();
        let ghost log0 = callback.received();
        let ghost mut nb: nat = 0;
        let mut start: usize = 0;
        proof {
            assert(t.take(0) =~= Seq::<TokenId>::empty());
            assert(before + t.take(0) =~= before);
            assert(0 * params.n_batch == 0);
        }
        while start < n
            invariant
                self.wf_for(model),
                self.config == old(self).config,
                params.n_batch > 0,
                n == t.len(),
                prompt_tokens@ == t,
                n_ctx == model.context_len(),
                old(self).n_past + n < n_ctx,
                before == old(self).tokens@,
                before.len() == old(self).n_past,
                c0 == old(self).cache_state(),
                log0 == old(callback).received(),
                model.tokenization(prompt@, old(self).n_past == 0) == Ok::<
                    Seq<TokenId>,
                    TokenizationError,
                >(t),
                bot == model.bot(),
                start <= n,
                start == nb * params.n_batch || start == n,
                self.tokens@ == before + t.take(start as int),
                self.cache_state() == evaluate_batches(
                    model,
                    c0,
                    t.take(start as int),
                    params.n_batch as nat,
                ),
                callback.received() == log0 + emitted_bytes(model, t.take(start as int)),
                old(callback).accepts_all() ==> callback.accepts_all(),
            decreases n - start,
        {
            let end = if n - start > params.n_batch {
                start + params.n_batch
            } else {
                n
            };
            self.feed_batch(
                model,
                params,
                prompt_tokens.as_slice(),
                start,
                end,
                output_request,
                Ghost(nb),
                Ghost(c0),
                Ghost(before),
            );
            proof {
                assert((nb + 1) * params.n_batch == nb * params.n_batch + params.n_batch)
                    by (nonlinear_arith);
                vstd::arithmetic::div_mod::lemma_mod_multiples_basic(
                    (nb + 1) as int,
                    params.n_batch as int,
                );
            }
            let mut j: usize = start;
            while j < end
                invariant
                    start <= j <= end,
                    end <= n,
                    0 < end,
                    end == n || end == (nb + 1) * params.n_batch,
                    (end as int) % (params.n_batch as int) == 0 || end == n,
                    n == t.len(),
                    prompt_tokens@ == t,
                    bot == model.bot(),
                    self.wf_for(model),
                    self.config == old(self).config,
                    params.n_batch > 0,
                    self.tokens@ == before + t.take(end as int),
                    self.cache_state() == evaluate_batches(
                        model,
                        c0,
                        t.take(end as int),
                        params.n_batch as nat,
                    ),
                    n_ctx == model.context_len(),
                    old(self).n_past + n < n_ctx,
                    before == old(self).tokens@,
                    before.len() == old(self).n_past,
                    c0 == old(self).cache_state(),
                    log0 == old(callback).received(),
                    model.tokenization(prompt@, old(self).n_past == 0) == Ok::<
                        Seq<TokenId>,
                        TokenizationError,
                    >(t),
                    callback.received() == log0 + emitted_bytes(model, t.take(j as int)),
                    old(callback).accepts_all() ==> callback.accepts_all(),
                decreases end - j,
            {
                let tk = prompt_tokens[j];
                proof {
                    assert(t.take(j + 1).drop_last() =~= t.take(j as int));
                    assert(t.take(j + 1).last() == tk);
                }
                let emit = match bot {
                    Some(b) => b != tk,
                    None => true,
                };
                if emit {
                    let bytes = model.token(tk);
                    let res = callback.receive(bytes.as_slice());
                    proof {
                        assert(log0 + emitted_bytes(model, t.take(j as int)).push(bytes@) =~= log0
                            + emitted_bytes(model, t.take(j + 1)));
                    }
                    match res {
                        Ok(()) => {},
                        Err(e) => {
                            proof {
                                assert(0 < j + 1 <= end <= t.len());
                                assert(t[j as int] == tk);
                            }
                            return Err(InferenceError::UserCallback(e));
                        },
                    }
                }
                j = j + 1;
            }
            proof {
                nb = nb + 1;
            }
            start = end;
        }
        proof {
            assert(t.take(n as int) =~= t);
        }
        Ok(())
    }

    /// Samples a token from the last logits and the token history with `sampler`
    /// (top-P / top-K sampling, in the usual setup).
    pub fn sample_top_p_top_k<S: Sampler>(&self, params: &InferenceParameters, sampler: &mut S) -> (r:
        Result<TokenId, String>)
        requires
            self.last_logits@.len() > 0,
            params.top_k >= 1,
        ensures
            r == old(sampler).choice(*params, self.tokens@, self.last_logits@),
            *final(sampler) == old(sampler).advanced(*params, self.tokens@, self.last_logits@),
            r matches Ok(t) ==> (t as int) < self.last_logits@.len(),
            old(sampler).never_fails() ==> r is Ok && final(sampler).never_fails(),
    {
        sampler.sample(params, self.tokens.as_slice(), self.last_logits.as_slice())
    }

    /// Samples the next token from the last logits, appends it and evaluates it.
    /// Returns its bytes, or `EndOfText` when it is the end-of-text token.
    pub fn infer_next_token<M: Model, S: Sampler>(
        &mut self,
        model: &M,
        params: &InferenceParameters,
        output_request: &mut OutputRequest,
        sampler: &mut S,
    ) -> (r: Result<Vec<u8>, InferenceError>)
        requires
            old(self).wf_for(model),
            model.vocab_len() > 0,
            params.top_k >= 1,
        ensures
            final(self).wf_for(model),
            final(self).config == old(self).config,
            old(self).n_past + 1 >= model.context_len() ==> r == Err::<Vec<u8>, InferenceError>(
                InferenceError::ContextFull,
            ) && *final(self) == *old(self) && *final(sampler) == *old(sampler),
            old(self).n_past + 1 < model.context_len() ==> *final(sampler) == old(sampler).advanced(
                *params,
                old(self).tokens@,
                old(self).last_logits@,
            ),
            old(self).n_past + 1 < model.context_len() && old(sampler).never_fails()
                ==> final(sampler).never_fails(),
            old(self).n_past + 1 < model.context_len() ==> match old(sampler).choice(
                *params,
                old(self).tokens@,
                old(self).last_logits@,
            ) {
                Err(m) => r == Err::<Vec<u8>, InferenceError>(InferenceError::SamplingFailed(m))
                    && *final(self) == *old(self) && !old(sampler).never_fails(),
                Ok(t) => {
                &&& final(self).tokens@ == old(self).tokens@.push(t)
                &&& final(self).cache_state() == model.evaluation(old(self).cache_state(), seq![t])
                &&& (t as int) < model.vocab_len()
                &&& t == model.eot() ==> r == Err::<Vec<u8>, InferenceError>(
                    InferenceError::EndOfText,
                )
                &&& t != model.eot() ==> (r matches Ok(b) && b@ == model.token_bytes(t))
                },
            },
    {
        let n_ctx = model.n_context_tokens();
        if n_ctx == 0 || self.n_past >= n_ctx - 1 {
            return Err(InferenceError::ContextFull);
        }
        let next_token = match self.sample_top_p_top_k(params, sampler) {
            Ok(t) => t,
            Err(m) => {
                return Err(InferenceError::SamplingFailed(m));
            },
        };
        self.tokens.push(next_token);
        let single = [next_token];
        let input = single.as_slice();
        proof {
            assert(input@ =~= seq![next_token]);
        }
        model.evaluate(self, params, input, output_request);
        if next_token == model.eot_token_id() {
            Err(InferenceError::EndOfText)
        } else {
            Ok(model.token(next_token))
        }
    }

    /// Optionally plays back the session's tokens, feeds the prompt, then generates
    /// tokens until the end-of-text token, a full context or the token limit,
    /// handing the text to `callback` in complete UTF-8 pieces (each phase with a
    /// buffer of its own).
    pub fn infer<M: Model, S: Sampler, T: TextSink>(
        &mut self,
        model: &M,
        sampler: &mut S,
        request: &InferenceRequest,
        output_request: &mut OutputRequest,
        callback: &mut T,
    ) -> (r: Result<InferenceStats, InferenceError>)
        requires
            old(self).wf_for(model),
            model.vocab_len() > 0,
            request_parameters(model, request).n_batch > 0,
            request_parameters(model, request).top_k >= 1,
        ensures
            final(self).wf_for(model),
            final(self).config == old(self).config,
            !(r matches Err(InferenceError::EndOfText)),
            old(callback).accepts_all() ==> final(callback).accepts_all(),
            old(sampler).never_fails() ==> final(sampler).never_fails(),
            infer_outcome(
                model,
                request,
                old(self),
                final(self),
                old(callback).received(),
                final(callback).received(),
                r,
            ),
            r matches Err(InferenceError::UserCallback(_)) ==> !old(callback).accepts_all(),
            r matches Err(InferenceError::SamplingFailed(_)) ==> !old(sampler).never_fails(),
            old(callback).accepts_all() && generation_fits(model, request, old(self)) && (
            old(sampler).never_fails() || request.maximum_token_count == Some(0usize)) ==> r is Ok,
            r matches Ok(stats) ==> {
                &&& stats.predict_tokens == final(self).n_past
                &&& stats.prompt_tokens <= stats.predict_tokens
                &&& final(self).tokens@.len() >= stats.prompt_tokens
                &&& (model.tokenization(request.prompt@, old(self).n_past == 0) matches Ok(t) && {
                    &&& final(self).tokens@.take(stats.prompt_tokens as int) == old(self).tokens@ + t
                    &&& final(callback).received() == old(callback).received() + (
                    if request.play_back_previous_tokens {
                        utf8_text_of(token_bytes_of(model, old(self).tokens@))
                    } else {
                        Seq::empty()
                    }) + utf8_text_of(emitted_bytes(model, t)) + utf8_text_of(
                        generated_bytes(
                            model,
                            final(self).tokens@.skip(stats.prompt_tokens as int),
                        ),
                    )
                })
                &&& request.maximum_token_count matches Some(m) ==> stats.predict_tokens
                    <= stats.prompt_tokens + m
                &&& (final(self).tokens@.len() > stats.prompt_tokens && final(self).tokens@.last()
                    == model.eot()) || final(self).tokens@.len() == stats.prompt_tokens + match request.maximum_token_count {
                    Some(m) => m,
                    None => usize::MAX,
                }
                &&& request.maximum_token_count == Some(0usize) ==> stats.predict_tokens
                    == stats.prompt_tokens && *final(sampler) == *old(sampler)
            },
    {
        let maximum_token_count = match request.maximum_token_count {
            Some(m) => m,
            None => usize::MAX,
        };
        let ghost log0 = callback.received();
        let ghost played: Seq<char> = if request.play_back_previous_tokens {
            utf8_text_of(token_bytes_of(model, old(self).tokens@))
        } else {
            Seq::empty()
        };
        if request.play_back_previous_tokens {
            let mut buffer = TokenUtf8Buffer::new();
            let n = self.tokens.len();
            let mut i: usize = 0;
            proof {
                assert(token_bytes_of(model, self.tokens@.take(0)) =~= Seq::<Seq<u8>>::empty());
                assert(log0 + Seq::<char>::empty() =~= log0);
            }
            while i < n
                invariant
                    n == self.tokens@.len(),
                    i <= n,
                    *self == *old(self),
                    self.wf_for(model),
                    request.play_back_previous_tokens,
                    log0 == old(callback).received(),
                    buffer.pending() == utf8_pieces(
                        token_bytes_of(model, self.tokens@.take(i as int)),
                    ).1,
                    callback.received() == log0 + utf8_pieces(
                        token_bytes_of(model, self.tokens@.take(i as int)),
                    ).0,
                    old(callback).accepts_all() ==> callback.accepts_all(),
                decreases n - i,
            {
                let bytes = model.token(self.tokens[i]);
                let res = deliver_text(
                    &mut buffer,
                    callback,
                    bytes.as_slice(),
                    Ghost(token_bytes_of(model, self.tokens@.take(i as int))),
                    Ghost(log0),
                );
                proof {
                    assert(token_bytes_of(model, self.tokens@.take(i as int)).push(bytes@)
                        =~= token_bytes_of(model, self.tokens@.take(i + 1)));
                }
                match res {
                    Ok(()) => {},
                    Err(e) => {
                        return Err(InferenceError::UserCallback(e));
                    },
                }
                i = i + 1;
            }
            proof {
                assert(self.tokens@.take(n as int) =~= self.tokens@);
            }
        }
        let ghost log1 = callback.received();
        proof {
            assert(played == playback_text(model, request, old(self)));
            assert(log1 == log0 + played);
        }
        let mut stats = InferenceStats::default();
        let start_at = now();
        let params = match request.parameters {
            Some(p) => p,
            None => model.inference_parameters(),
        };

        // Feed the prompt.
        let bos = self.n_past == 0;
        let prompt_tokens = match model.tokenize(request.prompt, bos) {
            Ok(t) => t,
            Err(e) => {
                return Err(InferenceError::TokenizationFailed(e));
            },
        };
        let n_ctx = model.n_context_tokens();
        let n = prompt_tokens.len();
        if n >= n_ctx || self.n_past >= n_ctx - n {
            return Err(InferenceError::ContextFull);
        }
        let bot = model.bot_token_id();
        let ghost t = prompt_tokens@;
        let ghost before = self.tokens@;
        let ghost c0 = self.cache_state();
        let ghost mut nb: nat = 0;
        let mut buffer = TokenUtf8Buffer::new();
        let mut start: usize = 0;
        proof {
            assert(t.take(0) =~= Seq::<TokenId>::empty());
            assert(before + t.take(0) =~= before);
            assert(0 * params.n_batch == 0);
            assert(log1 + Seq::<char>::empty() =~= log1);
        }
        while start < n
            invariant
                self.wf_for(model),
                self.config == old(self).config,
                *self == *old(self) || start > 0,
                params.n_batch > 0,
                n == t.len(),
                prompt_tokens@ == t,
                n_ctx == model.context_len(),
                old(self).n_past + n < n_ctx,
                before == old(self).tokens@,
                before.len() == old(self).n_past,
                c0 == old(self).cache_state(),
                model.tokenization(request.prompt@, old(self).n_past == 0) == Ok::<
                    Seq<TokenId>,
                    TokenizationError,
                >(t),
                bot == model.bot(),
                start <= n,
                start == nb * params.n_batch || start == n,
                self.tokens@ == before + t.take(start as int),
                self.cache_state() == evaluate_batches(
                    model,
                    c0,
                    t.take(start as int),
                    params.n_batch as nat,
                ),
                buffer.pending() == utf8_pieces(emitted_bytes(model, t.take(start as int))).1,
                callback.received() == log1 + utf8_pieces(
                    emitted_bytes(model, t.take(start as int)),
                ).0,
                old(callback).accepts_all() ==> callback.accepts_all(),
                log0 == old(callback).received(),
                log1 == log0 + played,
                played == playback_text(model, request, old(self)),
            decreases n - start,
        {
            let end = if n - start > params.n_batch {
                start + params.n_batch
            } else {
                n
            };
            self.feed_batch(
                model,
                params,
                prompt_tokens.as_slice(),
                start,
                end,
                output_request,
                Ghost(nb),
                Ghost(c0),
                Ghost(before),
            );
            proof {
                assert((nb + 1) * params.n_batch == nb * params.n_batch + params.n_batch)
                    by (nonlinear_arith);
            }
            let mut j: usize = start;
            while j < end
                invariant
                    start <= j <= end,
                    end <= n,
                    n == t.len(),
                    prompt_tokens@ == t,
                    bot == model.bot(),
                    self.wf_for(model),
                    self.config == old(self).config,
                    n_ctx == model.context_len(),
                    old(self).n_past + n < n_ctx,
                    model.tokenization(request.prompt@, old(self).n_past == 0) == Ok::<
                        Seq<TokenId>,
                        TokenizationError,
                    >(t),
                    buffer.pending() == utf8_pieces(emitted_bytes(model, t.take(j as int))).1,
                    callback.received() == log1 + utf8_pieces(
                        emitted_bytes(model, t.take(j as int)),
                    ).0,
                    old(callback).accepts_all() ==> callback.accepts_all(),
                    self.tokens@ == before + t.take(end as int),
                    before == old(self).tokens@,
                    log0 == old(callback).received(),
                    log1 == log0 + played,
                    played == playback_text(model, request, old(self)),
                decreases end - j,
            {
                let tk = prompt_tokens[j];
                proof {
                    assert(t.take(j + 1).drop_last() =~= t.take(j as int));
                    assert(t.take(j + 1).last() == tk);
                }
                let emit = match bot {
                    Some(b) => b != tk,
                    None => true,
                };
                if emit {
                    let bytes = model.token(tk);
                    let res = deliver_text(
                        &mut buffer,
                        callback,
                        bytes.as_slice(),
                        Ghost(emitted_bytes(model, t.take(j as int))),
                        Ghost(log1),
                    );
                    proof {
                        assert(emitted_bytes(model, t.take(j as int)).push(bytes@)
                            =~= emitted_bytes(model, t.take(j + 1)));
                    }
                    match res {
                        Ok(()) => {},
                        Err(e) => {
                            proof {
                                assert(t[j as int] == tk);
                                assert(0 < j + 1 <= end <= t.len());
                            }
                            return Err(InferenceError::UserCallback(e));
                        },
                    }
                }
                j = j + 1;
            }
            proof {
                nb = nb + 1;
            }
            start = end;
        }
        proof {
            assert(t.take(n as int) =~= t);
        }
        let ghost log2 = callback.received();
        proof {
            assert(log2 == log0 + played + utf8_text_of(emitted_bytes(model, t)));
        }
        stats.feed_prompt_duration = elapsed(&start_at);
        stats.prompt_tokens = self.n_past;
        let ghost after_prompt = self.tokens@;
        let ghost plen = after_prompt.len() as int;

        // Generate.
        let mut tokens_processed: usize = 0;
        let mut done = false;
        let mut buffer = TokenUtf8Buffer::new();
        proof {
            assert(self.tokens@.skip(plen) =~= Seq::<TokenId>::empty());
            assert(generated_bytes(model, self.tokens@.skip(plen)) =~= Seq::<Seq<u8>>::empty());
            assert(log2 + Seq::<char>::empty() =~= log2);
        }
        while tokens_processed < maximum_token_count && !done
            invariant
                self.wf_for(model),
                self.config == old(self).config,
                model.vocab_len() > 0,
                tokens_processed <= maximum_token_count,
                done ==> tokens_processed < maximum_token_count,
                maximum_token_count == match request.maximum_token_count {
                    Some(m) => m,
                    None => usize::MAX,
                },
                stats.prompt_tokens == after_prompt.len(),
                plen == after_prompt.len(),
                after_prompt == old(self).tokens@ + t,
                self.tokens@.len() == stats.prompt_tokens + tokens_processed || (done
                    && self.tokens@.len() == stats.prompt_tokens + tokens_processed + 1),
                self.tokens@.take(plen) == after_prompt,
                !done ==> (self.tokens@.len() == plen || self.tokens@.last() != model.eot()),
                done ==> self.tokens@.len() > plen && self.tokens@.last() == model.eot(),
                maximum_token_count == 0 ==> *sampler == *old(sampler),
                old(sampler).never_fails() ==> sampler.never_fails(),
                old(self).n_past + t.len() < model.context_len(),
                plen == old(self).n_past + t.len(),
                generation_fits(model, request, old(self)) ==> old(self).n_past + t.len()
                    + maximum_token_count < model.context_len(),
                model.tokenization(request.prompt@, old(self).n_past == 0) == Ok::<
                    Seq<TokenId>,
                    TokenizationError,
                >(t),
                buffer.pending() == utf8_pieces(
                    generated_bytes(model, self.tokens@.skip(plen)),
                ).1,
                callback.received() == log2 + utf8_pieces(
                    generated_bytes(model, self.tokens@.skip(plen)),
                ).0,
                old(callback).accepts_all() ==> callback.accepts_all(),
                log2 == old(callback).received() + playback_text(model, request, old(self))
                    + utf8_text_of(emitted_bytes(model, t)),
                token_limit(request) == maximum_token_count,
                params.top_k >= 1,
            decreases maximum_token_count - tokens_processed, if done {
                0int
            } else {
                1int
            },
        {
            let mut extra = OutputRequest::none();
            let ghost prev = self.tokens@;
            proof {
                assert(generated_bytes(model, prev.skip(plen)) =~= token_bytes_of(
                    model,
                    prev.skip(plen),
                ));
            }
            match self.infer_next_token(model, params, &mut extra, sampler) {
                Ok(token) => {
                    let ghost tk = self.tokens@.last();
                    proof {
                        assert(self.tokens@.take(plen) =~= prev.take(plen));
                        assert(self.tokens@.skip(plen) =~= prev.skip(plen).push(tk));
                        assert(generated_bytes(model, self.tokens@.skip(plen)) =~= token_bytes_of(
                            model,
                            prev.skip(plen),
                        ).push(model.token_bytes(tk)));
                    }
                    let res = deliver_text(
                        &mut buffer,
                        callback,
                        token.as_slice(),
                        Ghost(token_bytes_of(model, prev.skip(plen))),
                        Ghost(log2),
                    );
                    match res {
                        Ok(()) => {},
                        Err(e) => {
                            return Err(InferenceError::UserCallback(e));
                        },
                    }
                    tokens_processed = tokens_processed + 1;
                },
                Err(InferenceError::EndOfText) => {
                    proof {
                        let tk = self.tokens@.last();
                        assert(self.tokens@.take(plen) =~= prev.take(plen));
                        assert(self.tokens@.skip(plen) =~= prev.skip(plen).push(tk));
                        assert(self.tokens@.skip(plen).drop_last() =~= prev.skip(plen));
                    }
                    done = true;
                },
                Err(e) => {
                    return Err(e);
                },
            }
        }
        stats.predict_duration = elapsed(&start_at);
        stats.predict_tokens = self.n_past;
        Ok(stats)
    }

    /// The tokens fed or generated so far.
    pub fn tokens(&self) -> (r: &[TokenId])
        ensures
            r@ == self.tokens@,
    {
        self.tokens.as_slice()
    }

    /// The session's configuration.
    pub fn config(&self) -> (r: InferenceSessionConfig)
        ensures
            r == self.config,
    {
        self.config
    }

    /// A snapshot of the current state, borrowing the caches.
    pub fn get_snapshot(&self) -> (r: InferenceSnapshotRef<'_>)
        ensures
            r.npast == self.n_past,
            r.config == self.config,
            r.tokens@ == self.tokens@,
            r.logits@ == self.last_logits@,
            r.memory_k@ == self.memory_k@,
            r.memory_v@ == self.memory_v@,
            r.state@ == self.state@,
    {
        InferenceSnapshotRef {
            npast: self.n_past,
            config: self.config,
            tokens: vstd::slice::slice_to_vec(self.tokens.as_slice()),
            logits: vstd::slice::slice_to_vec(self.last_logits.as_slice()),
            memory_k: self.memory_k.as_slice(),
            memory_v: self.memory_v.as_slice(),
            state: self.state.as_slice(),
        }
    }

    /// Restores a session from a snapshot: the model creates a session with the
    /// snapshot's configuration, whose cache sizes the snapshot must match.
    pub fn from_snapshot<M: Model>(snapshot: InferenceSnapshot, model: &M) -> (r: Result<
        InferenceSession,
        SnapshotError,
    >)
        ensures
            r is Ok <==> snapshot.fits(model),
            r matches Ok(s) ==> snapshot.describes(&s) && s.mem_per_token == 0,
            r matches Ok(s) ==> (s.wf_for(model) <==> snapshot.tokens@.len() == snapshot.npast
                && snapshot.last_logits@.len() == model.vocab_len()),
            !snapshot.fits(model) ==> {
                let k = kv_bytes(
                    model.context_len(),
                    model.layer_count(),
                    model.embedding_len(),
                    snapshot.config.memory_k_type,
                );
                let v = kv_bytes(
                    model.context_len(),
                    model.layer_count(),
                    model.embedding_len(),
                    snapshot.config.memory_v_type,
                );
                let st = state_bytes(model.layer_count(), model.embedding_len());
                if snapshot.memory_k@.len() != k || snapshot.memory_v@.len() != v {
                    r matches Err(SnapshotError::MemorySizeMismatch { self_size, input_size })
                        && self_size == capped_sum(k, v) && input_size == capped_sum(
                        snapshot.memory_k@.len(),
                        snapshot.memory_v@.len(),
                    )
                } else {
                    r matches Err(SnapshotError::MemorySizeMismatch { self_size, input_size })
                        && self_size == st && input_size == snapshot.state@.len()
                }
            },
    {
        let mut session = model.start_session(snapshot.config);
        if session.memory_k.len() != snapshot.memory_k.len() || session.memory_v.len()
            != snapshot.memory_v.len() {
            return Err(
                SnapshotError::MemorySizeMismatch {
                    self_size: session.memory_k.len().saturating_add(session.memory_v.len()),
                    input_size: snapshot.memory_k.len().saturating_add(snapshot.memory_v.len()),
                },
            );
        } else if session.state.len() != snapshot.state.len() {
            return Err(
                SnapshotError::MemorySizeMismatch {
                    self_size: session.state.len(),
                    input_size: snapshot.state.len(),
                },
            );
        }
        session.memory_k = snapshot.memory_k;
        session.memory_v = snapshot.memory_v;
        session.state = snapshot.state;
        session.n_past = snapshot.npast;
        session.tokens = snapshot.tokens;
        session.last_logits = snapshot.last_logits;
        Ok(session)
    }
}

/// A snapshot of a session that is well formed for `model` fits `model`, so it
/// restores; a session restored from it holds the same tokens, logits, caches and
/// position as the snapshotted one, and is well formed for `model` too.
pub proof fn lemma_snapshot_round_trip<M: Model>(
    model: &M,
    source: &InferenceSession,
    snapshot: &InferenceSnapshot,
    restored: &InferenceSession,
)
    requires
        source.wf_for(model),
        snapshot.describes(source),
        snapshot.describes(restored),
    ensures
        snapshot.fits(model),
        restored.same_state(source),
        restored.wf_for(model),
{
}

/// Sessions in the same state, sampled by the same sampler state, take the same
/// step: the sampler picks the same token and moves to the same state, and the
/// forward pass over that token starts from the same cache state. With the exact
/// contract of `infer_next_token`, a restored session therefore generates the same
/// tokens as the session it was snapshotted from.
pub proof fn lemma_same_state_same_step<M: Model, S: Sampler>(
    model: &M,
    a: &InferenceSession,
    b: &InferenceSession,
    sampler: &S,
    params: InferenceParameters,
)
    requires
        a.same_state(b),
    ensures
        a.cache_state() == b.cache_state(),
        sampler.choice(params, a.tokens@, a.last_logits@) == sampler.choice(
            params,
            b.tokens@,
            b.last_logits@,
        ),
        sampler.advanced(params, a.tokens@, a.last_logits@) == sampler.advanced(
            params,
            b.tokens@,
            b.last_logits@,
        ),
{
}

/// Restoring is idempotent: restore snapshot `a` into `b`, snapshot `b` as `b_snap`,
/// restore that into `c` and snapshot `c` as `c_snap`; then `b_snap` restores too,
/// and `c_snap` equals `a` byte for byte.
pub proof fn lemma_restore_idempotent<M: Model>(
    model: &M,
    a: &InferenceSnapshot,
    b: &InferenceSession,
    b_snap: &InferenceSnapshot,
    c: &InferenceSession,
    c_snap: &InferenceSnapshot,
)
    requires
        a.fits(model),
        a.describes(b),
        b_snap.describes(b),
        b_snap.describes(c),
        c_snap.describes(c),
    ensures
        b_snap.fits(model),
        c_snap.same_as(a),
{
}

/// A logit of zero for each of `n` tokens.
fn zeroed_logits(n: usize) -> (r: Vec<u32>)
    ensures
        r@ == Seq::new(n as nat, |i: int| 0u32),
{
    let mut v: Vec<u32> = Vec::with_capacity(n);
    let mut i: usize = 0;
    while i < n
        invariant
            i <= n,
            v@ == Seq::new(i as nat, |j: int| 0u32),
        decreases n - i,
    {
        v.push(0);
        i = i + 1;
        proof {
            assert(v@ =~= Seq::new(i as nat, |j: int| 0u32));
        }
    }
    v
}

/// `a * b * c`, without overflow on the way when one factor is zero.
fn product3(a: usize, b: usize, c: usize) -> (r: usize)
    requires
        a * b * c <= usize::MAX,
    ensures
        r == a * b * c,
{
    if a == 0 || b == 0 || c == 0 {
        proof {
            assert(a * b * c == 0) by (nonlinear_arith)
                requires
                    a == 0 || b == 0 || c == 0,
            ;
        }
        0
    } else {
        proof {
            assert(a * b <= a * b * c) by (nonlinear_arith)
                requires
                    c >= 1,
            ;
        }
        a * b * c
    }
}

proof fn lemma_product_fits(a: nat, b: nat, c: nat, width: nat)
    requires
        width <= 4,
        a * b * c * 4 <= usize::MAX,
    ensures
        a * b * c <= usize::MAX,
        a * b * c * width <= usize::MAX,
{
    assert(a * b * c <= a * b * c * 4) by (nonlinear_arith);
    assert(a * b * c * width <= a * b * c * 4) by (nonlinear_arith)
        requires
            width <= 4,
    ;
}

} // verus!
