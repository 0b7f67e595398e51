use llm::{
    InferenceError, InferenceParameters, InferenceRequest, InferenceSession,
    InferenceSessionConfig, InferenceSnapshot, Model, ModelKVMemoryType, OutputRequest, Sampler,
    SnapshotError, TextSink, TokenBias, TokenId, TokenSink, TokenizationError,
};

/// Collects token bytes; fails on the bytes given in `fail_on`.
struct Bytes {
    seen: Vec<u8>,
    fail_on: Option<Vec<u8>>,
}

impl TokenSink for Bytes {
    fn receive(&mut self, bytes: &[u8]) -> Result<(), String> {
        if self.fail_on.as_deref() == Some(bytes) {
            return Err("stop".to_string());
        }
        self.seen.extend_from_slice(bytes);
        Ok(())
    }
}

fn bytes() -> Bytes {
    Bytes { seen: Vec::new(), fail_on: None }
}

/// Collects text.
struct Text {
    text: String,
}

impl TextSink for Text {
    fn receive(&mut self, text: &str) -> Result<(), String> {
        self.text.push_str(text);
        Ok(())
    }
}

/// A stand-in model: each character is a token (its code modulo the vocabulary),
/// and the next logits favour the successor of the last token.
struct ToyModel {
    n_ctx: usize,
    n_vocab: usize,
    bot: Option<TokenId>,
    eot: TokenId,
    params: InferenceParameters,
}

fn toy_params(n_batch: usize) -> InferenceParameters {
    InferenceParameters {
        n_threads: 1,
        n_batch,
        top_k: 1,
        top_p: 1.0f32.to_bits(),
        repeat_penalty: 1.0f32.to_bits(),
        temperature: 1.0f32.to_bits(),
        bias_tokens: TokenBias::empty(),
        repetition_penalty_last_n: 16,
    }
}

fn toy(n_ctx: usize) -> ToyModel {
    ToyModel { n_ctx, n_vocab: 26, bot: None, eot: 25, params: toy_params(2) }
}

impl Model for ToyModel {
    fn n_context_tokens(&self) -> usize {
        self.n_ctx
    }
    fn n_vocab(&self) -> usize {
        self.n_vocab
    }
    fn n_layer(&self) -> usize {
        2
    }
    fn n_embedding(&self) -> usize {
        3
    }
    fn bot_token_id(&self) -> Option<TokenId> {
        self.bot
    }
    fn eot_token_id(&self) -> TokenId {
        self.eot
    }
    fn tokenize(&self, text: &str, bos: bool) -> Result<Vec<TokenId>, TokenizationError> {
        let mut out = Vec::new();
        if bos {
            if let Some(b) = self.bot {
                out.push(b);
            }
        }
        for c in text.chars() {
            if !c.is_ascii_lowercase() {
                return Err(TokenizationError::TokenizationFailed(format!("bad char {c}")));
            }
            out.push(c as u32 - 'a' as u32);
        }
        Ok(out)
    }
    fn token(&self, id: TokenId) -> Vec<u8> {
        vec![b'a' + (id % 26) as u8]
    }
    fn inference_parameters(&self) -> &InferenceParameters {
        &self.params
    }
    fn start_session(&self, config: InferenceSessionConfig) -> InferenceSession {
        InferenceSession::new(config, self.n_ctx, 2, 3, self.n_vocab)
    }
    fn evaluate(
        &self,
        session: &mut InferenceSession,
        _params: &InferenceParameters,
        input_tokens: &[TokenId],
        _output_request: &mut OutputRequest,
    ) {
        let last = *input_tokens.last().unwrap() as usize;
        let mut logits = vec![0.0f32.to_bits(); self.n_vocab];
        logits[(last + 1) % self.n_vocab] = 5.0f32.to_bits();
        for (i, t) in input_tokens.iter().enumerate() {
            let at = (session.n_past + i) % session.memory_k.len().max(1);
            if !session.memory_k.is_empty() {
                session.memory_k[at] = *t as u8;
            }
        }
        session.last_logits = logits;
        session.n_past += input_tokens.len();
    }
}

/// Picks the highest logit; counts its calls.
struct Greedy {
    calls: usize,
}

impl Sampler for Greedy {
    fn sample(&mut self, _params: &InferenceParameters, _prev: &[TokenId], logits: &[u32]) -> Result<TokenId, String> {
        self.calls += 1;
        let mut best = 0;
        for i in 1..logits.len() {
            if f32::from_bits(logits[i]) > f32::from_bits(logits[best]) {
                best = i;
            }
        }
        Ok(best as TokenId)
    }
}

/// Draws from a seeded generator, weighting nothing; deterministic for a seed.
struct Seeded {
    state: u64,
}

impl Sampler for Seeded {
    fn sample(&mut self, _params: &InferenceParameters, prev: &[TokenId], logits: &[u32]) -> Result<TokenId, String> {
        self.state ^= self.state << 13;
        self.state ^= self.state >> 7;
        self.state ^= self.state << 17;
        let mix = self.state.wrapping_add(prev.len() as u64).wrapping_add(logits.iter().map(|&b| b as u64).sum::<u64>());
        Ok((mix % logits.len() as u64) as TokenId)
    }
}

fn session_for(model: &ToyModel) -> InferenceSession {
    model.start_session(InferenceSessionConfig::default())
}

#[test]
fn new_session_is_sized_and_zeroed() {
    let config = InferenceSessionConfig {
        memory_k_type: ModelKVMemoryType::Float16,
        memory_v_type: ModelKVMemoryType::Float32,
    };
    let s = InferenceSession::new(config, 4, 2, 3, 7);
    assert_eq!(s.memory_k.len(), 4 * 2 * 3 * 2);
    assert_eq!(s.memory_v.len(), 4 * 2 * 3 * 4);
    assert_eq!(s.state.len(), 2 * 5 * 3 * 4);
    assert_eq!(s.last_logits, vec![0u32; 7]);
    assert_eq!(s.n_past, 0);
    assert!(s.tokens().is_empty());
}

#[test]
fn feed_prompt_in_batches_then_again() {
    let model = toy(16);
    let mut s = session_for(&model);
    let params = toy_params(2);
    let mut sink = bytes();
    s.feed_prompt(&model, &params, "abc", &mut OutputRequest::none(), &mut sink).unwrap();
    assert_eq!(s.n_past, 3);
    s.feed_prompt(&model, &params, "de", &mut OutputRequest::none(), &mut sink).unwrap();
    let seen = sink.seen;
    assert_eq!(s.n_past, 5);
    assert_eq!(s.tokens(), &[0, 1, 2, 3, 4]);
    assert_eq!(seen, b"abcde".to_vec());
    assert_eq!(s.last_logits.len(), 26);
}

#[test]
fn feed_prompt_skips_callback_for_bot_marker() {
    let mut model = toy(16);
    model.bot = Some(7);
    let mut s = session_for(&model);
    let mut sink = bytes();
    s.feed_prompt(&model, &toy_params(4), "ab", &mut OutputRequest::none(), &mut sink).unwrap();
    let seen = sink.seen;
    assert_eq!(s.tokens(), &[7, 0, 1]);
    assert_eq!(seen, b"ab".to_vec());
}

#[test]
fn feed_prompt_context_full_leaves_session() {
    let model = toy(4);
    let mut s = session_for(&model);
    let r = s.feed_prompt(&model, &toy_params(2), "abcd", &mut OutputRequest::none(), &mut bytes());
    assert_eq!(r, Err(InferenceError::ContextFull));
    assert_eq!(s.n_past, 0);
    assert!(s.tokens().is_empty());
}

#[test]
fn feed_prompt_reports_tokenization_failure() {
    let model = toy(16);
    let mut s = session_for(&model);
    let r = s.feed_prompt(&model, &toy_params(2), "A", &mut OutputRequest::none(), &mut bytes());
    assert!(matches!(r, Err(InferenceError::TokenizationFailed(_))));
    assert_eq!(s.n_past, 0);
}

#[test]
fn feed_prompt_callback_error_keeps_whole_batch() {
    let model = toy(16);
    let mut s = session_for(&model);
    let mut sink = Bytes { seen: Vec::new(), fail_on: Some(b"c".to_vec()) };
    let r = s.feed_prompt(&model, &toy_params(2), "abcde", &mut OutputRequest::none(), &mut sink);
    assert_eq!(sink.seen, b"ab".to_vec());
    assert_eq!(r, Err(InferenceError::UserCallback("stop".to_string())));
    assert_eq!(s.tokens(), &[0, 1, 2, 3]);
    assert_eq!(s.n_past, 4);
}

#[test]
fn infer_next_token_appends_sampled_token() {
    let model = toy(16);
    let mut s = session_for(&model);
    s.feed_prompt(&model, &toy_params(2), "ab", &mut OutputRequest::none(), &mut bytes()).unwrap();
    let mut sampler = Greedy { calls: 0 };
    let bytes = s.infer_next_token(&model, &toy_params(2), &mut OutputRequest::none(), &mut sampler).unwrap();
    assert_eq!(bytes, b"c".to_vec());
    assert_eq!(s.tokens(), &[0, 1, 2]);
    assert_eq!(s.n_past, 3);
}

#[test]
fn infer_next_token_reports_end_of_text() {
    let model = toy(16);
    let mut s = session_for(&model);
    s.feed_prompt(&model, &toy_params(2), "y", &mut OutputRequest::none(), &mut bytes()).unwrap();
    let mut sampler = Greedy { calls: 0 };
    let r = s.infer_next_token(&model, &toy_params(2), &mut OutputRequest::none(), &mut sampler);
    assert_eq!(r, Err(InferenceError::EndOfText));
    assert_eq!(s.tokens(), &[24, 25]);
    assert_eq!(s.n_past, 2);
}

#[test]
fn infer_next_token_at_context_frontier_is_context_full() {
    let model = toy(4);
    let mut s = session_for(&model);
    s.feed_prompt(&model, &toy_params(2), "abc", &mut OutputRequest::none(), &mut bytes()).unwrap();
    assert_eq!(s.n_past, 3);
    let before = s.clone();
    let mut sampler = Greedy { calls: 0 };
    let r = s.infer_next_token(&model, &toy_params(2), &mut OutputRequest::none(), &mut sampler);
    assert_eq!(r, Err(InferenceError::ContextFull));
    assert_eq!(sampler.calls, 0);
    assert_eq!(s.tokens(), before.tokens());
    assert_eq!(s.n_past, before.n_past);
    assert_eq!(s.last_logits, before.last_logits);
}

#[test]
fn infer_with_zero_limit_only_feeds_prompt() {
    let model = toy(16);
    let mut s = session_for(&model);
    let mut sampler = Greedy { calls: 0 };
    let mut text = Text { text: String::new() };
    let request = InferenceRequest {
        prompt: "abc",
        parameters: None,
        play_back_previous_tokens: false,
        maximum_token_count: Some(0),
    };
    let stats = s
        .infer(&model, &mut sampler, &request, &mut OutputRequest::none(), &mut text)
        .unwrap();
    assert_eq!(stats.prompt_tokens, 3);
    assert_eq!(stats.predict_tokens, stats.prompt_tokens);
    assert_eq!(sampler.calls, 0);
    assert_eq!(text.text, "abc");
}

#[test]
fn infer_generates_until_end_of_text() {
    let model = toy(32);
    let mut s = session_for(&model);
    let mut sampler = Greedy { calls: 0 };
    let mut text = Text { text: String::new() };
    let request = InferenceRequest {
        prompt: "v",
        parameters: None,
        play_back_previous_tokens: false,
        maximum_token_count: None,
    };
    let stats = s
        .infer(&model, &mut sampler, &request, &mut OutputRequest::none(), &mut text)
        .unwrap();
    assert_eq!(text.text, "vwxy");
    assert_eq!(stats.prompt_tokens, 1);
    assert_eq!(stats.predict_tokens, 5);
    assert_eq!(s.tokens(), &[21, 22, 23, 24, 25]);
}

#[test]
fn infer_respects_token_limit_and_plays_back() {
    let model = toy(32);
    let mut s = session_for(&model);
    s.feed_prompt(&model, &toy_params(2), "a", &mut OutputRequest::none(), &mut bytes()).unwrap();
    let mut sampler = Greedy { calls: 0 };
    let mut text = Text { text: String::new() };
    let request = InferenceRequest {
        prompt: "b",
        parameters: Some(&toy_params(1)),
        play_back_previous_tokens: true,
        maximum_token_count: Some(2),
    };
    let stats = s
        .infer(&model, &mut sampler, &request, &mut OutputRequest::none(), &mut text)
        .unwrap();
    assert_eq!(text.text, "abcd");
    assert_eq!(stats.prompt_tokens, 2);
    assert_eq!(stats.predict_tokens, 4);
    assert_eq!(sampler.calls, 2);
}

#[test]
fn snapshot_round_trip_gives_same_next_token() {
    let model = toy(32);
    let mut s = session_for(&model);
    s.feed_prompt(&model, &toy_params(4), "abcdefghijklmnopq", &mut OutputRequest::none(), &mut bytes())
        .unwrap();
    assert_eq!(s.n_past, 17);
    let snapshot: InferenceSnapshot = s.get_snapshot().to_owned();
    let mut restored = InferenceSession::from_snapshot(snapshot.clone(), &model).unwrap();
    assert_eq!(restored.get_snapshot().to_owned(), snapshot);
    let mut a = Seeded { state: 0x9E3779B97F4A7C15 };
    let mut b = Seeded { state: 0x9E3779B97F4A7C15 };
    let x = s.infer_next_token(&model, &toy_params(4), &mut OutputRequest::none(), &mut a);
    let y = restored.infer_next_token(&model, &toy_params(4), &mut OutputRequest::none(), &mut b);
    assert_eq!(x, y);
    assert_eq!(s.tokens(), restored.tokens());
}

#[test]
fn restoring_twice_gives_identical_snapshot() {
    let model = toy(32);
    let mut s = session_for(&model);
    s.feed_prompt(&model, &toy_params(3), "hello", &mut OutputRequest::none(), &mut bytes()).unwrap();
    let a = s.get_snapshot().to_owned();
    let b = InferenceSession::from_snapshot(a.clone(), &model).unwrap();
    let b_snap = b.get_snapshot().to_owned();
    let c = InferenceSession::from_snapshot(b_snap, &model).unwrap();
    assert_eq!(c.get_snapshot().to_owned(), a);
}

#[test]
fn snapshot_with_wrong_cache_size_is_rejected() {
    let model = toy(8);
    let s = session_for(&model);
    let mut snapshot = s.get_snapshot().to_owned();
    snapshot.memory_k.push(0);
    match InferenceSession::from_snapshot(snapshot, &model) {
        Err(SnapshotError::MemorySizeMismatch { self_size, input_size }) => {
            assert_eq!(self_size, 2 * 8 * 3 * 4 * 2);
            assert_eq!(input_size, 2 * 8 * 3 * 4 * 2 + 1);
        }
        _ => panic!("expected a size mismatch"),
    }
    let mut other = s.get_snapshot().to_owned();
    other.state.pop();
    match InferenceSession::from_snapshot(other, &model) {
        Err(SnapshotError::MemorySizeMismatch { self_size, input_size }) => {
            assert_eq!(self_size, 2 * 5 * 3 * 4);
            assert_eq!(input_size, 2 * 5 * 3 * 4 - 1);
        }
        _ => panic!("expected a size mismatch"),
    }
}

#[test]
fn sampling_uses_session_logits() {
    let model = toy(16);
    let mut s = session_for(&model);
    s.feed_prompt(&model, &toy_params(2), "k", &mut OutputRequest::none(), &mut bytes()).unwrap();
    let mut sampler = Greedy { calls: 0 };
    assert_eq!(s.sample_top_p_top_k(&toy_params(2), &mut sampler), Ok(11));
    assert_eq!(sampler.calls, 1);
    assert_eq!(s.tokens(), &[10]);
}

#[test]
fn infer_reports_prompt_errors() {
    let model = toy(4);
    let mut s = session_for(&model);
    let mut sampler = Greedy { calls: 0 };
    let long = InferenceRequest {
        prompt: "abcdef",
        parameters: None,
        play_back_previous_tokens: false,
        maximum_token_count: None,
    };
    let r = s.infer(&model, &mut sampler, &long, &mut OutputRequest::none(), &mut Text { text: String::new() });
    assert!(matches!(r, Err(InferenceError::ContextFull)));
    let bad = InferenceRequest { prompt: "AB", ..long };
    let r = s.infer(&model, &mut sampler, &bad, &mut OutputRequest::none(), &mut Text { text: String::new() });
    assert!(matches!(r, Err(InferenceError::TokenizationFailed(_))));
    assert_eq!(s.n_past, 0);
    assert_eq!(sampler.calls, 0);
}

#[test]
fn infer_stops_with_context_full_during_generation() {
    let model = toy(4);
    let mut s = session_for(&model);
    let mut sampler = Greedy { calls: 0 };
    let request = InferenceRequest {
        prompt: "a",
        parameters: None,
        play_back_previous_tokens: false,
        maximum_token_count: None,
    };
    let r = s.infer(&model, &mut sampler, &request, &mut OutputRequest::none(), &mut Text { text: String::new() });
    assert!(matches!(r, Err(InferenceError::ContextFull)));
    assert_eq!(s.tokens(), &[0, 1, 2]);
}

#[test]
fn new_state_holds_running_max_sentinel() {
    let s = InferenceSession::new(InferenceSessionConfig::default(), 2, 2, 3, 4);
    let sentinel = (-1e30f32).to_le_bytes();
    for layer in 0..2 {
        for slot in 0..5 {
            for k in 0..3 {
                let at = ((layer * 5 + slot) * 3 + k) * 4;
                let expected = if slot == 4 { sentinel } else { [0u8; 4] };
                assert_eq!(&s.state[at..at + 4], &expected);
            }
        }
    }
}

#[test]
fn feed_prompt_only_marker_succeeds() {
    let mut model = toy(16);
    model.bot = Some(3);
    let mut s = session_for(&model);
    let mut sink = Bytes { seen: Vec::new(), fail_on: Some(Vec::new()) };
    s.feed_prompt(&model, &toy_params(2), "", &mut OutputRequest::none(), &mut sink).unwrap();
    assert_eq!(s.tokens(), &[3]);
    assert!(sink.seen.is_empty());
}

/// Never manages to pick.
struct Broken;

impl Sampler for Broken {
    fn sample(&mut self, _params: &InferenceParameters, _prev: &[TokenId], _logits: &[u32]) -> Result<TokenId, String> {
        Err("all probabilities are zero".to_string())
    }
}

#[test]
fn sampling_failure_leaves_session() {
    let model = toy(16);
    let mut s = session_for(&model);
    s.feed_prompt(&model, &toy_params(2), "ab", &mut OutputRequest::none(), &mut bytes()).unwrap();
    let r = s.infer_next_token(&model, &toy_params(2), &mut OutputRequest::none(), &mut Broken);
    assert_eq!(r, Err(InferenceError::SamplingFailed("all probabilities are zero".to_string())));
    assert_eq!(s.tokens(), &[0, 1]);
    assert_eq!(s.n_past, 2);
}

/// Fails on its first call.
struct Refusing;

impl TextSink for Refusing {
    fn receive(&mut self, _text: &str) -> Result<(), String> {
        Err("closed".to_string())
    }
}

#[test]
fn infer_zero_limit_ignores_sampler() {
    let model = toy(16);
    let mut s = session_for(&model);
    let request = InferenceRequest {
        prompt: "ab",
        parameters: None,
        play_back_previous_tokens: false,
        maximum_token_count: Some(0),
    };
    let stats = s
        .infer(&model, &mut Broken, &request, &mut OutputRequest::none(), &mut Text { text: String::new() })
        .unwrap();
    assert_eq!(stats.prompt_tokens, 2);
    assert_eq!(stats.predict_tokens, 2);
}

#[test]
fn infer_playback_failure_changes_nothing() {
    let model = toy(16);
    let mut s = session_for(&model);
    s.feed_prompt(&model, &toy_params(2), "ab", &mut OutputRequest::none(), &mut bytes()).unwrap();
    let request = InferenceRequest {
        prompt: "c",
        parameters: None,
        play_back_previous_tokens: true,
        maximum_token_count: None,
    };
    let mut sampler = Greedy { calls: 0 };
    let r = s.infer(&model, &mut sampler, &request, &mut OutputRequest::none(), &mut Refusing);
    assert_eq!(r.err(), Some(InferenceError::UserCallback("closed".to_string())));
    assert_eq!(s.tokens(), &[0, 1]);
    assert_eq!(sampler.calls, 0);
}

#[test]
fn infer_sampling_failure_keeps_prompt() {
    let model = toy(16);
    let mut s = session_for(&model);
    let request = InferenceRequest {
        prompt: "ab",
        parameters: None,
        play_back_previous_tokens: false,
        maximum_token_count: Some(3),
    };
    let mut text = Text { text: String::new() };
    let r = s.infer(&model, &mut Broken, &request, &mut OutputRequest::none(), &mut text);
    assert!(matches!(r, Err(InferenceError::SamplingFailed(_))));
    assert_eq!(s.tokens(), &[0, 1]);
    assert_eq!(text.text, "ab");
}
