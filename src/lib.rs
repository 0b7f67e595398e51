//! Inference sessions for decoder-only language models: prompt ingestion,
//! token-by-token generation, the decisions of top-K / top-P sampling, session
//! snapshots, UTF-8 reassembly of token bytes, architecture tags and model
//! hyperparameter headers.
use vstd::prelude::*;

pub mod architecture;
pub mod gpt2;
pub mod header;
pub mod model;
pub mod rwkv;
pub mod sampling;
pub mod session;
pub mod utf8;

pub use architecture::{ModelArchitecture, UnsupportedModelArchitecture};
pub use header::{FileType, HyperparametersWriteError, LoadError};
pub use model::{Model, OutputRequest, Sampler, TextSink, TokenSink, TokenizationError};
pub use sampling::{InferenceParameters, LogitTransform, TokenBias, TokenId};
pub use session::{
    InferenceError, InferenceRequest, InferenceSession, InferenceSessionConfig,
    InferenceSnapshot, InferenceSnapshotRef, InferenceStats, ModelKVMemoryType, SnapshotError,
};
pub use utf8::TokenUtf8Buffer;
