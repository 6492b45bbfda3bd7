//! Streaming text engine for a reverse-proxy filter: event-stream framing,
//! lookback windows and per-choice demultiplexing of chat-completion streams.

pub mod cluster_wrapper;
pub mod error;
pub mod event_stream;
pub mod json;
pub mod log;
pub mod json_text;
pub mod msg_win_openai;
pub mod msg_window;
pub mod number_merge;
pub mod redis_wrapper;
pub mod request_wrapper;
pub mod rule_matcher;
pub mod text;
pub mod usage;
