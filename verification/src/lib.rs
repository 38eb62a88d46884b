//! Resource-aware front end for a stateful speech-synthesis engine.
//!
//! The library holds the logic that must be right regardless of which engine
//! binary is behind it: the voice-model lifecycle manager (which model serves a
//! style, and when it must be loaded), the deduplicating bounded request
//! caches, and the pitch-range analyzer that reduces a benchmark corpus to a
//! per-style pitch envelope. Engine calls, file I/O and the UI layer live
//! outside; they drive these components with plain values.

pub mod audio_query;
pub mod cache;
pub mod config;
pub mod error;
pub mod lifecycle;
pub mod metas;
pub mod order;
pub mod pitch;
