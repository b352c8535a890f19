//! Keeps a local asset tree (fonts, images) synchronized with a versioned
//! remote repository: manifest-driven, hash-based staleness detection and
//! bounded-concurrency download scheduling.
//!
//! The library holds the engine's logic: URL construction, content hashing,
//! staleness resolution, the download scheduler's state machine, the
//! per-category progress counts, and the model of how task outcomes change
//! the local file tree. Network and file I/O live outside, handing the
//! engine plain values and reporting each task's terminal outcome back.

pub mod hashing;
pub mod local;
pub mod manifest;
pub mod progress;
pub mod resolve;
pub mod scheduler;
pub mod session;
