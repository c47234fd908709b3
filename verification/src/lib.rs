//! Download orchestration for a peer-to-peer content distribution agent:
//! piece planning, the piece content and metadata store, and the decisions
//! that drive a task download from the local cache, remote peers and the
//! origin server.

pub mod backend;
pub mod digest;
pub mod error;
pub mod scheduler;
pub mod seq_lemmas;
pub mod storage;
pub mod task;
pub mod text;
