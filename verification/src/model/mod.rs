//! Reading model files without loading them.
//!
//! The planner has to reason about a model it may not be able to hold: how many experts,
//! how big each one is, where its bytes live. All of that comes from the tensor
//! directory, which is a few hundred kilobytes at the front of the file. Payload is never
//! touched here.

pub mod experts;
pub mod ggml;
pub mod gguf;
pub mod header;
pub mod moe;
pub mod remote;
pub mod safetensors;
pub mod shape;

pub use experts::{expert_ranges, expert_slice, ExpertError, ExpertRanges, ExpertSlice, TokenTraffic};
pub use ggml::{BlockLayout, GgmlType};
pub use gguf::{Gguf, GgufError, TensorInfo, Value};
pub use moe::{infer_moe_shape, MoeShape};
pub use remote::{hf_url, RemoteFile};
pub use safetensors::{Safetensors, SafetensorsError};
pub use shape::{infer_kv_shape, ArchFacts, KvShape, ModelShape, TensorEntry, KV_F16_BYTES};
