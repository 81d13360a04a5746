use vstd::prelude::*;

pub mod text;
pub mod strutil;
pub mod spans;
pub mod certificate;
pub mod tensor;
pub mod kargs;
pub mod hash;
pub mod base64url;
pub mod handle;
pub mod performance;
pub mod query_cache;
pub mod gguf;
pub mod rg;
pub mod testrun;
pub mod data;
pub mod plan;
pub mod txn;
pub mod journal;
pub mod changes;
pub mod workspace;
pub mod cpu_features;
pub mod map;
pub mod ensure;
pub mod verify;
pub mod cuda;

verus! {
} // verus!
