//! Verified host-side logic of the ferro tensor runtime: allocator
//! bookkeeping, CUDA C source generation, launch geometry and a byte-level
//! BPE tokenizer.

pub mod allocator;
pub mod text;
pub mod tokenizer;
pub mod kernels;
pub mod fastcpu;
pub mod static_plan;
pub mod dlpack;
pub mod segment;
pub mod launch;
pub mod indexing;
pub mod schema;
pub mod capture;
pub mod replay;
