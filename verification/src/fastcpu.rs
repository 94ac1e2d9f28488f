//! The vectorized/threaded elementwise CPU backend handle.

use vstd::prelude::*;

verus! {

/// Vectorized/threaded elementwise CPU backend. Its kernels are f32
/// arithmetic and live with the application that registers it.
pub struct FastCpuBackend;

} // verus!
