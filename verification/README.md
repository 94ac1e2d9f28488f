# ferro

Host-side logic of the ferro tensor runtime, verified with Verus.

`src/` is the verified library:

- `allocator` — the size-binned freelist and counters of the caching device allocator.
- `capture` — the ownership protocol around a captured CUDA graph (end, instantiate,
  upload, teardown), as a state machine that decides the next driver call from the
  reply to the last one.
- `replay` — replay bookkeeping of a prepared static graph.
- `static_plan` — validation and lowering of static models and pointwise DAGs.
- `kernels` — CUDA C source generation for the elementwise, reduction and
  optimizer kernels.
- `launch` — launch geometry, kernel/BLAS argument limits and the row-major GEMM mapping.
- `segment` — CSR layout of segment topologies and segment-reduction launches.
- `dlpack` — DLPack header validation and strided gathers.
- `indexing` — Python-style dims, indices, slices, keys and device names.
- `schema` — module configuration checks.
- `tokenizer`, `text` — the byte-level BPE tokenizer and the text helpers it uses.

`app/` holds what Verus does not see: the CUDA driver calls (through `cudarc`) that run
the allocator and capture protocols, raw DLPack pointer reads, tokenizer files, and the
f32 CPU kernels.
