# hipfire

The host side of an LLM inference engine for AMD GPUs, verified with Verus.

The library holds what the host decides about a model: its configuration and weights
out of a model file, the lists of device operations of a forward pass, how a cache is
shrunk, how drafts are built and accepted, how tokens are drawn. A driver in `app/`
carries the lists out. It also has what the library cannot hold: exponentials and
logarithms, which are floating point, calls into the HIP runtime, files, and the order
in which memory of the device is bound to names. The kernels themselves are device code
and stand behind a trait.

- `src/float.rs`, `src/order.rs`, `src/rounding.rs`: single-precision arithmetic on
  words, its order and its rounding.
- `src/json.rs`, `src/hfq.rs`, `src/names.rs`, `src/quant.rs`, `src/loading.rs`: model
  files, and the tensors that are read from them.
- `src/device.rs`: device operations, and what makes a list of them safe.
- `src/qwen35.rs`, `src/qwen35_vl.rs`, `src/gemma4.rs`, `src/qwen2.rs`,
  `src/dots_ocr.rs`, `src/dflash.rs`: the models; `src/experts.rs`: what a batch gets
  from routed experts.
- `src/cask.rs`, `src/eviction.rs`: shrinking a key/value cache by folding rows.
- `src/speculative.rs`: drafting; `src/ddtree.rs`: draft trees, with what holds of the
  order of their nodes in `src/heaviest.rs`, of their paths in `src/paths.rs` and of the
  children of a node in `src/siblings.rs`.
- `src/sampling.rs`: drawing tokens; `src/draws.rs`: what decides on a draw.
- `src/image.rs`, `src/hip.rs`, `src/atlas.rs`: images, the driver's decisions, and
  the command line of the benchmark corpus.
- `app/`: the HIP runtime, exponentials, files, and the loops around the library.

A proof function named `law_...` states a property of the library as a whole.
