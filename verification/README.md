# ratchet

The rules of a small GPU tensor runtime, verified with Verus.

- `src/shape.rs`, `src/tensor.rs`: shapes and tensors.
- `src/matmul.rs`: how the operands of a matrix multiplication are stacked, and what is dispatched
  to multiply them. `src/kernel.rs` and `src/operation.rs` hold what operations share.
- `src/ggml/`: the format of GGML files, the headers of their tensors, and a loader that says what
  to read from a file and where to go in it, without touching the file itself. `laws.rs` states
  what holds of every file that is loaded.
- `src/device.rs`: which GPU to use, and how to ask for it.
- `src/op.rs`: recorded operations.
- `src/bytes.rs`: the calls into `byteorder` and `String::from_utf8` that the rest builds on. Their
  contracts are taken on trust.
- `app/`: reading files and talking to the GPU.

The types of tensor data that a GGML file may hold are given to the loader by its caller, each with
its code and how it packs elements into bytes.
