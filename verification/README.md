# paddock_metal

Planning for language models that run on Metal devices, written in Verus. The
library decides what a device is to do and proves what it decides: which rows
go through which kernels, where keys, values and recurrent states live, which
prefixes are saved, restored or evicted, and how much memory a model needs. It
never touches a device. A tick is handed out as a `Program`, a list of kernel
launches with their buffers, parameters and grids; buffers are named by number.

- `src/` is the library. Shared pieces come first: arithmetic and row tables
  (`arith`, `rows`, `tables`), stored tensors (`header`), device programs
  (`program`, `projection`), the identity and transport of checkpoints
  (`digest`, `files`, `offload`), and the colder tier (`tiering`,
  `paged_offload`). Then one directory per model family: `nemotron`,
  `paddleocr`, `qwen3`, `qwen35`.
- `tests/` runs the library on concrete values.
- `app/` is what stays outside: files, threads, clocks, floating-point settings
  and the loops that hand programs to a device.

Floating-point values pass through the library as bit patterns. Hashing is
blake3's and JSON is serde_json's; `src/digest.rs` and
`src/qwen35/processor.rs` say what is taken from them on trust.
