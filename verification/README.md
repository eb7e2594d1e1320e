# tiktoken_shim

Token counting, encoding and decoding for the OpenAI encodings (`r50k_base`,
`p50k_base`, `p50k_edit`, `cl100k_base`, `o200k_base`, `o200k_harmony`),
behind a C interface.

Layout:

- `src/` — the verified library.
  - `registry.rs`: model name → encoding name, encoding name → how to load it.
  - `special_tokens.rs`: each encoding's special tokens and their order.
  - `special.rs`: special-token modes, the check for special-token text,
    reading token lists and C-string arguments.
  - `number.rs`, `rank_map.rs`, `vocab.rs`: reading `.tiktoken` files.
  - `encoding.rs`: loading an encoding, encoding and decoding.
  - `scanner.rs`: splitting text at the special tokens that stand for
    themselves; the ordinary text between them is tokenized by the
    `tiktoken` crate.
  - `cache.rs`: each encoding loaded once.
  - `calls.rs`: the operations of the C interface, from raw arguments to
    result or first error.
  - `output.rs`: values handed back across the C interface.
  - `laws.rs`: properties that relate several operations.
- `app/` — the C functions: pointer handling and the shared cache behind a
  mutex. The vocabulary files are embedded from `app/data/` (`r50k_base`,
  `p50k_base`, `cl100k_base` and `o200k_base`, each with the `.tiktoken`
  extension, as OpenAI publishes them). They are not part of this
  repository: put them there before building `app/`.
- `tests/` — tests of the library.
