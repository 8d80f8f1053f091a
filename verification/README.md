# rllm

A library for serving large language models: scheduling, sampling, quantization,
checkpoint loading and an OpenAI-compatible protocol. Its logic is verified with
[Verus](https://github.com/verus-lang/verus): what each function returns or changes is
stated in its contract and proved.

- `src/scheduler` – the request queue and the scheduler that divides the token budget of a
  step among requests and drives the key/value cache. `laws.rs` states what every step keeps.
- `src/sampling` – masks and filters on logits, greedy and drawn choice of tokens, beam
  search, drafts for speculative decoding, constrained decoding.
- `src/model` – configurations of model families, checkpoints and their shards, the tensors
  that each layer claims, paged attention plans, GPTQ packing and export.
- `src/quant` – quantization schemas, packed formats and the factories for linear layers.
- `src/server` – requests, responses, tool calls, authentication and settings of the server.
- `src/tensor` – shapes, strides, devices and host buffers.
- `tests` – tests of the library.
- `app` – what surrounds the library: tensors and floating point, files, the model hub, the
  command line and the servers.

Floating-point numbers stand in `src` as the bits of their IEEE 754 form (`float_bits.rs`),
which is enough to compare them, to mask them and to hand them on. Arithmetic on them is
done in `app`.

Functions of outside crates are called behind small wrappers marked
`#[verifier::external_body]`; the doc comment of each names the function and says what is
taken on trust: `serde_json` (`json.rs`), `indexmap` (`scheduler/policy.rs`), `safetensors`
(`model/shards.rs`), `subtle` (`server/auth.rs`) and `uuid` (`server/openai.rs`).
