# pulsar

An inference engine for mixture-of-experts models that do not fit in memory:
the routed experts stay on disk and stream in per token, and everything that
makes decisions stays resident. The decisions are a verified library; the parts
that touch the GPU, the disk and the network are ordinary Rust around it.

## Layout

- `src/` is the library. What each function returns is stated in its contract and
  proved, but for six small ones that call outside code: five in `parse` let
  `serde_json` parse JSON and hand its values over, and one in `reply` asks the
  standard library how much of a text is valid UTF-8. Their contracts say what is
  taken on trust, as do those of two functions of the standard library in `text`.
- `tests/` runs the library on concrete values.
- `app/` is the program: CUDA calls, file and network I/O, floating point.

## The library

| area | modules |
|---|---|
| text in, tokens out | `bytes`, `pretokenize`, `glm4`, `kimi`, `bytemap`, `bpe`, `tokenizer`, `chat` |
| models and weights | `gguf`, `shape`, `loader`, `layer`, `expert`, `vfile`, `quant`, `f16`, `dot` |
| where experts live | `slab_cache`, `store`, `tiers`, `census`, `resolve`, `grouping` |
| what the device runs | `buffers`, `attention`, `graph`, `flow`, `dataflow`, `tier_graph`, `tiered`, `hybrid`, `hybrid_graph`, `hybrid_flow`, `device` |
| decoding | `decode`, `ngram`, `rng`, `settings`, `prof` |
| serving | `http`, `parse`, `json`, `request`, `messages`, `reply`, `answer`, `toolcall`, `args` |
| plumbing | `le`, `lines`, `order`, `search`, `text` |

Some of what is proved:

- Decoding what was encoded gives the text back, for every tokenizer whose
  vocabulary covers all bytes.
- A speculative decode emits what a greedy decode would.
- No kernel launch of a layer leaves its buffers, none reads a buffer that the
  step has not filled, and moving attention to a second device changes no value.
- The device cache never evicts a slab that is in use, and admits one only if it
  is hotter than the coldest resident.
- Every routed expert of a batch is found, and computed in exactly one place.
- The spare devices together hold the hottest experts of the census.
- A prefill chunk is the largest whose experts fit a third of the free device
  memory at worst, and no batch of its size ever needs more than that.

## Running

The program is the chat server, or, started as `pulsar-cli`, a tool that decodes
a prompt, chats, or compares runs:

    pulsar-serve -m model.gguf --port 11435
    pulsar-cli -m model.gguf -p "The capital of France is" -n 64
    pulsar-cli -m model.gguf --chat --system "Be terse" --temp 0.7
