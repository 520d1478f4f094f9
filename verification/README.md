# qwen2api-rs

The verified core of a gateway that serves chat completions from a pool of web
accounts of one upstream.

- `src/account.rs`, `src/pool/`: the account pool. Which account serves a
  request (by an index of ready accounts, or by looking at all of them), what
  each outcome does to an account, and how requests wait.
- `src/upstream/`: requests to the upstream and the meaning of its replies, the
  cutting of its byte stream into messages, and the run of a request over
  several accounts.
- `src/execution/`: from a request to the events for the client. Buffering of
  the answer, resolution of tool calls, delivery and collection.
- `src/toolcalls.rs`: hardening of tool calls. Repeated calls are dropped,
  arguments get their usual names, dangerous paths are found.
- `src/json.rs`, `src/text.rs`, `src/tokens.rs`, `src/heap.rs`,
  `src/email_set.rs`: what the rest is made of.

What holds of several operations together is stated and proved in the modules
named `laws`, `order_laws`, `history_laws`, `balance_laws` and `toolcall_laws`.

Clocks, chance, files, sockets and tasks are in `app/`. Their readings come into
the library as arguments: a time is a number of microseconds since the Unix
epoch, a jitter a number of milliseconds.

The library calls `serde_json`, `tiktoken-rs`, `fancy-regex` (the engine by which
the tokenizer splits a text), `sha2` and `hex`. Each call stands in a small
function whose contract says what is relied on.
