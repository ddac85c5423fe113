# recall

Vector memory over [Qdrant](https://qdrant.tech) with a local ONNX embedder, with its logic
verified by Verus.

- `item` — a memory `Item { namespace, kind, key, text, ts_unix_ms, private, meta }`, the
  payload that carries it and the reading back of it. Its id (`point_id`) is a UUIDv5 over
  namespace, kind and key, so re-ingesting is idempotent and an id can be re-derived by hand.
- `filter` — what a search asks for, and what a retention prune may delete.
- `store` — the requests of each operation and what their answers mean. Nothing in the library
  talks to the network: an operation is a function from what is asked to a request, and from an
  answer to an outcome or to the next request. `request` says when a request is sent again,
  `reading` what an answer holds, `error` what is said of a failure.
- `collection` — what those requests do to a collection, and the laws that hold across several
  of them: an upsert twice is an upsert once, a prune spares what was recalled, what is counted
  is what is deleted, a replacement never leaves neither, a scroll reads the newest first, a
  search finds only what its query admits. They hold of a service that reads the requests as
  this module says.
- `embed`, `onnx`, `ollama` — what an embedder is given and what is made of its output.
- `json`, `text` — JSON documents and texts as plain values.

`app/` holds what needs the outside world: the HTTP clients, the ONNX session, the tokenizer,
serde and floating-point numbers. `tests/` runs the library, whole operations against a
collection in memory among them.

Built with `--cfg 'feature="cuda"'`, `app/` runs the model on the first CUDA device.

What is believed without proof is in `src/point_id.rs`: three calls of the `uuid` crate.
