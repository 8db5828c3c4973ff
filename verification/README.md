# search_engine

The crawling, chunking and embedding-pipeline logic of a hybrid search engine for computer
science content, written in Verus. The functions in `src/` carry contracts that Verus
proves, except a few small wrappers around the `url`, `scraper`, `regex` and `sha2`
crates and the standard library (the clock, collecting characters into a
`String`): those are marked `#[verifier::external_body]`, their contracts are trusted, and
their doc comments say what they claim of the outside call.

## Layout

- `src/text.rs` — character-level helpers (whitespace, ASCII case, searching, joining,
  trimming, decimal notation) and their specifications.
- `src/chunking/` — sentence splitting, sliding windows, statement chaining, heading
  context, and the chunking of whole pages (`pages.rs`).
- `src/crawler/` — URL canonicalization and the calls into the `url` crate
  (`urlparts.rs`), the crawl policy, robots.txt rules, DNS screening, the per-host crawl
  scheduler, the admission of URLs to the frontier, the decisions around a fetch and a
  parsed page, recrawl recovery and the crawl driver's decisions.
- `src/embeddings/` — model names, query phrasing, response checks, batching, and the
  decisions of the embedding runs (`queue.rs`).
- `src/harvest.rs` — which links of community listings are harvested.
- `src/indexing.rs` — the decisions of vector index builds.
- `src/prune.rs` — pruning of stored pages and its tallies.
- `src/pattern.rs` — regular-expression searches through the `regex` crate.
- `app/` — the I/O around the library: configuration files, the asynchronous scheduler
  driver, HTTP and DNS, the remote embedding server, and floating-point vector code.
- `tests/` — tests of the library on concrete inputs.

Laws that span several functions are stated as public proof functions named `law_*` next to
the functions they are about.

Embeddings are computed by a remote embedding server (`app/remote.rs`); computing them
in-process with a local ONNX model is not part of this crate, because that runtime is not
available to build here.
