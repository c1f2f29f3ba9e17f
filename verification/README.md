# thunder

In-network post retrieval with verified contracts.

- `src/post_store.rs` — the post store: per-author deques of original posts,
  replies and retweets, and videos, held in `dashmap` maps, with tombstones for
  deleted posts; insertion, deletion, retrieval, trimming, sorting and the
  initial-load finalization.
- `src/store_spec.rs` — the store as values, and what each operation does to it.
- `src/service.rs` — turning an in-network request into a store query and keeping
  the most recent posts; figures of served posts.
- `src/ranking_scorer.rs` — the integer decisions of the ranking stage: the
  out-of-network factor and each candidate's position in its author's decay.
- `src/laws.rs` — properties over all inputs (deleted posts are never served, a
  written post is read back, repeated posts are stored once, a second trim pops
  nothing, the most recent posts agree with a full sort, ...).
- `src/store_laws.rs` — what every store operation keeps: each deque ordered
  oldest first, each post in the map of its kind, each video deque mirroring its
  author's original posts with a video.
- `src/concurrent_map.rs`, `src/sorting.rs`, `src/clock.rs` — the calls into
  `dashmap` and std that the proofs rely on, each with the contract it is trusted for.
- `app/` — the shared store with its background tasks, the request handler, and
  the floating-point scoring.
