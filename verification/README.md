# stream_utils

Two stream adaptors, with the decisions of every poll verified in Verus:

- **copied multi stream**: one stream copied into several. One item is pulled
  at a time and cloned for every copy; the next item is pulled only once every
  copy has taken its clone.
- **group by**: one stream split into groups by a key function. A new group is
  handed out for each new key, and each item is held until the group of its
  key takes it.

Layout:

- `src/` — the verified library. `copied_multi_stream.rs` and `group_by.rs`
  hold the shared states as state machines: a poll starts with a decision
  (answer, wait, or poll the inner stream) and, when the inner stream was
  polled, finishes with what its answer leads to. The contracts are relations
  over the states' views. The laws are proof functions: for the copies in
  `copied_multi_stream.rs` (each item reaches every copy, in order; the end is
  final), for the groups in `group_by_laws.rs` (one group per key, items reach
  the group of their key in order, one item at a time), the latter for keys
  whose `==` is a specified equivalence. `poll.rs` holds the answer types and
  the waker slots.
- `app/` — the `Stream` adaptors themselves (`CopiedMultiStream`, `GroupBy`,
  `Group`, `StreamUtils`), built on `futures-util`: they keep a state behind
  `Arc<Mutex<..>>`, poll the inner stream when the state asks, and wake the
  wakers the state returns.
- `tests/` — the state machines driven by ordinary iterators.
