# concurrency

A small library of concurrency exercises, verified with Verus.

- `src/lib.rs`: `add` and `greet`.
- `src/vector.rs`: `Vector` and `dot_product`, with the overflow condition
  `dot_product_fits` and the symmetry of the dot product.
- `src/matrix.rs`: `Matrix`, its product `multiply` (computed sequentially
  and proved element by element), and its text forms.
- `src/metrics/`: named counters. `Counters` keeps counts in ascending order
  of their names; `LockedMetrics` shares one `Counters` behind a lock;
  `ShardedMetrics` spreads them over sixteen locked shards chosen by the hash
  of the name; `AtomicMetrics` keeps one atomic counter per registered name.
- `src/text.rs`: white space, decimal text of integers, joining, and the
  code-point order of texts.
- `app/lib.rs`: the matrix product with its dot products handed out to worker
  threads over channels.
