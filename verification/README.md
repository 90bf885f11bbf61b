# sentinel_dbms

The logic of a file-based document store, verified with Verus: JSON documents
and their ordering, filters, queries (sorting, paging, projection), document-ID
validation, the checks of hashes and signatures, a collection's counters and
write-ahead-log replay, and the lock table with its deadlock detector.

- `src/` is the verified library. Each module states its contracts over
  mathematical views (`Seq`, `Map`, spec functions) and proves them.
- `tests/` runs the library on concrete values.
- `app/` is the I/O around it: reading and writing document files with
  `serde_json` and `tokio`, filesystem locks through `fs2`, the event loop of a
  collection, and the floating-point part of aggregations. The cryptography is
  supplied by the caller through the `DocumentCrypto` trait.
