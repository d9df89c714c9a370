# probing_web

Verified view models of the probing diagnostics web interface: what each
workspace asks the probing server for, how it reads the answers, and the
text, order and colour in which it shows them.

- `src/` is the library, checked by Verus. Each module holds one page or
  one shared concern (routes and page specifications, evidence receipts and
  bundles, snapshots, the investigation context, text rendering), with the
  contracts of its functions stated over spec functions and views.
  `src/laws.rs` states the properties that hold across functions.
- Measurements that the server reports in floating point are held as
  fixed-point integers at the precision at which the pages print them (see
  `src/api.rs` and `src/evidence.rs`).
- `tests/` runs the library on concrete values.
- `app/` is a small command-line front end and the parts that compute in
  floating point or export JSON.
