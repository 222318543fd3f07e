# h3server

Tools to study what Android apps leak over HTTP/2 and HTTP/3: proxies that
capture an app's requests, exports of the captured flows, and an analysis
that searches the flows (and the plaintexts of the app's cipher calls) for
known device information.

- `src/` is the library, written and proved with Verus: the event and flow
  models, the search for leak items (in raw, lowercased, hashed, base64 and
  unpacked forms), the pairing of cipher calls, the grouping of flows into
  connections, the comparison of runs, and the HTTP/2 versus HTTP/3 report.
  `src/external.rs` holds the trusted contracts of the outside calls
  (base64, flate2, zip, zstd, brotli, the digests, serde_json, http);
  `src/laws.rs` holds the properties that span several functions.
  Which chunks are unpacked (as gzip, zip or zstd) depends on the MIME type
  that `tree_magic_mini` detects from the machine's MIME database; the
  proofs hold for every outcome of that detection and do not say which
  chunks are unpacked, so two searches of one chunk may differ there.
- `tests/` runs the library on concrete values.
- `app/` is the program around it: the proxies (tokio, hyper, h3, quinn,
  rustls), MongoDB access, file I/O, and the serde, CSV and protobuf forms of
  the library's types. Run `h3server` without arguments for its commands.
