# ecbx

The source-fact type layer for ECB (European Central Bank) data, verified
with Verus: the seven data types, the SDMX identity shape
`dataflow + DSD + dimension key`, observations with named missing values,
offline conversion of synthetic documents into observations, and a
fail-closed authorization decision.

Layout:

- `src/` — the verified library.
  - `error.rs` — error kinds and the error type.
  - `text.rs` — white space, trimming, decimal rendering, appends.
  - `value/` — dates, periods and frequencies, series identities,
    observations.
  - `parse.rs` — a decoded document to observations; JSON decoding errors.
  - `authz.rs`, `pit.rs` — the authorization decision and publication
    semantics.
- `tests/` — tests run against the compiled library.
- `app/` — decoding JSON text with serde and rendering errors with
  thiserror, around the library.

Not done here: network collection, authentication, caching, storage, unit
conversion, derived indicators.
