# ss7_mtp3

The value types of the SS7 MTP3-User Service Access Point, verified with Verus.

- `src/point_code.rs` — `Variant` (ITU 14-bit `3-8-3`, ANSI/China 24-bit
  `8-8-8`) and `PointCode`: construction from a raw value or from
  components, parsing of the `a-b-c` / decimal text forms, decomposition and
  rendering. A point code's value always fits its variant (a type invariant).
- `src/sap.rs` — `ServiceIndicator`, `NetworkIndicator`, the `Mtp3Msu`
  with its on-wire codec (ITU Q.704 and ANSI/China T1.111 routing labels),
  `Mtp3Event`, `Mtp3Status`, `Mtp3Error`.
- `src/text.rs` — the character-level grammar: field splitting, white-space
  trimming, decimal reading and writing.

Every function's contract is stated over spec functions (`spec_parse`,
`spec_encode`, `spec_decode`, ...), and the round-trip laws are proof
functions: components ⇄ point code, text ⇄ point code, and MSU ⇄ octets in
both directions.

`app/` holds what is not verified: the async `Mtp3UserPart` provider trait,
serde and `std::error::Error` faces of the types, the well-known service
indicator constants, and the PyO3 bindings.
