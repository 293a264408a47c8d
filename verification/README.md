# tessera_bridge

The decisions the Tessera host bridge makes, as a verified Verus library:
every function in `src/` carries a contract that Verus proves, and the
library's laws (round trips, invariants kept by every operation) are proof
functions beside the code they speak of.

- `src/` — the library. Outside calls (BLAKE3, the `serde_json` writer and
  parser, the `png` encoder and decoder, a few `std` character and path
  functions) stand behind small trusted wrappers whose contracts are
  documented where they are declared.
- `tests/` — executable tests of the library.
- `app/` — host-side glue that cannot be verified: the clock, the host error
  type with its `Display`, the floating-point parts of face clustering,
  export sizing, print binning, smart filter masks and interactive frame
  timing, and the conversion of settings patches to and from `serde_json`.
