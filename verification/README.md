# plist_ffi

Property-list nodes with the semantics of libplist's C API, verified with
Verus.

- `src/model.rs` — the mathematical model: `ValueView`, and ordered
  dictionaries as entry sequences with insert (in place or appended),
  swap-remove and extend.
- `src/plist_index.rs` — the trusted boundary: a `plist::Dictionary` keeps
  each dictionary's key order; its values are `Uid`s naming value slots.
- `src/value.rs` — `PlistValue`, `PlistDict` (with its well-formedness
  invariant), `PlistInteger`, and deep copies.
- `src/number.rs` — decimal/hexadecimal integer syntax, little-endian byte
  strings, and `true`/`false` in any ASCII case.
- `src/creation.rs`, `src/dict.rs`, `src/getters.rs` — the operations of the
  C API on library values.
- `src/laws.rs` — properties across operations (read after write, removal,
  sizes, key order, merge, copy, readings).
- `app/lib.rs` — the `extern "C"` surface: handles, C strings and
  out-parameters.
