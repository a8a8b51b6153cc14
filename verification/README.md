# cpython_rust_modules

Verified core of two small Rust helper crates of CPython:

- `src/b64.rs`: the `_base64` extension module's encoder. The bytes of a C
  string (up to the first NUL) are encoded with the standard padded Base64
  alphabet of RFC 4648 by the `base64` crate; the library states the encoding
  as a spec function and proves its length, its alphabet (no NUL byte, so the
  result is again a C string), its compatibility with concatenation at group
  boundaries, and its injectivity.
- `src/shell.rs`, `src/link_args.rs`, `src/directives.rs`: the build helper.
  CPython build settings are split into words by the `shlex` crate; the
  library decides which words reach the linker of a Cargo `cdylib` and which
  Cargo directives are printed, with exact contracts over a named result of
  the word splitter.
- `app/`: environment reads, printing, and the C entry points of the
  extension module.
