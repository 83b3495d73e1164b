# libc_bench

Safe, verified Rust versions of two libc primitives, `strlen` and `memcpy`,
meant to be compared against the system libc and naive C versions.

- `src/strlen.rs`: byte-by-byte and word-at-a-time (SWAR) `strlen`, the
  zero-byte test on a machine word, and the registry of implementations.
- `src/memcpy.rs`: byte-by-byte and word-at-a-time `memcpy`, and the registry.
- `src/word.rs`: machine words read from and written to byte buffers.
- `app/`: the C versions reached through FFI. The library's registries name
  all four versions of each function (libc, naive C, two Rust); `app/` gives
  each entry the function that runs it.

A C pointer is a buffer and an index into it. Each implementation is proved to
return the number of bytes before the first zero byte (`strlen`), or to leave
the destination equal to the old one with the region replaced by the source
bytes (`memcpy`).
