# bincode_next

A binary encoder/decoder with a zero-fluff format (bincode, with variable- or fixed-width
integers in either byte order) and a CBOR format, verified with Verus.

The encoding and decoding functions state, over mathematical models, the bytes they write or the
value, byte count and error they read. Where an encoding is refused, the contracts say that it
fails but not always with which error, and `encode_into_writer`, which takes its writer by
value, does not say what that writer ends up holding. Round trips (decoding what was encoded
gives the value back) are proved as laws for each type the library encodes: integers, `bool`,
`char`, strings, `Option`, `Result`, `Vec`, `VecDeque`, arrays, tuples, `()`, `PhantomData`,
`Box`, `Rc`, `Arc`, ranges, the bounded containers, floats and framed values. Each law is stated
for one type in terms of the law for the types it is made of; a type with an `Encode`/`Decode`
of its own is covered only by what its own implementation proves. The bit writer states what
resuming from any saved state gives, stray bits in the pending byte included.

Layout:

- `src/config.rs` — configurations and the fingerprint guard that frames a value.
- `src/enc/`, `src/de/` — the `Encode`/`Decode`/`BorrowDecode` traits, the encoder and decoder,
  readers and writers, the CBOR primitives, bit-level reader and writer, deterministic ordering.
- `src/varint/`, `src/bytes.rs`, `src/bits.rs` — variable-length integers, byte orders, bit
  sequences.
- `src/features/` — vectors, double-ended queues, smart pointers, arrays and slices, bounded
  containers, static size bounds.
- `src/float_bits.rs` — floats as IEEE 754 bit patterns: the bytes each format writes, CBOR's
  shortest exact form, and the laws that half-precision narrowing is lossless.
- `src/derive_input/` — what the derive macros decide: their attributes, the width of a
  bit-packed variant index, runs of bit-packed fields, `StaticSize` expressions, the code text
  of the `BitPacked` encode and decode bodies for structs and enums, and of the `ZeroCopy`
  builder (byte order, tag type, field types, `build_to_target`).
- `src/fingerprint.rs` — schema fingerprints (hashing is done by the `rapidhash` crate).
- `src/round_trip.rs`, `src/tuple_laws.rs` — the round-trip laws; `src/bit_laws.rs` — runs of bit
  writes and reads.
- `app/` — reading from `std::io::Read` and writing to `std::io::Write`; `f32`/`f64` values
  turned into and out of their bit patterns.
- `tests/` — tests on concrete values.
