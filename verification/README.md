# farbfeld

A verified reader and writer for farbfeld images. A farbfeld file is a 16-byte
header (the magic `farbfeld` and two big-endian `u32` dimensions) followed by
four big-endian `u16` samples per pixel, `R, G, B, A`, row by row.

Every operation carries a contract that says exactly what it returns, the text
of each error included, and Verus proves the code against it.

| Module | What it holds |
|--------|---------------|
| `format` | the byte layout as mathematics |
| `parser` | whole files and headers: `parse_farbfeld`, `peek_farbfeld_dimensions` |
| `encoder` | whole files from bytes, pixels or an image |
| `image` | `FarbfeldImage`: pixel, channel and row access, walks from either end |
| `stream` | `FarbfeldStreamReader` and `FarbfeldStreamWriter`, row by row |
| `transport` | the sources and sinks that streams run over |
| `decoder`, `frame_encoder`, `container`, `frame` | pictures and files as a media framework hands them around |
| `laws` | what holds of several operations together: decoding and encoding undo each other, streams and whole files agree, and so on |
| `error`, `text` | errors and their messages |

`app/` puts the traits of `std::io`, of iterators and of `oxideav-core` around
the library. `tests/` runs it.

```rust
let bytes = farbfeld::encode_farbfeld_from_rgba16(1, 1, &[[0xFFFF, 0, 0, 0xFFFF]])?;
let image = farbfeld::parse_farbfeld(&bytes)?;
assert_eq!(image.pixel(0, 0), Some([0xFFFF, 0, 0, 0xFFFF]));
```

The proofs take two constants of `oxideav-core` on trust, the scores of its
container probe. A source or sink that is written outside the library is trusted
to do what its trait says.
