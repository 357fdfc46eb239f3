# riff

A verified reader for RIFF containers such as WAV files.

- `src/bytes.rs` — little-endian integers, four-byte tags, UTF-8 text.
- `src/errors.rs` — `ChunkError` and the lifting of decoder outcomes to models.
- `src/fmt.rs` — the `fmt ` chunk (PCM and extensible formats).
- `src/info.rs` — the entries of an `INFO` list.
- `src/chunk.rs` — a single chunk and the `LIST` chunk.
- `src/riff.rs` — the outer `RIFF` chunk and the chunk sequence.
- `src/samples.rs` — 16-bit samples of the `data` chunks.
- `src/laws.rs` — properties across decoders: chunks tile the stream on even offsets, the
  first failing chunk decides the error, appending a chunk appends it, `LIST`/`fmt ` chunks
  wrap their decoders, and concatenated `INFO` bodies merge with later entries winning.
- `app/main.rs` — reads a file, prints its chunks and plots the samples.

Every decoder comes in two forms: `decode`, which returns `None` for inputs it does not
handle (a truncated field, an unsupported `fmt ` format code, an unknown `INFO` tag), and
`try_from`, which requires a handled input and returns its `Result`.
