# mhrise_save_converter

Save-container tooling for *Monster Hunter Rise* saves (Nintendo Switch and
Steam), written in Verus: the container formats, the RE Engine class stream,
the schema translation between platforms and the built-in Steam schema are
verified against their specifications.

## Layout

- `src/bytes.rs` — little-endian encoding and its lemmas.
- `src/payload_model.rs` — the model of a class stream and the byte format it
  is written in and read from.
- `src/payload.rs` — the class-stream reader and writer.
- `src/payload_laws.rs` — writing an unambiguous stream and reading it back
  gives the stream again, also with trailing zero padding.
- `src/payload_offsets.rs` — where a stream starts matters only modulo sixteen.
- `src/text.rs` — numbers in messages.
- `src/payload_typing.rs` — every stream that reads back is well typed and
  unambiguous, so it reads back again once rewritten.
- `src/translation.rs`, `src/merge_laws.rs` — merging a source stream onto a
  target template, and what every merge keeps.
- `src/defaults.rs`, `src/defaults_laws.rs` — the built-in Steam schema and
  what it keeps of every source.
- `src/format.rs` — the DSSS header and the closing MurmurHash3 value.
- `src/discover.rs` — which files of a save directory are handled.
- `src/conversion.rs` — unpacking, translating and packing core saves and
  album files, and the checks before a conversion.
- `src/conversion_laws.rs` — the header, flags and layout of every file a
  conversion writes, and what reading it back gives.
- `src/crypto/util.rs` — modular and elliptic-curve arithmetic.
- `src/crypto/curve_laws.rs` — point addition is symmetric modulo a prime, and
  the point at infinity is its identity.
- `app/` — the command-line program: file and directory I/O around the library.

Steam core saves are protected by the Citrus cipher. The library hands
Steam payloads to a `CitrusCipher` supplied by the caller; the built-in
`NoCitrus` refuses them, so without a cipher only Switch core saves and album
files can be converted.

## Usage

```bash
mhrise-save inspect /path/to/save
mhrise-save verify /path/to/save
mhrise-save convert /path/to/switch-save /path/to/new-save --to switch --force
```
