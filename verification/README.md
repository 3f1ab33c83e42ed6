# audio_unpack

A verified decoder for the encrypted `.ncm` audio container, with a command-line front end.

- `src/` is the library, verified with Verus. The container's header is read by a state
  machine (`header`) that asks for one field at a time; the core key becomes a key box
  (`keybox`), the metadata chunk becomes JSON text (`container`), and the JSON text is parsed
  (with `serde_json`, behind a trusted wrapper) and read into the song's metadata (`metadata`). The audio is decrypted buffer by buffer with the key
  box's keystream, each byte by its position in the stream (`decoder`); the tag edits are
  planned from the metadata (`output`). AES-128-ECB and Base64 come from the `aes`, `ecb` and `base64`
  crates behind trusted wrappers (`crypto`).
- `app/` is the program: argument parsing, directory walking, file reading and writing, tag
  writing with `id3` and `metaflac`, and parallelism with `rayon`.
- `tests/` runs the library on concrete containers, metadata and names.

Usage: `audio-unpack-cli <INPUT_DIR> <OUTPUT_DIR> [--overwrite] [--strict-metadata] [--verbose] [--jobs N]`.
