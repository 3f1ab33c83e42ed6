//! Decoding of the encrypted `.ncm` audio container: the header is read field by field, the
//! core key yields the key box, the metadata is decrypted into JSON text and read, and the audio
//! is decrypted with the keystream of the key box.
//!
//! - `header`: the state machine that reads the header, and its framing law;
//! - `container`: the constants of the format, the core key and the metadata text;
//! - `crypto`: AES-128-ECB with PKCS#7 padding and standard Base64, from outside crates;
//! - `keybox`: the key box, the keystream, and their laws;
//! - `metadata`: the JSON model and the reading of the song's metadata;
//! - `decoder`: a container ready to have its audio decrypted;
//! - `output`: input selection, output extension, tag format and tag plan, MIME type, and the
//!   run's tally;
//! - `text`: trimming, comparing and joining text;
//! - `error`: the failures and their messages.

pub mod container;
pub mod crypto;
pub mod decoder;
pub mod error;
pub mod header;
pub mod keybox;
pub mod metadata;
pub mod output;
pub mod text;
