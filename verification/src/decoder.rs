//! A container whose header has been read: its key box, metadata and cover, the decryption of
//! its audio, and what becomes of a failure to write tags.

use vstd::prelude::*;
use vstd::string::*;

use crate::header::{HeaderReader, HeaderStep};
use crate::keybox::{apply_keystream, apply_keystream_in_place, is_byte_permutation};
use crate::metadata::Metadata;
use crate::text::texts;

verus! {

/// The text of a failure to write tags, given the text of the underlying error.
pub open spec fn tag_failure_message(err: Seq<char>) -> Seq<char> {
    "failed to write metadata: "@ + err
}

/// A container ready to have its audio decrypted.
#[derive(Debug)]
pub struct NcmDecoder {
    key_box: Vec<u8>,
    metadata: Metadata,
    cover: Vec<u8>,
    metadata_warnings: Vec<String>,
    position: usize,
}

impl NcmDecoder {
    /// The key box holds each byte value once, and the stream position is kept modulo 256.
    #[verifier::type_invariant]
    closed spec fn well_formed(self) -> bool {
        &&& is_byte_permutation(self.key_box@)
        &&& self.position < 256
    }

    /// The position in the audio stream of the next byte to decrypt, modulo 256 (the period of
    /// the keystream).
    pub closed spec fn stream_phase(&self) -> nat {
        self.position as nat
    }

    /// The key box that drives the keystream.
    pub closed spec fn key_box_bytes(&self) -> Seq<u8> {
        self.key_box@
    }

    /// The cover image.
    pub closed spec fn cover_bytes(&self) -> Seq<u8> {
        self.cover@
    }

    /// The warnings that reading the metadata gave.
    pub closed spec fn warning_texts(&self) -> Seq<Seq<char>> {
        texts(self.metadata_warnings@)
    }

    /// The metadata.
    pub closed spec fn metadata_value(&self) -> Metadata {
        self.metadata
    }

    /// A decoder for the container whose header `header` has read, with the metadata read from
    /// its JSON text and the warnings that reading gave.
    pub fn new(header: HeaderReader, metadata: Metadata, metadata_warnings: Vec<String>) -> (d:
        NcmDecoder)
        requires
            header@.step == HeaderStep::Done,
        ensures
            d.key_box_bytes() == header@.key_box,
            is_byte_permutation(d.key_box_bytes()),
            d.stream_phase() == 0,
            d.cover_bytes() == header@.cover,
            d.metadata_value() == metadata,
            d.warning_texts() == texts(metadata_warnings@),
    {
        let (key_box, cover) = header.into_parts();
        NcmDecoder { key_box, metadata, cover, metadata_warnings, position: 0 }
    }

    /// The metadata.
    pub fn metadata(&self) -> (m: &Metadata)
        ensures
            *m == self.metadata_value(),
    {
        &self.metadata
    }

    /// The cover image.
    pub fn cover(&self) -> (c: &[u8])
        ensures
            c@ == self.cover_bytes(),
    {
        self.cover.as_slice()
    }

    /// Decrypts in place the next buffer of the audio stream: each byte is XORed with the
    /// keystream byte of its position in the stream, which then moves past the buffer.
    pub fn decrypt_buffer(&mut self, buf: &mut Vec<u8>)
        ensures
            final(buf)@ == apply_keystream(
                old(self).key_box_bytes(),
                old(self).stream_phase() as int,
                old(buf)@,
            ),
            final(self).stream_phase() == (old(self).stream_phase() + old(buf)@.len()) % 256,
            final(self).key_box_bytes() == old(self).key_box_bytes(),
            final(self).cover_bytes() == old(self).cover_bytes(),
            final(self).metadata_value() == old(self).metadata_value(),
            final(self).warning_texts() == old(self).warning_texts(),
    {
        proof {
            use_type_invariant(&*self);
        }
        apply_keystream_in_place(&self.key_box, self.position, buf);
        let phase = (self.position % 256 + buf.len() % 256) % 256;
        proof {
            vstd::arithmetic::div_mod::lemma_add_mod_noop(self.position as int, buf@.len() as int, 256);
        }
        self.position = phase;
    }

    /// The outcome once the audio has been written: the warnings of the metadata, and, where
    /// the tags could not be written (`tag_failure` holds the reason), an error under strict
    /// metadata handling or else one more warning.
    pub fn finish(self, tag_failure: Option<String>, strict_metadata: bool) -> (r: Result<
        Vec<String>,
        String,
    >)
        ensures
            match tag_failure {
                None => r is Ok && texts(r->Ok_0@) == self.warning_texts(),
                Some(err) => if strict_metadata {
                    r is Err && r->Err_0@ == tag_failure_message(err@)
                } else {
                    r is Ok && texts(r->Ok_0@) == self.warning_texts().push(
                        tag_failure_message(err@),
                    )
                },
            },
    {
        let NcmDecoder { metadata_warnings, .. } = self;
        let mut warnings = metadata_warnings;
        match tag_failure {
            None => Ok(warnings),
            Some(err) => {
                let message = String::from_str("failed to write metadata: ").concat(err.as_str());
                if strict_metadata {
                    return Err(message);
                }
                let ghost before = warnings@;
                warnings.push(message);
                assert(texts(warnings@) == texts(before).push(message@));
                Ok(warnings)
            },
        }
    }
}

} // verus!
