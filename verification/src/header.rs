//! Reading a container's header field by field, as a state machine: the caller reads the number
//! of bytes that the reader asks for and feeds them in, until the audio begins.

use vstd::prelude::*;

use crate::container::{
    chunk_length, core_key_box, core_key_box_spec, le_u32, metadata_error_detail, metadata_json_spec,
    metadata_json_text, MAGIC,
};
use crate::error::{ErrorKind, UnpackError};
use crate::keybox::is_byte_permutation;

verus! {

/// The field of the header that is read next.
#[derive(Clone, Copy, Debug, PartialEq, Eq, Structural)]
pub enum HeaderStep {
    /// The 8 magic bytes.
    Magic,
    /// 2 bytes that are skipped.
    MagicGap,
    /// The 4-byte length of the core key chunk.
    CoreKeyLength,
    /// The core key chunk.
    CoreKey,
    /// The 4-byte length of the metadata chunk.
    MetadataLength,
    /// The metadata chunk.
    Metadata,
    /// 9 bytes that are skipped.
    CoverGap,
    /// The 4-byte length of the cover chunk.
    CoverLength,
    /// The cover image.
    Cover,
    /// The header has been read; the audio follows.
    Done,
}

/// The position of a step in the order in which the fields follow each other.
pub open spec fn step_rank(step: HeaderStep) -> nat {
    match step {
        HeaderStep::Magic => 0,
        HeaderStep::MagicGap => 1,
        HeaderStep::CoreKeyLength => 2,
        HeaderStep::CoreKey => 3,
        HeaderStep::MetadataLength => 4,
        HeaderStep::Metadata => 5,
        HeaderStep::CoverGap => 6,
        HeaderStep::CoverLength => 7,
        HeaderStep::Cover => 8,
        HeaderStep::Done => 9,
    }
}

/// What a header reader knows: the next field, the length announced for the chunk that is read
/// next, the key box, the JSON text of the metadata and the cover image read so far (empty until
/// their fields have been read).
pub struct HeaderState {
    pub step: HeaderStep,
    pub announced: nat,
    pub key_box: Seq<u8>,
    pub metadata_json: Seq<u8>,
    pub cover: Seq<u8>,
}

/// The state before any byte has been read.
pub open spec fn initial_state() -> HeaderState {
    HeaderState {
        step: HeaderStep::Magic,
        announced: 0,
        key_box: Seq::empty(),
        metadata_json: Seq::empty(),
        cover: Seq::empty(),
    }
}

/// How many bytes the field `step` takes, or `None` once the header is read.
pub open spec fn request_len(s: HeaderState) -> Option<nat> {
    match s.step {
        HeaderStep::Magic => Some(8),
        HeaderStep::MagicGap => Some(2),
        HeaderStep::CoreKeyLength => Some(4),
        HeaderStep::CoreKey => Some(s.announced),
        HeaderStep::MetadataLength => Some(4),
        HeaderStep::Metadata => Some(s.announced),
        HeaderStep::CoverGap => Some(9),
        HeaderStep::CoverLength => Some(4),
        HeaderStep::Cover => Some(s.announced),
        HeaderStep::Done => None,
    }
}

/// The state after the bytes of the next field have been read, or the failure they cause.
pub open spec fn feed_spec(s: HeaderState, bytes: Seq<u8>) -> Result<HeaderState, ErrorKind> {
    match s.step {
        HeaderStep::Magic => if bytes == MAGIC@ {
            Ok(HeaderState { step: HeaderStep::MagicGap, ..s })
        } else {
            Err(ErrorKind::InvalidContainer)
        },
        HeaderStep::MagicGap => Ok(HeaderState { step: HeaderStep::CoreKeyLength, ..s }),
        HeaderStep::CoreKeyLength => Ok(
            HeaderState { step: HeaderStep::CoreKey, announced: le_u32(bytes), ..s },
        ),
        HeaderStep::CoreKey => match core_key_box_spec(bytes) {
            Ok(kb) => Ok(HeaderState { step: HeaderStep::MetadataLength, key_box: kb, ..s }),
            Err(kind) => Err(kind),
        },
        HeaderStep::MetadataLength => Ok(
            HeaderState { step: HeaderStep::Metadata, announced: le_u32(bytes), ..s },
        ),
        HeaderStep::Metadata => match metadata_json_spec(bytes) {
            Ok(json) => Ok(HeaderState { step: HeaderStep::CoverGap, metadata_json: json, ..s }),
            Err(kind) => Err(kind),
        },
        HeaderStep::CoverGap => Ok(HeaderState { step: HeaderStep::CoverLength, ..s }),
        HeaderStep::CoverLength => Ok(
            HeaderState { step: HeaderStep::Cover, announced: le_u32(bytes), ..s },
        ),
        HeaderStep::Cover => Ok(HeaderState { step: HeaderStep::Done, cover: bytes, ..s }),
        HeaderStep::Done => Ok(s),
    }
}

/// The detail of a failure to take the bytes of the next field: that of the metadata chunk, or
/// nothing.
pub open spec fn feed_error_detail(s: HeaderState, bytes: Seq<u8>) -> Seq<char> {
    if s.step == HeaderStep::Metadata {
        metadata_error_detail(bytes)
    } else {
        Seq::empty()
    }
}

/// Reads a container's header: it asks for the bytes of one field at a time and checks, decrypts
/// and keeps what they hold.
#[derive(Debug)]
pub struct HeaderReader {
    step: HeaderStep,
    announced: usize,
    key_box: Vec<u8>,
    metadata_json: Vec<u8>,
    cover: Vec<u8>,
}

impl View for HeaderReader {
    type V = HeaderState;

    closed spec fn view(&self) -> HeaderState {
        HeaderState {
            step: self.step,
            announced: self.announced as nat,
            key_box: self.key_box@,
            metadata_json: self.metadata_json@,
            cover: self.cover@,
        }
    }
}

impl HeaderReader {
    /// Past the core key, the key box holds each byte value once.
    #[verifier::type_invariant]
    closed spec fn key_box_ready(self) -> bool {
        step_rank(self.step) > step_rank(HeaderStep::CoreKey) ==> is_byte_permutation(
            self.key_box@,
        )
    }

    /// A reader at the start of a container.
    pub fn new() -> (r: HeaderReader)
        ensures
            r@ == initial_state(),
    {
        HeaderReader {
            step: HeaderStep::Magic,
            announced: 0,
            key_box: Vec::new(),
            metadata_json: Vec::new(),
            cover: Vec::new(),
        }
    }

    /// The field that is read next.
    pub fn step(&self) -> (step: HeaderStep)
        ensures
            step == self@.step,
    {
        self.step
    }

    /// How many bytes to read next, or `None` once the header is read.
    pub fn request(&self) -> (n: Option<usize>)
        ensures
            match n {
                Some(k) => request_len(self@) == Some(k as nat),
                None => request_len(self@) is None,
            },
    {
        match self.step {
            HeaderStep::Magic => Some(8),
            HeaderStep::MagicGap => Some(2),
            HeaderStep::CoreKeyLength => Some(4),
            HeaderStep::CoreKey => Some(self.announced),
            HeaderStep::MetadataLength => Some(4),
            HeaderStep::Metadata => Some(self.announced),
            HeaderStep::CoverGap => Some(9),
            HeaderStep::CoverLength => Some(4),
            HeaderStep::Cover => Some(self.announced),
            HeaderStep::Done => None,
        }
    }

    /// The JSON text of the metadata (empty until the metadata chunk has been read).
    pub fn metadata_json(&self) -> (json: &[u8])
        ensures
            json@ == self@.metadata_json,
    {
        self.metadata_json.as_slice()
    }

    /// The cover image (empty until the cover chunk has been read).
    pub fn cover(&self) -> (cover: &[u8])
        ensures
            cover@ == self@.cover,
    {
        self.cover.as_slice()
    }

    /// Takes the bytes of the next field.
    pub fn feed(self, bytes: &[u8]) -> (r: Result<HeaderReader, UnpackError>)
        requires
            request_len(self@) == Some(bytes@.len()),
        ensures
            match r {
                Ok(next) => feed_spec(self@, bytes@) == Ok::<HeaderState, ErrorKind>(next@),
                Err(e) => {
                    &&& feed_spec(self@, bytes@) == Err::<HeaderState, ErrorKind>(e.kind)
                    &&& e.detail@ == feed_error_detail(self@, bytes@)
                },
            },
    {
        proof {
            use_type_invariant(&self);
        }
        let HeaderReader { step, announced, key_box, metadata_json, cover } = self;
        match step {
            HeaderStep::Magic => {
                let ok = bytes[0] == MAGIC[0] && bytes[1] == MAGIC[1] && bytes[2] == MAGIC[2]
                    && bytes[3] == MAGIC[3] && bytes[4] == MAGIC[4] && bytes[5] == MAGIC[5]
                    && bytes[6] == MAGIC[6] && bytes[7] == MAGIC[7];
                assert(ok <==> bytes@ == MAGIC@) by {
                    if ok {
                        assert(bytes@ =~= MAGIC@);
                    }
                }
                if !ok {
                    return Err(UnpackError::new(ErrorKind::InvalidContainer));
                }
                Ok(HeaderReader { step: HeaderStep::MagicGap, announced, key_box, metadata_json, cover })
            },
            HeaderStep::MagicGap => Ok(
                HeaderReader { step: HeaderStep::CoreKeyLength, announced, key_box, metadata_json, cover },
            ),
            HeaderStep::CoreKeyLength => Ok(
                HeaderReader {
                    step: HeaderStep::CoreKey,
                    announced: chunk_length(bytes),
                    key_box,
                    metadata_json,
                    cover,
                },
            ),
            HeaderStep::CoreKey => {
                let kb = core_key_box(bytes)?;
                Ok(HeaderReader { step: HeaderStep::MetadataLength, announced, key_box: kb, metadata_json, cover })
            },
            HeaderStep::MetadataLength => Ok(
                HeaderReader {
                    step: HeaderStep::Metadata,
                    announced: chunk_length(bytes),
                    key_box,
                    metadata_json,
                    cover,
                },
            ),
            HeaderStep::Metadata => {
                let json = metadata_json_text(bytes)?;
                Ok(HeaderReader { step: HeaderStep::CoverGap, announced, key_box, metadata_json: json, cover })
            },
            HeaderStep::CoverGap => Ok(
                HeaderReader { step: HeaderStep::CoverLength, announced, key_box, metadata_json, cover },
            ),
            HeaderStep::CoverLength => Ok(
                HeaderReader {
                    step: HeaderStep::Cover,
                    announced: chunk_length(bytes),
                    key_box,
                    metadata_json,
                    cover,
                },
            ),
            HeaderStep::Cover => Ok(
                HeaderReader {
                    step: HeaderStep::Done,
                    announced,
                    key_box,
                    metadata_json,
                    cover: vstd::slice::slice_to_vec(bytes),
                },
            ),
            HeaderStep::Done => Ok(HeaderReader { step, announced, key_box, metadata_json, cover }),
        }
    }

    /// The key box and the cover image of a header that has been read.
    pub fn into_parts(self) -> (parts: (Vec<u8>, Vec<u8>))
        requires
            self@.step == HeaderStep::Done,
        ensures
            parts.0@ == self@.key_box,
            is_byte_permutation(parts.0@),
            parts.1@ == self@.cover,
    {
        proof {
            use_type_invariant(&self);
        }
        let HeaderReader { key_box, cover, .. } = self;
        (key_box, cover)
    }
}

/// The four little-endian bytes of a length below 2^32.
pub open spec fn u32_le_bytes(n: nat) -> Seq<u8> {
    let n1 = n / 256;
    let n2 = n1 / 256;
    let n3 = n2 / 256;
    seq![(n % 256) as u8, (n1 % 256) as u8, (n2 % 256) as u8, (n3 % 256) as u8]
}

/// Reading back the four little-endian bytes of a length gives the length.
pub proof fn lemma_u32_le_roundtrip(n: nat)
    requires
        n < 0x1_0000_0000,
    ensures
        u32_le_bytes(n).len() == 4,
        le_u32(u32_le_bytes(n)) == n,
{
    let n1 = n / 256;
    let n2 = n1 / 256;
    let n3 = n2 / 256;
    vstd::arithmetic::div_mod::lemma_fundamental_div_mod(n as int, 256);
    vstd::arithmetic::div_mod::lemma_fundamental_div_mod(n1 as int, 256);
    vstd::arithmetic::div_mod::lemma_fundamental_div_mod(n2 as int, 256);
    vstd::arithmetic::div_mod::lemma_fundamental_div_mod(n3 as int, 256);
    assert(n3 < 256);
    vstd::arithmetic::div_mod::lemma_small_mod(n3, 256);
}

/// The fields of a container, in order: magic, a 2-byte gap, the core key chunk and the metadata
/// chunk and the cover chunk each after its length, and a 9-byte gap before the cover's length.
pub open spec fn container_fields(
    magic: Seq<u8>,
    gap: Seq<u8>,
    core: Seq<u8>,
    meta: Seq<u8>,
    cover_gap: Seq<u8>,
    cover: Seq<u8>,
) -> Seq<Seq<u8>> {
    seq![
        magic,
        gap,
        u32_le_bytes(core.len()),
        core,
        u32_le_bytes(meta.len()),
        meta,
        cover_gap,
        u32_le_bytes(cover.len()),
        cover,
    ]
}

/// Feeding `fields` one after the other, from state `s`: `None` where a field's length is not
/// the one the reader asks for, else the final state or the first failure.
pub open spec fn run_reader(s: HeaderState, fields: Seq<Seq<u8>>) -> Option<
    Result<HeaderState, ErrorKind>,
>
    decreases fields.len(),
{
    if fields.len() == 0 {
        Some(Ok(s))
    } else if request_len(s) != Some(fields[0].len()) {
        None
    } else {
        match feed_spec(s, fields[0]) {
            Ok(t) => run_reader(t, fields.drop_first()),
            Err(kind) => Some(Err(kind)),
        }
    }
}

/// What reading a container gives: the failure of its magic, core key or metadata, in that
/// order, or else the finished header with the key box, the metadata's JSON text and the cover.
pub open spec fn container_outcome(magic: Seq<u8>, core: Seq<u8>, meta: Seq<u8>, cover: Seq<u8>) -> Result<
    HeaderState,
    ErrorKind,
> {
    if magic != MAGIC@ {
        Err(ErrorKind::InvalidContainer)
    } else {
        match core_key_box_spec(core) {
            Err(kind) => Err(kind),
            Ok(kb) => match metadata_json_spec(meta) {
                Err(kind) => Err(kind),
                Ok(json) => Ok(
                    HeaderState {
                        step: HeaderStep::Done,
                        announced: cover.len(),
                        key_box: kb,
                        metadata_json: json,
                        cover,
                    },
                ),
            },
        }
    }
}

/// A reader fed the fields of a container, each as long as it asks for, ends with the key box,
/// the metadata text and the cover that the container holds, or with the first failure among
/// its magic, core key and metadata.
pub proof fn lemma_reads_container(
    magic: Seq<u8>,
    gap: Seq<u8>,
    core: Seq<u8>,
    meta: Seq<u8>,
    cover_gap: Seq<u8>,
    cover: Seq<u8>,
)
    requires
        magic.len() == 8,
        gap.len() == 2,
        cover_gap.len() == 9,
        core.len() < 0x1_0000_0000,
        meta.len() < 0x1_0000_0000,
        cover.len() < 0x1_0000_0000,
    ensures
        run_reader(initial_state(), container_fields(magic, gap, core, meta, cover_gap, cover))
            == Some(container_outcome(magic, core, meta, cover)),
{
    lemma_u32_le_roundtrip(core.len());
    lemma_u32_le_roundtrip(meta.len());
    lemma_u32_le_roundtrip(cover.len());
    let f = container_fields(magic, gap, core, meta, cover_gap, cover);
    let s0 = initial_state();
    if magic != MAGIC@ {
        assert(run_reader(s0, f) == Some(Err::<HeaderState, ErrorKind>(ErrorKind::InvalidContainer)));
        return;
    }
    let s1 = HeaderState { step: HeaderStep::MagicGap, ..s0 };
    let s2 = HeaderState { step: HeaderStep::CoreKeyLength, ..s1 };
    let s3 = HeaderState { step: HeaderStep::CoreKey, announced: core.len(), ..s2 };
    let f1 = f.drop_first();
    let f2 = f1.drop_first();
    let f3 = f2.drop_first();
    assert(f[0] == magic);
    assert(f1[0] == gap);
    assert(f2[0] == u32_le_bytes(core.len()));
    assert(run_reader(s0, f) == run_reader(s1, f1));
    assert(run_reader(s1, f1) == run_reader(s2, f2));
    assert(feed_spec(s2, f2[0]) == Ok::<HeaderState, ErrorKind>(s3));
    assert(run_reader(s2, f2) == run_reader(s3, f3));
    match core_key_box_spec(core) {
        Err(kind) => {
            assert(f3[0] == core);
        },
        Ok(kb) => {
            let s4 = HeaderState { step: HeaderStep::MetadataLength, key_box: kb, ..s3 };
            let s5 = HeaderState { step: HeaderStep::Metadata, announced: meta.len(), ..s4 };
            let f4 = f3.drop_first();
            let f5 = f4.drop_first();
            assert(f3[0] == core);
            assert(f4[0] == u32_le_bytes(meta.len()));
            assert(run_reader(s3, f3) == run_reader(s4, f4));
            assert(feed_spec(s4, f4[0]) == Ok::<HeaderState, ErrorKind>(s5));
            assert(run_reader(s4, f4) == run_reader(s5, f5));
            match metadata_json_spec(meta) {
                Err(kind) => {
                    assert(f5[0] == meta);
                },
                Ok(json) => {
                    let s6 = HeaderState { step: HeaderStep::CoverGap, metadata_json: json, ..s5 };
                    let s7 = HeaderState { step: HeaderStep::CoverLength, ..s6 };
                    let s8 = HeaderState { step: HeaderStep::Cover, announced: cover.len(), ..s7 };
                    let s9 = HeaderState { step: HeaderStep::Done, cover: cover, ..s8 };
                    let f6 = f5.drop_first();
                    let f7 = f6.drop_first();
                    let f8 = f7.drop_first();
                    let f9 = f8.drop_first();
                    assert(f5[0] == meta);
                    assert(f6[0] == cover_gap);
                    assert(f7[0] == u32_le_bytes(cover.len()));
                    assert(f8[0] == cover);
                    assert(f9.len() == 0);
                    assert(feed_spec(s7, f7[0]) == Ok::<HeaderState, ErrorKind>(s8));
                    assert(run_reader(s8, f8) == run_reader(s9, f9));
                    assert(run_reader(s7, f7) == run_reader(s8, f8));
                    assert(run_reader(s6, f6) == run_reader(s7, f7));
                    assert(run_reader(s5, f5) == run_reader(s6, f6));
                },
            }
        },
    }
}

} // verus!
