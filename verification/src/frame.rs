//! Complete wire frames: length prefix, fast header, optional hint,
//! metadata and payload, with the frame decoder.

use vstd::prelude::*;

use crate::bytes_be::spec_u32_be;
use crate::bytes_be::spec_u32_from_be;
use crate::bytes_be::u32_to_be_bytes;
use crate::bytes_be::u32_from_be_bytes;
use crate::bytes_be::lemma_u32_be_round_trip;
use crate::errors::WireError;
use crate::header::FastHeader;
use crate::header::spec_fast_header_bytes;
use crate::header::spec_fast_header_decode;
use crate::header::lemma_fast_header_round_trip;
use crate::meta::append_bytes;
use crate::meta::copy_range;
use crate::FAST_HEADER_SIZE;

verus! {

/// Default maximum frame size: 16 MiB.
pub const DEFAULT_MAX_FRAME_SIZE: usize = 16 * 1024 * 1024;

/// Hard maximum frame size: 64 MiB.
pub const HARD_MAX_FRAME_SIZE: usize = 64 * 1024 * 1024;

/// Maximum metadata size: 64 KiB.
pub const MAX_META_SIZE: usize = 64 * 1024;

/// Maximum hint size in bytes.
pub const MAX_HINT_SIZE: usize = 128;

/// A complete wire frame.
#[derive(Debug, Clone, PartialEq, Eq)]
pub struct Frame {
    /// The 48-byte fast header.
    pub fast: FastHeader,
    /// Optional hint bytes; when present, `fast.hdr_hint_len` must hold
    /// their length.
    pub hint: Option<Vec<u8>>,
    /// Metadata as raw canonical CBOR bytes.
    pub meta_raw: Vec<u8>,
    /// Payload, or ciphertext when the frame is end-to-end encrypted.
    pub payload_or_cipher: Vec<u8>,
}

/// The mathematical value of a frame.
pub struct FrameView {
    /// The fast header.
    pub fast: FastHeader,
    /// Optional hint bytes.
    pub hint: Option<Seq<u8>>,
    /// Metadata bytes.
    pub meta_raw: Seq<u8>,
    /// Payload bytes.
    pub payload_or_cipher: Seq<u8>,
}

impl View for Frame {
    type V = FrameView;

    open spec fn view(&self) -> FrameView {
        FrameView {
            fast: self.fast,
            hint: match &self.hint {
                Some(h) => Some(h@),
                None => None,
            },
            meta_raw: self.meta_raw@,
            payload_or_cipher: self.payload_or_cipher@,
        }
    }
}

impl FrameView {
    /// The hint bytes, or empty when there are none.
    pub open spec fn hint_bytes(self) -> Seq<u8> {
        match self.hint {
            Some(h) => h,
            None => Seq::<u8>::empty(),
        }
    }

    /// Total size of the frame when encoded: the length prefix, the fast
    /// header, the hint, the metadata length, metadata and payload.
    pub open spec fn spec_encoded_size(self) -> int {
        4 + FAST_HEADER_SIZE + self.hint_bytes().len() + 4 + self.meta_raw.len()
            + self.payload_or_cipher.len()
    }

    /// The frame is fit for encoding so that decoding restores it: valid
    /// header, hint length recorded in the header (absent hints have
    /// length zero), and metadata within its limit.
    pub open spec fn wf(self) -> bool {
        &&& self.fast.wf()
        &&& match self.hint {
            Some(h) => self.fast.hdr_hint_len == h.len() && h.len() > 0,
            None => self.fast.hdr_hint_len == 0,
        }
        &&& self.meta_raw.len() <= MAX_META_SIZE
    }
}

/// The encoded bytes of a frame: a 32-bit length prefix holding everything
/// that follows it, then header, hint, metadata length, metadata, payload.
pub open spec fn spec_frame_bytes(f: FrameView) -> Seq<u8> {
    spec_u32_be((f.spec_encoded_size() - 4) as u32) + spec_fast_header_bytes(f.fast)
        + f.hint_bytes() + spec_u32_be(f.meta_raw.len() as u32) + f.meta_raw
        + f.payload_or_cipher
}

impl Frame {
    /// Build a frame without a hint.
    pub fn new(fast: FastHeader, meta_raw: Vec<u8>, payload_or_cipher: Vec<u8>) -> (r: Frame)
        ensures
            r@ == (FrameView {
                fast,
                hint: None,
                meta_raw: meta_raw@,
                payload_or_cipher: payload_or_cipher@,
            }),
    {
        Frame { fast, hint: None, meta_raw, payload_or_cipher }
    }

    /// Attach hint bytes; the caller keeps `fast.hdr_hint_len` in step.
    pub fn with_hint(self, hint: Vec<u8>) -> (r: Frame)
        ensures
            r@ == (FrameView { hint: Some(hint@), ..self@ }),
    {
        Frame { hint: Some(hint), ..self }
    }

    /// Total size of the frame when encoded.
    pub fn encoded_size(&self) -> (r: usize)
        requires
            self@.spec_encoded_size() <= usize::MAX,
        ensures
            r == self@.spec_encoded_size(),
    {
        let mut size: usize = 4 + FAST_HEADER_SIZE;
        match &self.hint {
            Some(h) => {
                size = size + h.len();
            },
            None => {},
        }
        size = size + 4;
        size = size + self.meta_raw.len();
        size = size + self.payload_or_cipher.len();
        size
    }

    /// Encode the frame into one contiguous buffer. Fails with
    /// `WireError::Size` exactly when the encoded size would exceed
    /// `max_frame_size`; nothing is written in that case.
    pub fn encode(&self, max_frame_size: usize) -> (r: Result<Vec<u8>, WireError>)
        requires
            max_frame_size <= HARD_MAX_FRAME_SIZE,
        ensures
            self@.spec_encoded_size() > max_frame_size ==> r == Err::<Vec<u8>, WireError>(
                WireError::Size(self@.spec_encoded_size() as usize),
            ),
            self@.spec_encoded_size() <= max_frame_size ==> (r matches Ok(bytes) && bytes@
                == spec_frame_bytes(self@)),
    {
        let hint_len: u128 = match &self.hint {
            Some(h) => h.len() as u128,
            None => 0,
        };
        let total: u128 = 4 + FAST_HEADER_SIZE as u128 + hint_len + 4 + self.meta_raw.len()
            as u128 + self.payload_or_cipher.len() as u128;
        if total > max_frame_size as u128 {
            return Err(WireError::Size(total as usize));
        }
        let frame_len: u32 = (total - 4) as u32;
        let mut buf: Vec<u8> = Vec::new();
        u32_to_be_bytes(frame_len, &mut buf);
        self.fast.encode(&mut buf);
        match &self.hint {
            Some(h) => {
                append_bytes(&mut buf, h.as_slice());
            },
            None => {},
        }
        u32_to_be_bytes(self.meta_raw.len() as u32, &mut buf);
        append_bytes(&mut buf, self.meta_raw.as_slice());
        append_bytes(&mut buf, self.payload_or_cipher.as_slice());
        assert(buf@ =~= spec_frame_bytes(self@));
        Ok(buf)
    }
}

/// What decoding from a receive buffer yields: nothing when the buffer
/// does not yet hold a complete frame, one frame and the bytes it took, or
/// an error on an oversize or malformed frame.
pub open spec fn spec_frame_decode(s: Seq<u8>, max_frame: int) -> Result<
    Option<(FrameView, int)>,
    WireError,
> {
    if s.len() < 4 {
        Ok(None)
    } else {
        let frame_len = spec_u32_from_be(s.subrange(0, 4)) as int;
        if frame_len > max_frame {
            Err(WireError::Size(frame_len as usize))
        } else if s.len() < 4 + frame_len {
            Ok(None)
        } else {
            let frame = s.subrange(4, 4 + frame_len);
            match spec_fast_header_decode(frame) {
                Err(e) => Err(e),
                Ok(fast) => {
                    let hint_len = fast.hdr_hint_len as int;
                    if hint_len > 0 && frame.len() - FAST_HEADER_SIZE < hint_len {
                        Err(WireError::Malformed)
                    } else {
                        let after_hint = FAST_HEADER_SIZE + hint_len;
                        if frame.len() - after_hint < 4 {
                            Err(WireError::Malformed)
                        } else {
                            let meta_len = spec_u32_from_be(
                                frame.subrange(after_hint, after_hint + 4),
                            ) as int;
                            if meta_len > MAX_META_SIZE || frame.len() - (after_hint + 4)
                                < meta_len {
                                Err(WireError::Meta)
                            } else {
                                Ok(
                                    Some(
                                        (
                                            FrameView {
                                                fast,
                                                hint: if hint_len > 0 {
                                                    Some(
                                                        frame.subrange(
                                                            FAST_HEADER_SIZE as int,
                                                            after_hint,
                                                        ),
                                                    )
                                                } else {
                                                    None
                                                },
                                                meta_raw: frame.subrange(
                                                    after_hint + 4,
                                                    after_hint + 4 + meta_len,
                                                ),
                                                payload_or_cipher: frame.subrange(
                                                    after_hint + 4 + meta_len,
                                                    frame.len() as int,
                                                ),
                                            },
                                            4 + frame_len,
                                        ),
                                    ),
                                )
                            }
                        }
                    }
                },
            }
        }
    }
}

/// Decoder for frames arriving on a byte stream.
#[derive(Debug, Clone, PartialEq, Eq)]
pub struct FrameDecoder {
    /// Frames longer than this are rejected.
    pub max_frame_size: usize,
}

impl FrameDecoder {
    /// A decoder with the default maximum frame size.
    pub fn new() -> (r: FrameDecoder)
        ensures
            r.max_frame_size == DEFAULT_MAX_FRAME_SIZE,
    {
        FrameDecoder { max_frame_size: DEFAULT_MAX_FRAME_SIZE }
    }

    /// Decode one frame from the front of `buf`. Yields the frame and the
    /// number of bytes it occupied, `None` while the buffer does not yet
    /// hold a complete frame, or the validation error of a bad frame.
    pub fn decode(&self, buf: &[u8]) -> (r: Result<Option<(Frame, usize)>, WireError>)
        ensures
            match r {
                Ok(None) => spec_frame_decode(buf@, self.max_frame_size as int) == Ok::<
                    Option<(FrameView, int)>,
                    WireError,
                >(None),
                Ok(Some((f, used))) => spec_frame_decode(buf@, self.max_frame_size as int) == Ok::<
                    Option<(FrameView, int)>,
                    WireError,
                >(Some((f@, used as int))) && used <= buf@.len(),
                Err(e) => spec_frame_decode(buf@, self.max_frame_size as int) == Err::<
                    Option<(FrameView, int)>,
                    WireError,
                >(e),
            },
    {
        if buf.len() < 4 {
            return Ok(None);
        }
        let frame_len_u32 = u32_from_be_bytes(buf, 0);
        let frame_len = frame_len_u32 as usize;
        if frame_len > self.max_frame_size {
            return Err(WireError::Size(frame_len));
        }
        if buf.len() - 4 < frame_len {
            return Ok(None);
        }
        let frame_end = 4 + frame_len;
        let ghost frame_seq = buf@.subrange(4, frame_end as int);
        let fast = match FastHeader::decode(slice_range(buf, 4, frame_end)) {
            Ok(h) => h,
            Err(e) => {
                return Err(e);
            },
        };
        let hint_len = fast.hdr_hint_len as usize;
        if hint_len > 0 && frame_len - FAST_HEADER_SIZE < hint_len {
            return Err(WireError::Malformed);
        }
        let after_hint = FAST_HEADER_SIZE + hint_len;
        if frame_len - after_hint < 4 {
            return Err(WireError::Malformed);
        }
        let meta_len_u32 = u32_from_be_bytes(buf, 4 + after_hint);
        let meta_len = meta_len_u32 as usize;
        assert(spec_u32_from_be(buf@.subrange(
            4 + after_hint,
            4 + after_hint + 4,
        )) == spec_u32_from_be(frame_seq.subrange(after_hint as int, after_hint + 4))) by {
            assert(buf@.subrange(4 + after_hint, 4 + after_hint + 4) =~= frame_seq.subrange(
                after_hint as int,
                after_hint + 4,
            ));
        }
        if meta_len > MAX_META_SIZE || frame_len - (after_hint + 4) < meta_len {
            return Err(WireError::Meta);
        }
        let hint = if hint_len > 0 {
            let h = copy_range(buf, 4 + FAST_HEADER_SIZE, hint_len);
            assert(h@ =~= frame_seq.subrange(FAST_HEADER_SIZE as int, after_hint as int));
            Some(h)
        } else {
            None
        };
        let meta_raw = copy_range(buf, 4 + after_hint + 4, meta_len);
        assert(meta_raw@ =~= frame_seq.subrange(
            after_hint + 4,
            after_hint + 4 + meta_len,
        ));
        let payload_start = 4 + after_hint + 4 + meta_len;
        let payload_or_cipher = copy_range(buf, payload_start, frame_end - payload_start);
        assert(payload_or_cipher@ =~= frame_seq.subrange(
            after_hint + 4 + meta_len,
            frame_seq.len() as int,
        ));
        let frame = Frame { fast, hint, meta_raw, payload_or_cipher };
        Ok(Some((frame, frame_end)))
    }
}

/// The sub-slice `buf[from .. to]`.
pub fn slice_range(buf: &[u8], from: usize, to: usize) -> (r: &[u8])
    requires
        from <= to <= buf@.len(),
    ensures
        r@ == buf@.subrange(from as int, to as int),
{
    vstd::slice::slice_subrange(buf, from, to)
}

/// Decoding the encoded bytes of a well-formed frame that fits the limit
/// yields the frame and consumes exactly its bytes.
#[verifier::rlimit(80)]
#[verifier::spinoff_prover]
pub proof fn lemma_frame_round_trip(f: FrameView, max_frame: int)
    requires
        f.wf(),
        f.spec_encoded_size() - 4 <= max_frame,
        f.spec_encoded_size() <= u32::MAX,
    ensures
        spec_frame_decode(spec_frame_bytes(f), max_frame) == Ok::<
            Option<(FrameView, int)>,
            WireError,
        >(Some((f, f.spec_encoded_size() as int))),
{
    lemma_u32_be_round_trip();
    let s = spec_frame_bytes(f);
    let total = f.spec_encoded_size();
    let frame_len = total - 4;
    assert(s.len() == total);
    assert(s.subrange(0, 4) =~= spec_u32_be(frame_len as u32));
    assert(spec_u32_from_be(s.subrange(0, 4)) == frame_len as u32);
    let frame = s.subrange(4, 4 + frame_len);
    assert(frame.subrange(0, FAST_HEADER_SIZE as int) =~= spec_fast_header_bytes(f.fast));
    assert(frame =~= spec_fast_header_bytes(f.fast) + f.hint_bytes() + spec_u32_be(
        f.meta_raw.len() as u32,
    ) + f.meta_raw + f.payload_or_cipher);
    lemma_fast_header_round_trip(f.fast);
    assert(spec_fast_header_decode(frame) == spec_fast_header_decode(
        spec_fast_header_bytes(f.fast),
    )) by {
        lemma_fast_header_decode_prefix(f.fast, frame);
    }
    let hint_len = f.fast.hdr_hint_len as int;
    assert(hint_len == f.hint_bytes().len());
    let after_hint = FAST_HEADER_SIZE + hint_len;
    assert(frame.subrange(after_hint, after_hint + 4) =~= spec_u32_be(f.meta_raw.len() as u32));
    assert(spec_u32_from_be(frame.subrange(after_hint, after_hint + 4)) == f.meta_raw.len()
        as u32);
    if hint_len > 0 {
        assert(frame.subrange(FAST_HEADER_SIZE as int, after_hint) =~= f.hint_bytes());
        assert(f.hint == Some(f.hint_bytes()));
    } else {
        assert(f.hint is None);
    }
    assert(frame.subrange(after_hint + 4, after_hint + 4 + f.meta_raw.len()) =~= f.meta_raw);
    assert(frame.subrange(after_hint + 4 + f.meta_raw.len(), frame.len() as int)
        =~= f.payload_or_cipher);
}

/// A fast header decodes the same from any buffer that starts with its 48
/// bytes.
pub proof fn lemma_fast_header_decode_prefix(h: FastHeader, s: Seq<u8>)
    requires
        s.len() >= FAST_HEADER_SIZE,
        s.subrange(0, FAST_HEADER_SIZE as int) == spec_fast_header_bytes(h),
    ensures
        spec_fast_header_decode(s) == spec_fast_header_decode(spec_fast_header_bytes(h)),
{
    let p = spec_fast_header_bytes(h);
    assert(p.len() == FAST_HEADER_SIZE);
    assert forall|i: int| 0 <= i < FAST_HEADER_SIZE implies s[i] == p[i] by {
        assert(s.subrange(0, FAST_HEADER_SIZE as int)[i] == s[i]);
    }
    assert(s.subrange(2, 4) =~= p.subrange(2, 4));
    assert(s.subrange(6, 8) =~= p.subrange(6, 8));
    assert(s.subrange(8, 16) =~= p.subrange(8, 16));
    assert(s.subrange(16, 24) =~= p.subrange(16, 24));
    assert(s.subrange(24, 32) =~= p.subrange(24, 32));
    assert(s.subrange(32, 40) =~= p.subrange(32, 40));
    assert(s.subrange(40, 44) =~= p.subrange(40, 44));
    assert(s.subrange(44, 48) =~= p.subrange(44, 48));
}

} // verus!
