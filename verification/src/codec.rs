//! Frame construction: the builder that assembles fast header, hint,
//! metadata and payload into encoded frame bytes, adding the optional
//! header checksum.

use vstd::prelude::*;

use crate::checksum::crc32_of;
use crate::errors::CodecError;
use crate::errors::WireError;
use crate::frame::Frame;
use crate::frame::FrameView;
use crate::frame::HARD_MAX_FRAME_SIZE;
use crate::header::crc32c_fast_header;
use crate::header::spec_fast_header_bytes;
use crate::header::FastHeader;
use crate::header::FLAG_E2E_ENC;
use crate::header::FLAG_HDR_CHECKSUM;
use crate::meta::entries_len_ok;
use crate::meta::entries_sorted;
use crate::meta::spec_encode_map;
use crate::meta::spec_meta_lookup;
use crate::meta::MetaBuilder;
use crate::meta::MetaValueView;
use vstd::string::StringSliceAdditionalSpecFns;

verus! {

/// Encryption algorithms of the reserved crypto section.
#[derive(Debug, Clone, Copy, PartialEq, Eq, Structural)]
pub enum EncAlg {
    /// No encryption.
    Plain,
    /// ChaCha20-Poly1305.
    Chacha20Poly1305,
    /// AES-128-GCM.
    Aes128Gcm,
    /// AES-256-GCM.
    Aes256Gcm,
}

/// Key modes of the reserved crypto section.
#[derive(Debug, Clone, Copy, PartialEq, Eq, Structural)]
pub enum KeyMode {
    /// Ephemeral wrapped key.
    EphemeralWrapped,
    /// Channel key ID.
    ChannelKeyId,
}

/// Crypto parameters for frame building. The core reserves the crypto
/// section and does not require its use; the payload is carried as given.
#[derive(Debug, Clone)]
pub struct CryptoParams {
    /// Encryption algorithm.
    pub enc_alg: EncAlg,
    /// Key mode.
    pub key_mode: KeyMode,
    /// Key reference: channel key ID or wrapped key.
    pub key_ref: Vec<u8>,
    /// Nonce for the AEAD.
    pub nonce: Vec<u8>,
    /// AEAD tag length.
    pub tag_len: u8,
    /// Whether the additional data binds the header.
    pub aad_binds_header: bool,
}

/// Builder for wire frames.
#[derive(Debug)]
pub struct FrameBuilder {
    /// The fast header; `hdr_hint_len` tracks the hint below.
    pub fast: FastHeader,
    /// Optional hint bytes.
    pub hint_tlv: Option<Vec<u8>>,
    /// Crypto parameters, when the frame is marked end-to-end encrypted.
    pub crypto: Option<CryptoParams>,
    /// The metadata being collected.
    pub meta: MetaBuilder,
    /// The payload.
    pub payload: Vec<u8>,
}

/// The metadata entries that `FrameBuilder::build` encodes: the builder's
/// entries, sorted, with `hdr_csum` added when the header checksum flag is
/// set.
pub open spec fn build_meta_ok(b: FrameBuilder, m: Seq<(Seq<u8>, MetaValueView)>) -> bool {
    &&& entries_sorted(m)
    &&& entries_len_ok(m)
    &&& if b.fast.flags & FLAG_HDR_CHECKSUM == 0 {
        m == b.meta.map@
    } else {
        &&& spec_meta_lookup(m, "hdr_csum".spec_bytes()) == Some(
            MetaValueView::U64(
                crc32_of(
                    spec_fast_header_bytes(b.fast) + match b.hint_tlv {
                        Some(h) => h@,
                        None => Seq::<u8>::empty(),
                    },
                ) as u64,
            ),
        )
        &&& forall|k: Seq<u8>|
            k != "hdr_csum".spec_bytes() ==> #[trigger] spec_meta_lookup(m, k)
                == spec_meta_lookup(b.meta.map@, k)
    }
}

/// The frame that `FrameBuilder::build` encodes, for metadata entries `m`.
pub open spec fn spec_built_frame(b: FrameBuilder, m: Seq<(Seq<u8>, MetaValueView)>) -> FrameView {
    FrameView {
        fast: b.fast,
        hint: match b.hint_tlv {
            Some(h) => Some(h@),
            None => None,
        },
        meta_raw: spec_encode_map(m),
        payload_or_cipher: b.payload@,
    }
}

impl FrameBuilder {
    /// The builder's metadata is sorted and its hint length is recorded in
    /// the header.
    pub open spec fn wf(self) -> bool {
        &&& self.meta.wf()
        &&& match self.hint_tlv {
            Some(h) => self.fast.hdr_hint_len == h.len() && h.len() > 0,
            None => self.fast.hdr_hint_len == 0,
        }
    }

    /// Start a builder from a fast header, with no hint, no crypto, empty
    /// metadata and empty payload.
    pub fn new(fast: FastHeader) -> (r: FrameBuilder)
        ensures
            r.wf(),
            r.fast == (FastHeader { hdr_hint_len: 0, ..fast }),
            r.hint_tlv is None,
            r.crypto is None,
            r.meta.map@ =~= Seq::<(Seq<u8>, MetaValueView)>::empty(),
            r.payload@ =~= Seq::<u8>::empty(),
    {
        FrameBuilder {
            fast: FastHeader { hdr_hint_len: 0, ..fast },
            hint_tlv: None,
            crypto: None,
            meta: MetaBuilder::new(),
            payload: Vec::new(),
        }
    }

    /// Attach hint bytes and record their length in the header; an empty
    /// hint clears it.
    pub fn with_hint_tlv(self, tlv: Vec<u8>) -> (r: FrameBuilder)
        requires
            self.wf(),
            tlv@.len() <= u32::MAX,
        ensures
            r.wf(),
            tlv@.len() > 0 ==> r.hint_tlv == Some(tlv) && r.fast == (FastHeader {
                hdr_hint_len: tlv@.len() as u32,
                ..self.fast
            }),
            tlv@.len() == 0 ==> r.hint_tlv is None && r.fast == (FastHeader {
                hdr_hint_len: 0,
                ..self.fast
            }),
            r.meta == self.meta && r.payload == self.payload && r.crypto == self.crypto,
    {
        if tlv.len() == 0 {
            FrameBuilder {
                fast: FastHeader { hdr_hint_len: 0, ..self.fast },
                hint_tlv: None,
                ..self
            }
        } else {
            let len = tlv.len() as u32;
            FrameBuilder {
                fast: FastHeader { hdr_hint_len: len, ..self.fast },
                hint_tlv: Some(tlv),
                ..self
            }
        }
    }

    /// Store crypto parameters and mark the frame end-to-end encrypted.
    pub fn with_crypto(self, crypto: CryptoParams) -> (r: FrameBuilder)
        requires
            self.wf(),
        ensures
            r.wf(),
            r.fast == (FastHeader { flags: self.fast.flags | FLAG_E2E_ENC, ..self.fast }),
            r.crypto == Some(crypto),
            r.meta == self.meta && r.payload == self.payload && r.hint_tlv == self.hint_tlv,
    {
        FrameBuilder {
            fast: FastHeader { flags: self.fast.flags | FLAG_E2E_ENC, ..self.fast },
            crypto: Some(crypto),
            ..self
        }
    }

    /// Insert a text metadata value.
    pub fn meta_insert_str(self, key: &str, value: &str) -> (r: FrameBuilder)
        requires
            self.wf(),
        ensures
            r.wf(),
            spec_meta_lookup(r.meta.map@, key.spec_bytes()) == Some(
                MetaValueView::Text(value.spec_bytes()),
            ),
            forall|k: Seq<u8>|
                k != key.spec_bytes() ==> #[trigger] spec_meta_lookup(r.meta.map@, k)
                    == spec_meta_lookup(self.meta.map@, k),
            (forall|j: int|
                0 <= j < self.meta.map@.len() ==> (#[trigger] self.meta.map@[j]).0
                    != key.spec_bytes()) ==> crate::meta::spec_encode_entries(r.meta.map@).len()
                == crate::meta::spec_encode_entries(self.meta.map@).len()
                + crate::meta::spec_encode_entry(key.spec_bytes(), MetaValueView::Text(value.spec_bytes())).len()
                && r.meta.map@.len() == self.meta.map@.len() + 1,
            r.fast == self.fast && r.payload == self.payload && r.hint_tlv == self.hint_tlv,
    {
        let meta = self.meta.insert_str(key, value);
        FrameBuilder { meta, ..self }
    }

    /// Insert an unsigned integer metadata value.
    pub fn meta_insert_u32(self, key: &str, value: u32) -> (r: FrameBuilder)
        requires
            self.wf(),
        ensures
            r.wf(),
            spec_meta_lookup(r.meta.map@, key.spec_bytes()) == Some(
                MetaValueView::U64(value as u64),
            ),
            forall|k: Seq<u8>|
                k != key.spec_bytes() ==> #[trigger] spec_meta_lookup(r.meta.map@, k)
                    == spec_meta_lookup(self.meta.map@, k),
            (forall|j: int|
                0 <= j < self.meta.map@.len() ==> (#[trigger] self.meta.map@[j]).0
                    != key.spec_bytes()) ==> crate::meta::spec_encode_entries(r.meta.map@).len()
                == crate::meta::spec_encode_entries(self.meta.map@).len()
                + crate::meta::spec_encode_entry(key.spec_bytes(), MetaValueView::U64(value as u64)).len()
                && r.meta.map@.len() == self.meta.map@.len() + 1,
            r.fast == self.fast && r.payload == self.payload && r.hint_tlv == self.hint_tlv,
    {
        let meta = self.meta.insert_u32(key, value);
        FrameBuilder { meta, ..self }
    }

    /// Insert an unsigned 64-bit integer metadata value.
    pub fn meta_insert_u64(self, key: &str, value: u64) -> (r: FrameBuilder)
        requires
            self.wf(),
        ensures
            r.wf(),
            spec_meta_lookup(r.meta.map@, key.spec_bytes()) == Some(MetaValueView::U64(value)),
            forall|k: Seq<u8>|
                k != key.spec_bytes() ==> #[trigger] spec_meta_lookup(r.meta.map@, k)
                    == spec_meta_lookup(self.meta.map@, k),
            (forall|j: int|
                0 <= j < self.meta.map@.len() ==> (#[trigger] self.meta.map@[j]).0
                    != key.spec_bytes()) ==> crate::meta::spec_encode_entries(r.meta.map@).len()
                == crate::meta::spec_encode_entries(self.meta.map@).len()
                + crate::meta::spec_encode_entry(key.spec_bytes(), MetaValueView::U64(value)).len()
                && r.meta.map@.len() == self.meta.map@.len() + 1,
            r.fast == self.fast && r.payload == self.payload && r.hint_tlv == self.hint_tlv,
    {
        let meta = self.meta.insert_u64(key, value);
        FrameBuilder { meta, ..self }
    }

    /// Insert a boolean metadata value as the text `"true"` or `"false"`.
    pub fn meta_insert_bool_text(self, key: &str, value: bool) -> (r: FrameBuilder)
        requires
            self.wf(),
        ensures
            r.wf(),
            spec_meta_lookup(r.meta.map@, key.spec_bytes()) == Some(
                MetaValueView::Text(
                    if value {
                        "true".spec_bytes()
                    } else {
                        "false".spec_bytes()
                    },
                ),
            ),
            forall|k: Seq<u8>|
                k != key.spec_bytes() ==> #[trigger] spec_meta_lookup(r.meta.map@, k)
                    == spec_meta_lookup(self.meta.map@, k),
            (forall|j: int|
                0 <= j < self.meta.map@.len() ==> (#[trigger] self.meta.map@[j]).0
                    != key.spec_bytes()) ==> crate::meta::spec_encode_entries(r.meta.map@).len()
                == crate::meta::spec_encode_entries(self.meta.map@).len()
                + crate::meta::spec_encode_entry(key.spec_bytes(), MetaValueView::Text(
                    if value {
                        "true".spec_bytes()
                    } else {
                        "false".spec_bytes()
                    },
                )).len()
                && r.meta.map@.len() == self.meta.map@.len() + 1,
            r.fast == self.fast && r.payload == self.payload && r.hint_tlv == self.hint_tlv,
    {
        let meta = self.meta.insert_bool_text(key, value);
        FrameBuilder { meta, ..self }
    }

    /// Insert a byte-string metadata value.
    pub fn meta_insert_bytes(self, key: &str, value: &[u8]) -> (r: FrameBuilder)
        requires
            self.wf(),
        ensures
            r.wf(),
            spec_meta_lookup(r.meta.map@, key.spec_bytes()) == Some(MetaValueView::Bytes(value@)),
            forall|k: Seq<u8>|
                k != key.spec_bytes() ==> #[trigger] spec_meta_lookup(r.meta.map@, k)
                    == spec_meta_lookup(self.meta.map@, k),
            (forall|j: int|
                0 <= j < self.meta.map@.len() ==> (#[trigger] self.meta.map@[j]).0
                    != key.spec_bytes()) ==> crate::meta::spec_encode_entries(r.meta.map@).len()
                == crate::meta::spec_encode_entries(self.meta.map@).len()
                + crate::meta::spec_encode_entry(key.spec_bytes(), MetaValueView::Bytes(value@)).len()
                && r.meta.map@.len() == self.meta.map@.len() + 1,
            r.fast == self.fast && r.payload == self.payload && r.hint_tlv == self.hint_tlv,
    {
        let meta = self.meta.insert_bytes(key, value);
        FrameBuilder { meta, ..self }
    }

    /// Set the payload.
    pub fn payload(self, payload: Vec<u8>) -> (r: FrameBuilder)
        requires
            self.wf(),
        ensures
            r.wf(),
            r.payload == payload,
            r.fast == self.fast && r.meta == self.meta && r.hint_tlv == self.hint_tlv,
    {
        FrameBuilder { payload, ..self }
    }

    /// Assemble and encode the frame. When the header-checksum flag is
    /// set, the CRC32 over header and hint bytes is first added to the
    /// metadata under `hdr_csum`. Fails with a size error exactly when the
    /// encoded frame would exceed `max_frame`.
    pub fn build(self, max_frame: usize) -> (r: Result<Vec<u8>, CodecError>)
        requires
            self.wf(),
            max_frame <= HARD_MAX_FRAME_SIZE,
        ensures
            match r {
                Ok(bytes) => exists|m: Seq<(Seq<u8>, MetaValueView)>|
                    {
                        &&& #[trigger] build_meta_ok(self, m)
                        &&& spec_built_frame(self, m).spec_encoded_size() <= max_frame
                        &&& bytes@ == crate::frame::spec_frame_bytes(spec_built_frame(self, m))
                    },
                Err(e) => exists|m: Seq<(Seq<u8>, MetaValueView)>|
                    {
                        &&& #[trigger] build_meta_ok(self, m)
                        &&& spec_built_frame(self, m).spec_encoded_size() > max_frame
                        &&& e == CodecError::Wire(
                            WireError::Size(
                                spec_built_frame(self, m).spec_encoded_size() as usize,
                            ),
                        )
                    },
            },
    {
        let ghost before = self;
        let FrameBuilder { fast, hint_tlv, crypto, meta, payload } = self;
        let meta = if fast.flags & FLAG_HDR_CHECKSUM != 0 {
            let checksum = match &hint_tlv {
                Some(h) => crc32c_fast_header(&fast, Some(h.as_slice())),
                None => crc32c_fast_header(&fast, None),
            };
            meta.insert_u32("hdr_csum", checksum)
        } else {
            meta
        };
        let ghost m = meta.map@;
        proof {
            assert(build_meta_ok(before, m));
        }
        let meta_raw = match meta.build() {
            Ok(bytes) => bytes,
            Err(e) => {
                proof {
                    assert(false);
                }
                return Err(e);
            },
        };
        let frame = Frame { fast, hint: hint_tlv, meta_raw, payload_or_cipher: payload };
        assert(frame@ == spec_built_frame(before, m));
        match frame.encode(max_frame) {
            Ok(bytes) => Ok(bytes),
            Err(e) => Err(CodecError::Wire(e)),
        }
    }
}

} // verus!
