//! Session establishment: the HELLO frame a node sends as soon as its
//! transport is ready, and the reading of a received one.

use vstd::prelude::*;

use crate::codec::FrameBuilder;
use crate::errors::CodecError;
use crate::frame::DEFAULT_MAX_FRAME_SIZE;
use crate::header::FastHeader;
use crate::header::FrameType;
use crate::meta::lemma_cbor_head_len;
use crate::meta::lemma_lookup_none_absent;
use crate::meta::lemma_wire_literals;
use crate::meta::spec_encode_map;
use crate::meta::spec_meta_lookup;
use crate::meta::MetaMap;
use crate::meta::MetaValue;
use crate::meta::MetaValueView;
use crate::WIRE_VERSION;
use vstd::string::StringSliceAdditionalSpecFns;

verus! {

/// What a HELLO announces: the sender and its protocol version.
#[derive(Debug, Clone, Copy, PartialEq, Eq, Structural)]
pub struct Hello {
    /// The announcing node.
    pub node_id: u64,
    /// Its protocol version.
    pub version: u8,
}

/// Build the HELLO frame of `my_node_id`: a hello-typed frame whose
/// source is the local node and whose metadata carries the wire version.
/// Its two metadata entries are small, so building never fails.
pub fn build_hello(my_node_id: u64) -> (r: Result<Vec<u8>, CodecError>)
    ensures
        r is Ok,
        r matches Ok(bytes) ==> (crate::frame::spec_frame_decode(bytes@, 65536) matches Ok(dec)
            && dec matches Some(p) && ({
            let f = p.0;
            &&& f.fast.typ == FrameType::Hello
            &&& f.fast.src_node == my_node_id
            &&& (crate::meta::spec_decode_map(f.meta_raw) matches Some(m) && spec_meta_lookup(
                m,
                "version".spec_bytes(),
            ) == Some(MetaValueView::U64(WIRE_VERSION as u64)) && spec_meta_lookup(
                m,
                "content-type".spec_bytes(),
            ) == Some(MetaValueView::Text("application/x-hello".spec_bytes())))
        })),
{
    let header = FastHeader::new(FrameType::Hello, my_node_id, 0, 0);
    let b0 = FrameBuilder::new(header);
    let b1 = b0.meta_insert_str("content-type", "application/x-hello");
    let builder = b1.meta_insert_u32("version", WIRE_VERSION as u32);
    let ghost gb = builder;
    proof {
        lemma_wire_literals();
        let fl = crate::header::FLAG_HDR_CHECKSUM;
        assert(0u16 & fl == 0) by (bit_vector);
        assert(gb.fast.flags == 0);
        assert(spec_meta_lookup(b1.meta.map@, "version".spec_bytes()) is None);
        lemma_lookup_none_absent(b1.meta.map@, "version".spec_bytes());
        lemma_cbor_head_len(crate::meta::CBOR_BASE_TEXT, 12);
        lemma_cbor_head_len(crate::meta::CBOR_BASE_TEXT, 19);
        lemma_cbor_head_len(crate::meta::CBOR_BASE_TEXT, 7);
        lemma_cbor_head_len(crate::meta::CBOR_BASE_UINT, WIRE_VERSION as u64);
        lemma_cbor_head_len(crate::meta::CBOR_BASE_MAP, 2);
        assert(crate::meta::spec_encode_entries(b0.meta.map@).len() == 0);
        assert(crate::meta::spec_encode_entry(
            "content-type".spec_bytes(),
            MetaValueView::Text("application/x-hello".spec_bytes()),
        ).len() == 33);
        assert(crate::meta::spec_encode_entry(
            "version".spec_bytes(),
            MetaValueView::U64(WIRE_VERSION as u64),
        ).len() <= 17);
        assert(spec_encode_map(gb.meta.map@).len() <= 51);
    }
    match builder.build(65536) {
        Ok(bytes) => {
            proof {
                let m = choose|m: Seq<(Seq<u8>, MetaValueView)>|
                    {
                        &&& #[trigger] crate::codec::build_meta_ok(gb, m)
                        &&& crate::codec::spec_built_frame(gb, m).spec_encoded_size() <= 65536
                        &&& bytes@ == crate::frame::spec_frame_bytes(
                            crate::codec::spec_built_frame(gb, m),
                        )
                    };
                assert(m == gb.meta.map@);
                crate::manager::lemma_built_data_frame_decodes(gb, m, bytes@);
                crate::meta::lemma_meta_round_trip(m);
            }
            Ok(bytes)
        },
        Err(e) => {
            proof {
                let m = choose|m: Seq<(Seq<u8>, MetaValueView)>|
                    {
                        &&& #[trigger] crate::codec::build_meta_ok(gb, m)
                        &&& crate::codec::spec_built_frame(gb, m).spec_encoded_size() > 65536
                        &&& e == CodecError::Wire(
                            crate::errors::WireError::Size(
                                crate::codec::spec_built_frame(gb, m).spec_encoded_size() as usize,
                            ),
                        )
                    };
                assert(m == gb.meta.map@);
                assert(false);
            }
            Err(e)
        },
    }
}

/// Read the HELLO metadata: the version defaults to 1 when absent; the
/// node ID comes from the fast header, not the metadata, and is left
/// zero here.
pub fn parse_hello_meta(meta: &MetaMap) -> (r: Hello)
    ensures
        r.node_id == 0,
        r.version == (match spec_meta_lookup(meta@, "version".spec_bytes()) {
            Some(MetaValueView::U64(v)) => (if v <= u8::MAX as u64 {
                v as u8
            } else {
                WIRE_VERSION
            }),
            _ => WIRE_VERSION,
        }),
{
    let version = match meta.get("version".as_bytes()) {
        Some(MetaValue::U64(v)) => {
            if *v <= u8::MAX as u64 {
                *v as u8
            } else {
                WIRE_VERSION
            }
        },
        _ => WIRE_VERSION,
    };
    Hello { node_id: 0, version }
}

} // verus!
