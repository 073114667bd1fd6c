//! Keepalive: ping and pong frames carrying a correlation ID, and the
//! round-trip bookkeeping for outstanding pings.

use vstd::prelude::*;

use crate::clock::now_nanos;
use crate::codec::FrameBuilder;
use crate::errors::CodecError;
use crate::header::FastHeader;
use crate::header::FrameType;
use crate::frame::spec_frame_decode;
use crate::meta::lemma_cbor_head_len;
use crate::meta::lemma_wire_literals;
use crate::meta::spec_encode_map;
use crate::meta::spec_meta_lookup;
use crate::meta::MetaValueView;
use vstd::string::StringSliceAdditionalSpecFns;

verus! {

/// Build a ping frame from `my_node` carrying `corr_id` for round-trip
/// measurement; its single metadata entry is small, so
/// building never fails.
pub fn build_ping(my_node: u64, corr_id: u64) -> (r: Result<Vec<u8>, CodecError>)
    ensures
        r is Ok,
        r matches Ok(bytes) ==> (spec_frame_decode(bytes@, 65536) matches Ok(dec) && dec matches Some(p) && ({
            let f = p.0;
            &&& f.fast.typ == FrameType::Ping
            &&& f.fast.src_node == my_node
            &&& f.fast.corr_id == corr_id
            &&& (crate::meta::spec_decode_map(f.meta_raw) matches Some(m) && spec_meta_lookup(
                m,
                "content-type".spec_bytes(),
            ) == Some(MetaValueView::Text("application/x-ping".spec_bytes())))
        })),
{
    let mut header = FastHeader::new(FrameType::Ping, my_node, 0, 0);
    header.corr_id = corr_id;
    let b0 = FrameBuilder::new(header);
    let builder = b0.meta_insert_str("content-type", "application/x-ping");
    let ghost gb = builder;
    proof {
        lemma_wire_literals();
        let fl = crate::header::FLAG_HDR_CHECKSUM;
        assert(0u16 & fl == 0) by (bit_vector);
        assert(gb.fast.flags == 0);
        lemma_cbor_head_len(crate::meta::CBOR_BASE_TEXT, 12);
        lemma_cbor_head_len(crate::meta::CBOR_BASE_TEXT, 18);
        lemma_cbor_head_len(crate::meta::CBOR_BASE_MAP, 1);
        assert(crate::meta::spec_encode_entries(b0.meta.map@).len() == 0);
        assert(crate::meta::spec_encode_entry(
            "content-type".spec_bytes(),
            MetaValueView::Text("application/x-ping".spec_bytes()),
        ).len() == 32);
        assert(spec_encode_map(gb.meta.map@).len() == 33);
    }
    match builder.build(65536) {
        Ok(bytes) => {
            proof {
                let m = choose|m: Seq<(Seq<u8>, MetaValueView)>|
                    {
                        &&& #[trigger] crate::codec::build_meta_ok(gb, m)
                        &&& crate::codec::spec_built_frame(gb, m).spec_encoded_size() <= 65536
                        &&& bytes@ == crate::frame::spec_frame_bytes(
                            crate::codec::spec_built_frame(gb, m),
                        )
                    };
                assert(m == gb.meta.map@);
                crate::manager::lemma_built_data_frame_decodes(gb, m, bytes@);
                crate::meta::lemma_meta_round_trip(m);
            }
            Ok(bytes)
        },
        Err(e) => {
            proof {
                let m = choose|m: Seq<(Seq<u8>, MetaValueView)>|
                    {
                        &&& #[trigger] crate::codec::build_meta_ok(gb, m)
                        &&& crate::codec::spec_built_frame(gb, m).spec_encoded_size() > 65536
                        &&& e == CodecError::Wire(
                            crate::errors::WireError::Size(
                                crate::codec::spec_built_frame(gb, m).spec_encoded_size() as usize,
                            ),
                        )
                    };
                assert(m == gb.meta.map@);
                assert(false);
            }
            Err(e)
        },
    }
}

/// Build a pong frame answering a ping, mirroring its correlation ID;
/// its single metadata entry is small, so building never fails.
pub fn build_pong(my_node: u64, corr_id: u64) -> (r: Result<Vec<u8>, CodecError>)
    ensures
        r is Ok,
        r matches Ok(bytes) ==> (spec_frame_decode(bytes@, 65536) matches Ok(dec) && dec matches Some(p) && ({
            let f = p.0;
            &&& f.fast.typ == FrameType::Pong
            &&& f.fast.src_node == my_node
            &&& f.fast.corr_id == corr_id
            &&& (crate::meta::spec_decode_map(f.meta_raw) matches Some(m) && spec_meta_lookup(
                m,
                "content-type".spec_bytes(),
            ) == Some(MetaValueView::Text("application/x-pong".spec_bytes())))
        })),
{
    let mut header = FastHeader::new(FrameType::Pong, my_node, 0, 0);
    header.corr_id = corr_id;
    let b0 = FrameBuilder::new(header);
    let builder = b0.meta_insert_str("content-type", "application/x-pong");
    let ghost gb = builder;
    proof {
        lemma_wire_literals();
        let fl = crate::header::FLAG_HDR_CHECKSUM;
        assert(0u16 & fl == 0) by (bit_vector);
        assert(gb.fast.flags == 0);
        lemma_cbor_head_len(crate::meta::CBOR_BASE_TEXT, 12);
        lemma_cbor_head_len(crate::meta::CBOR_BASE_TEXT, 18);
        lemma_cbor_head_len(crate::meta::CBOR_BASE_MAP, 1);
        assert(crate::meta::spec_encode_entries(b0.meta.map@).len() == 0);
        assert(crate::meta::spec_encode_entry(
            "content-type".spec_bytes(),
            MetaValueView::Text("application/x-pong".spec_bytes()),
        ).len() == 32);
        assert(spec_encode_map(gb.meta.map@).len() == 33);
    }
    match builder.build(65536) {
        Ok(bytes) => {
            proof {
                let m = choose|m: Seq<(Seq<u8>, MetaValueView)>|
                    {
                        &&& #[trigger] crate::codec::build_meta_ok(gb, m)
                        &&& crate::codec::spec_built_frame(gb, m).spec_encoded_size() <= 65536
                        &&& bytes@ == crate::frame::spec_frame_bytes(
                            crate::codec::spec_built_frame(gb, m),
                        )
                    };
                assert(m == gb.meta.map@);
                crate::manager::lemma_built_data_frame_decodes(gb, m, bytes@);
                crate::meta::lemma_meta_round_trip(m);
            }
            Ok(bytes)
        },
        Err(e) => {
            proof {
                let m = choose|m: Seq<(Seq<u8>, MetaValueView)>|
                    {
                        &&& #[trigger] crate::codec::build_meta_ok(gb, m)
                        &&& crate::codec::spec_built_frame(gb, m).spec_encoded_size() > 65536
                        &&& e == CodecError::Wire(
                            crate::errors::WireError::Size(
                                crate::codec::spec_built_frame(gb, m).spec_encoded_size() as usize,
                            ),
                        )
                    };
                assert(m == gb.meta.map@);
                assert(false);
            }
            Err(e)
        },
    }
}

/// A correlation ID derived from the clock, in nanoseconds truncated to
/// 64 bits.
pub fn now_corr_id() -> (r: u64) {
    now_nanos()
}

/// The round trip implied by a mirrored correlation ID at clock reading
/// `now_ns`: their difference when the reading is not behind, nothing
/// otherwise.
pub fn rtt_from_corr_at(peer_corr_id: u64, now_ns: u64) -> (r: Option<u64>)
    ensures
        now_ns >= peer_corr_id ==> r == Some((now_ns - peer_corr_id) as u64),
        now_ns < peer_corr_id ==> r is None,
{
    if now_ns >= peer_corr_id {
        Some(now_ns - peer_corr_id)
    } else {
        None
    }
}

/// The round trip implied by a mirrored correlation ID, judged against
/// the current clock reading.
pub fn calc_rtt_from_corr(peer_corr_id: u64) -> (r: Option<u64>) {
    let now = now_nanos();
    rtt_from_corr_at(peer_corr_id, now)
}

/// Outstanding pings: each sent correlation ID with the time it went out,
/// in nanoseconds.
#[derive(Debug, Clone, PartialEq, Eq)]
pub struct KeepaliveState {
    /// Outstanding correlation IDs with their send times, oldest first.
    pub outstanding: Vec<(u64, u64)>,
}

/// Whether a correlation ID is outstanding.
pub open spec fn spec_outstanding(entries: Seq<(u64, u64)>, corr_id: u64) -> bool {
    exists|i: int| 0 <= i < entries.len() && (#[trigger] entries[i]).0 == corr_id
}

impl KeepaliveState {
    /// No pings outstanding.
    pub fn new() -> (r: KeepaliveState)
        ensures
            r.outstanding@.len() == 0,
    {
        KeepaliveState { outstanding: Vec::new() }
    }

    /// Record a ping sent at clock reading `now_ns`; entries older than a
    /// minute are dropped at the same time.
    pub fn record_ping_at(&mut self, corr_id: u64, now_ns: u64)
        ensures
            spec_outstanding(final(self).outstanding@, corr_id),
    {
        let cutoff = if now_ns >= 60_000_000_000 {
            now_ns - 60_000_000_000
        } else {
            0
        };
        let mut kept: Vec<(u64, u64)> = Vec::new();
        let n = self.outstanding.len();
        let mut i: usize = 0;
        while i < n
            invariant
                i <= n,
                n == self.outstanding@.len(),
            decreases n - i,
        {
            if self.outstanding[i].1 > cutoff {
                kept.push(self.outstanding[i]);
            }
            i = i + 1;
        }
        kept.push((corr_id, now_ns));
        proof {
            assert(kept@[kept@.len() - 1].0 == corr_id);
        }
        self.outstanding = kept;
    }

    /// Record a ping sent now.
    pub fn record_ping(&mut self, corr_id: u64)
        ensures
            spec_outstanding(final(self).outstanding@, corr_id),
    {
        let now = now_nanos();
        self.record_ping_at(corr_id, now);
    }

    /// Answer a pong at clock reading `now_ns`: when the correlation ID is
    /// outstanding, it stops being outstanding and the elapsed time since
    /// its first recorded send comes back; an unknown ID yields nothing.
    pub fn process_pong_at(&mut self, corr_id: u64, now_ns: u64) -> (r: Option<u64>)
        ensures
            r is Some <==> spec_outstanding(old(self).outstanding@, corr_id),
            !spec_outstanding(final(self).outstanding@, corr_id),
    {
        let n = self.outstanding.len();
        let mut found: Option<u64> = None;
        let mut kept: Vec<(u64, u64)> = Vec::new();
        let mut i: usize = 0;
        while i < n
            invariant
                i <= n,
                n == self.outstanding@.len(),
                found is Some <==> spec_outstanding(self.outstanding@.subrange(0, i as int), corr_id),
                !spec_outstanding(kept@, corr_id),
            decreases n - i,
        {
            let ghost prefix = self.outstanding@.subrange(0, i as int);
            let ghost kept_old = kept@;
            let entry = self.outstanding[i];
            if entry.0 == corr_id {
                match found {
                    None => {
                        let sent = entry.1;
                        found = Some(
                            if now_ns >= sent {
                                now_ns - sent
                            } else {
                                0
                            },
                        );
                    },
                    Some(_) => {},
                }
            } else {
                kept.push(entry);
                proof {
                    assert forall|j: int| 0 <= j < kept@.len() implies (#[trigger] kept@[j]).0
                        != corr_id by {
                        if j < kept_old.len() {
                            assert(kept@[j] == kept_old[j]);
                            assert(!spec_outstanding(kept_old, corr_id));
                            if kept_old[j].0 == corr_id {
                                assert(spec_outstanding(kept_old, corr_id));
                            }
                        }
                    }
                    if spec_outstanding(kept@, corr_id) {
                        let w = choose|w: int|
                            0 <= w < kept@.len() && (#[trigger] kept@[w]).0 == corr_id;
                    }
                }
            }
            i = i + 1;
            proof {
                let prefix2 = self.outstanding@.subrange(0, i as int);
                assert(prefix2 =~= prefix.push(self.outstanding@[i - 1]));
                if entry.0 == corr_id {
                    assert(prefix2[i - 1].0 == corr_id);
                    assert(spec_outstanding(prefix2, corr_id));
                } else {
                    if spec_outstanding(prefix2, corr_id) {
                        let w = choose|w: int|
                            0 <= w < prefix2.len() && (#[trigger] prefix2[w]).0 == corr_id;
                        if w < prefix.len() {
                            assert(prefix[w].0 == corr_id);
                            assert(spec_outstanding(prefix, corr_id));
                        } else {
                            assert(prefix2[w] == self.outstanding@[i - 1]);
                        }
                    }
                    if spec_outstanding(prefix, corr_id) {
                        let w = choose|w: int|
                            0 <= w < prefix.len() && (#[trigger] prefix[w]).0 == corr_id;
                        assert(prefix2[w].0 == corr_id);
                        assert(spec_outstanding(prefix2, corr_id));
                    }
                }
            }
        }
        proof {
            assert(self.outstanding@.subrange(0, n as int) =~= self.outstanding@);
        }
        self.outstanding = kept;
        found
    }

    /// Answer a pong against the current clock reading.
    pub fn process_pong(&mut self, corr_id: u64) -> (r: Option<u64>)
        ensures
            r is Some <==> spec_outstanding(old(self).outstanding@, corr_id),
            !spec_outstanding(final(self).outstanding@, corr_id),
    {
        let now = now_nanos();
        self.process_pong_at(corr_id, now)
    }
}

} // verus!
