//! The 48-byte fast header that starts every wire frame, and the packed
//! route field. A consumer that only needs routing information reads these
//! 48 bytes and forwards the frame without touching metadata or payload.

use vstd::prelude::*;

use crate::bytes_be::spec_u16_be;
use crate::bytes_be::spec_u16_from_be;
use crate::bytes_be::spec_u32_be;
use crate::bytes_be::spec_u32_from_be;
use crate::bytes_be::spec_u64_be;
use crate::bytes_be::spec_u64_from_be;
use crate::bytes_be::u16_to_be_bytes;
use crate::bytes_be::u32_to_be_bytes;
use crate::bytes_be::u64_to_be_bytes;
use crate::bytes_be::u16_from_be_bytes;
use crate::bytes_be::u32_from_be_bytes;
use crate::bytes_be::u64_from_be_bytes;
use crate::bytes_be::lemma_u16_be_round_trip;
use crate::bytes_be::lemma_u32_be_round_trip;
use crate::bytes_be::lemma_u64_be_round_trip;
use crate::checksum::crc32;
use crate::checksum::crc32_of;
use crate::errors::WireError;
use crate::FAST_HEADER_SIZE;
use crate::WIRE_VERSION;

verus! {

/// Flag bit: payload is a chunk of a larger message.
pub const FLAG_CHUNKED: u16 = 1;

/// Flag bit: last chunk for this message ID.
pub const FLAG_CHUNK_END: u16 = 2;

/// Flag bit: payload is end-to-end encrypted.
pub const FLAG_E2E_ENC: u16 = 4;

/// Flag bit: payload is compressed.
pub const FLAG_COMPRESSED: u16 = 8;

/// Flag bit: do not rehash the ECMP choice on forward.
pub const FLAG_ROUTE_LOCK: u16 = 16;

/// Flag bit: metadata carries a header checksum under `hdr_csum`.
pub const FLAG_HDR_CHECKSUM: u16 = 32;

/// All defined flag bits; any other bit is rejected on decode.
pub const FLAGS_ALL: u16 = 63;

/// Frame types of the wire protocol.
#[derive(Debug, Clone, Copy, PartialEq, Eq, Structural)]
pub enum FrameType {
    /// Data frame.
    Data,
    /// Cumulative acknowledgment frame.
    Ack,
    /// Credit grant for flow control.
    Credit,
    /// Keepalive ping.
    Ping,
    /// Keepalive pong.
    Pong,
    /// Session establishment.
    Hello,
    /// Session resumption after reconnect.
    Resume,
    /// Graceful shutdown announcement.
    Drain,
    /// Session termination.
    Bye,
    /// Link-state advertisement.
    TopologyUpdate,
    /// Request for topology information.
    TopologyRequest,
}

impl FrameType {
    /// The wire byte of this frame type.
    pub open spec fn spec_byte(self) -> u8 {
        match self {
            FrameType::Data => 0x00,
            FrameType::Ack => 0x01,
            FrameType::Credit => 0x02,
            FrameType::Ping => 0x03,
            FrameType::Pong => 0x04,
            FrameType::Hello => 0x05,
            FrameType::Resume => 0x06,
            FrameType::Drain => 0x07,
            FrameType::Bye => 0x08,
            FrameType::TopologyUpdate => 0x09,
            FrameType::TopologyRequest => 0x0A,
        }
    }

    /// The frame type read from a wire byte, or the byte that no type has.
    pub open spec fn spec_from_byte(value: u8) -> Result<FrameType, WireError> {
        if value == 0x00 {
            Ok(FrameType::Data)
        } else if value == 0x01 {
            Ok(FrameType::Ack)
        } else if value == 0x02 {
            Ok(FrameType::Credit)
        } else if value == 0x03 {
            Ok(FrameType::Ping)
        } else if value == 0x04 {
            Ok(FrameType::Pong)
        } else if value == 0x05 {
            Ok(FrameType::Hello)
        } else if value == 0x06 {
            Ok(FrameType::Resume)
        } else if value == 0x07 {
            Ok(FrameType::Drain)
        } else if value == 0x08 {
            Ok(FrameType::Bye)
        } else if value == 0x09 {
            Ok(FrameType::TopologyUpdate)
        } else if value == 0x0A {
            Ok(FrameType::TopologyRequest)
        } else {
            Err(WireError::Type(value))
        }
    }

    /// Encode this frame type as its wire byte.
    pub fn as_byte(self) -> (r: u8)
        ensures
            r == self.spec_byte(),
    {
        match self {
            FrameType::Data => 0x00,
            FrameType::Ack => 0x01,
            FrameType::Credit => 0x02,
            FrameType::Ping => 0x03,
            FrameType::Pong => 0x04,
            FrameType::Hello => 0x05,
            FrameType::Resume => 0x06,
            FrameType::Drain => 0x07,
            FrameType::Bye => 0x08,
            FrameType::TopologyUpdate => 0x09,
            FrameType::TopologyRequest => 0x0A,
        }
    }

    /// Decode a frame type from its wire byte; every byte above 0x0A is
    /// rejected with `WireError::Type`.
    pub fn try_from(value: u8) -> (r: Result<FrameType, WireError>)
        ensures
            r == FrameType::spec_from_byte(value),
    {
        match value {
            0x00 => Ok(FrameType::Data),
            0x01 => Ok(FrameType::Ack),
            0x02 => Ok(FrameType::Credit),
            0x03 => Ok(FrameType::Ping),
            0x04 => Ok(FrameType::Pong),
            0x05 => Ok(FrameType::Hello),
            0x06 => Ok(FrameType::Resume),
            0x07 => Ok(FrameType::Drain),
            0x08 => Ok(FrameType::Bye),
            0x09 => Ok(FrameType::TopologyUpdate),
            0x0A => Ok(FrameType::TopologyRequest),
            _ => Err(WireError::Type(value)),
        }
    }
}

/// Status codes for control frames.
#[derive(Debug, Clone, Copy, PartialEq, Eq, Structural)]
pub enum StatusCode {
    /// Success.
    Okay,
    /// Retryable error.
    Retryable,
    /// Fatal error.
    Fatal,
    /// Service busy.
    Busy,
    /// Unsupported operation.
    Unsupported,
}

impl StatusCode {
    /// The wire byte of this status code.
    pub open spec fn spec_byte(self) -> u8 {
        match self {
            StatusCode::Okay => 0,
            StatusCode::Retryable => 1,
            StatusCode::Fatal => 2,
            StatusCode::Busy => 3,
            StatusCode::Unsupported => 4,
        }
    }

    /// The status code read from a wire byte, or the byte that no code has.
    pub open spec fn spec_from_byte(value: u8) -> Result<StatusCode, WireError> {
        if value == 0 {
            Ok(StatusCode::Okay)
        } else if value == 1 {
            Ok(StatusCode::Retryable)
        } else if value == 2 {
            Ok(StatusCode::Fatal)
        } else if value == 3 {
            Ok(StatusCode::Busy)
        } else if value == 4 {
            Ok(StatusCode::Unsupported)
        } else {
            Err(WireError::Code(value))
        }
    }

    /// Encode this status code as its wire byte.
    pub fn as_byte(self) -> (r: u8)
        ensures
            r == self.spec_byte(),
    {
        match self {
            StatusCode::Okay => 0,
            StatusCode::Retryable => 1,
            StatusCode::Fatal => 2,
            StatusCode::Busy => 3,
            StatusCode::Unsupported => 4,
        }
    }

    /// Decode a status code from its wire byte; every byte above 4 is
    /// rejected with `WireError::Code`.
    pub fn try_from(value: u8) -> (r: Result<StatusCode, WireError>)
        ensures
            r == StatusCode::spec_from_byte(value),
    {
        match value {
            0 => Ok(StatusCode::Okay),
            1 => Ok(StatusCode::Retryable),
            2 => Ok(StatusCode::Fatal),
            3 => Ok(StatusCode::Busy),
            4 => Ok(StatusCode::Unsupported),
            _ => Err(WireError::Code(value)),
        }
    }
}

/// The packed route field: priority, class of service, partition and epoch.
#[derive(Debug, Clone, Copy, PartialEq, Eq, Structural)]
pub struct Route {
    /// Priority (0..=7).
    pub prio: u8,
    /// Class of service (0..=31).
    pub class: u8,
    /// Partition hint (0..=1023).
    pub partition: u16,
    /// Topology or policy epoch (0..=16383).
    pub epoch: u16,
}

impl Route {
    /// The components fit their bit widths.
    pub open spec fn wf(self) -> bool {
        self.prio <= 0x07 && self.class <= 0x1F && self.partition <= 0x3FF && self.epoch <= 0x3FFF
    }

    /// The 32-bit packing {prio(3)|class(5)|partition(10)|epoch(14)}.
    pub open spec fn spec_pack(self) -> u32 {
        (((self.prio as u32) << 29) | ((self.class as u32) << 24) | ((self.partition as u32) << 14)
            | (self.epoch as u32)) as u32
    }

    /// The components read back out of a 32-bit packed value.
    pub open spec fn spec_unpack(value: u32) -> Route {
        Route {
            prio: ((value >> 29) & 0x07) as u8,
            class: ((value >> 24) & 0x1F) as u8,
            partition: ((value >> 14) & 0x3FF) as u16,
            epoch: (value & 0x3FFF) as u16,
        }
    }

    /// Build a route; each component is masked down to its bit width.
    pub fn new(prio: u8, class: u8, partition: u16, epoch: u16) -> (r: Route)
        ensures
            r == (Route {
                prio: (prio & 0x07) as u8,
                class: (class & 0x1F) as u8,
                partition: (partition & 0x3FF) as u16,
                epoch: (epoch & 0x3FFF) as u16,
            }),
            r.wf(),
    {
        let r = Route {
            prio: prio & 0x07,
            class: class & 0x1F,
            partition: partition & 0x3FF,
            epoch: epoch & 0x3FFF,
        };
        assert((prio & 0x07) <= 0x07 && (class & 0x1F) <= 0x1F && (partition & 0x3FF) <= 0x3FF
            && (epoch & 0x3FFF) <= 0x3FFF) by (bit_vector);
        r
    }

    /// Pack the components into 32 bits.
    pub fn pack(self) -> (r: u32)
        ensures
            r == self.spec_pack(),
    {
        ((self.prio as u32) << 29) | ((self.class as u32) << 24) | ((self.partition as u32) << 14)
            | (self.epoch as u32)
    }

    /// Unpack a 32-bit value into its components.
    pub fn unpack(value: u32) -> (r: Route)
        ensures
            r == Route::spec_unpack(value),
            r.wf(),
    {
        let r = Route {
            prio: ((value >> 29) & 0x07) as u8,
            class: ((value >> 24) & 0x1F) as u8,
            partition: ((value >> 14) & 0x3FF) as u16,
            epoch: (value & 0x3FFF) as u16,
        };
        proof {
            lemma_route_unpack_wf(value);
        }
        r
    }
}

/// An unpacked route always has components within their bit widths.
pub proof fn lemma_route_unpack_wf(value: u32)
    ensures
        Route::spec_unpack(value).wf(),
{
    assert(((value >> 29) & 0x07) <= 0x07 && ((value >> 24) & 0x1F) <= 0x1F && ((value >> 14)
        & 0x3FF) <= 0x3FF && (value & 0x3FFF) <= 0x3FFF) by (bit_vector);
}

/// Unpacking a packed route yields the components unchanged, whenever each
/// component fits its bit width.
pub proof fn lemma_route_pack_round_trip(r: Route)
    requires
        r.wf(),
    ensures
        Route::spec_unpack(r.spec_pack()) == r,
{
    let p = r.prio;
    let c = r.class;
    let t = r.partition;
    let e = r.epoch;
    let v = r.spec_pack();
    assert(((v >> 29) & 0x07) as u8 == p && ((v >> 24) & 0x1F) as u8 == c && ((v >> 14) & 0x3FF)
        as u16 == t && (v & 0x3FFF) as u16 == e) by (bit_vector)
        requires
            p <= 0x07 && c <= 0x1F && t <= 0x3FF && e <= 0x3FFF && v == (((p as u32) << 29) | ((c
                as u32) << 24) | ((t as u32) << 14) | (e as u32)) as u32,
    ;
}

/// The fixed 48-byte header of every frame, big-endian on the wire.
#[derive(Debug, Clone, Copy, PartialEq, Eq, Structural)]
pub struct FastHeader {
    /// Protocol version; must be 1.
    pub ver: u8,
    /// Frame type.
    pub typ: FrameType,
    /// Flag bits; only the bits of `FLAGS_ALL` may be set.
    pub flags: u16,
    /// Status code for control frames.
    pub code: StatusCode,
    /// Time to live, decremented at each forward; must be nonzero.
    pub ttl: u8,
    /// Reserved; must be zero.
    pub reserved0: u16,
    /// Per-source monotonically increasing message ID.
    pub msg_id: u64,
    /// Correlation ID, or zero.
    pub corr_id: u64,
    /// Source node ID.
    pub src_node: u64,
    /// Destination node ID.
    pub dst_node: u64,
    /// Packed route field.
    pub route: u32,
    /// Length of the optional hint bytes, or zero.
    pub hdr_hint_len: u32,
}

/// The 48 bytes of a fast header in wire order.
pub open spec fn spec_fast_header_bytes(h: FastHeader) -> Seq<u8> {
    seq![h.ver, h.typ.spec_byte()] + spec_u16_be(h.flags) + seq![h.code.spec_byte(), h.ttl]
        + spec_u16_be(h.reserved0) + spec_u64_be(h.msg_id) + spec_u64_be(h.corr_id) + spec_u64_be(
        h.src_node,
    ) + spec_u64_be(h.dst_node) + spec_u32_be(h.route) + spec_u32_be(h.hdr_hint_len)
}

/// What decoding the first 48 bytes of `s` yields: the header, or the first
/// validation error in wire order (version, type, flags, code, reserved,
/// TTL).
pub open spec fn spec_fast_header_decode(s: Seq<u8>) -> Result<FastHeader, WireError> {
    if s.len() < FAST_HEADER_SIZE {
        Err(WireError::Incomplete)
    } else if s[0] != WIRE_VERSION {
        Err(WireError::Version(s[0]))
    } else {
        match FrameType::spec_from_byte(s[1]) {
            Err(e) => Err(e),
            Ok(typ) => {
                let flags = spec_u16_from_be(s.subrange(2, 4));
                if flags & !FLAGS_ALL != 0 {
                    Err(WireError::Reserved)
                } else {
                    match StatusCode::spec_from_byte(s[4]) {
                        Err(e) => Err(e),
                        Ok(code) => {
                            let ttl = s[5];
                            let reserved0 = spec_u16_from_be(s.subrange(6, 8));
                            if reserved0 != 0 {
                                Err(WireError::Reserved)
                            } else if ttl == 0 {
                                Err(WireError::Ttl)
                            } else {
                                Ok(
                                    FastHeader {
                                        ver: s[0],
                                        typ,
                                        flags,
                                        code,
                                        ttl,
                                        reserved0,
                                        msg_id: spec_u64_from_be(s.subrange(8, 16)),
                                        corr_id: spec_u64_from_be(s.subrange(16, 24)),
                                        src_node: spec_u64_from_be(s.subrange(24, 32)),
                                        dst_node: spec_u64_from_be(s.subrange(32, 40)),
                                        route: spec_u32_from_be(s.subrange(40, 44)),
                                        hdr_hint_len: spec_u32_from_be(s.subrange(44, 48)),
                                    },
                                )
                            }
                        },
                    }
                }
            },
        }
    }
}

impl FastHeader {
    /// The header passes validation: version 1, known flag bits only,
    /// reserved zero, nonzero TTL.
    pub open spec fn wf(self) -> bool {
        self.ver == WIRE_VERSION && self.flags & !FLAGS_ALL == 0 && self.reserved0 == 0 && self.ttl
            != 0
    }

    /// Build a header with version 1, empty flags, status `Okay`, the default
    /// TTL of 16, zero correlation ID, zero route and no hint.
    pub fn new(typ: FrameType, src_node: u64, dst_node: u64, msg_id: u64) -> (r: FastHeader)
        ensures
            r == (FastHeader {
                ver: WIRE_VERSION,
                typ,
                flags: 0,
                code: StatusCode::Okay,
                ttl: 16,
                reserved0: 0,
                msg_id,
                corr_id: 0,
                src_node,
                dst_node,
                route: 0,
                hdr_hint_len: 0,
            }),
            r.wf(),
    {
        let r = FastHeader {
            ver: WIRE_VERSION,
            typ,
            flags: 0,
            code: StatusCode::Okay,
            ttl: 16,
            reserved0: 0,
            msg_id,
            corr_id: 0,
            src_node,
            dst_node,
            route: 0,
            hdr_hint_len: 0,
        };
        assert(0u16 & !FLAGS_ALL == 0) by (bit_vector);
        r
    }

    /// The unpacked route components.
    pub fn route_components(&self) -> (r: Route)
        ensures
            r == Route::spec_unpack(self.route),
    {
        Route::unpack(self.route)
    }

    /// Store packed route components.
    pub fn set_route(&mut self, route: Route)
        ensures
            *final(self) == (FastHeader { route: route.spec_pack(), ..*old(self) }),
    {
        self.route = route.pack();
    }

    /// Append the 48 header bytes, big-endian, to `out`.
    pub fn encode(&self, out: &mut Vec<u8>)
        ensures
            final(out)@ == old(out)@ + spec_fast_header_bytes(*self),
    {
        out.push(self.ver);
        out.push(self.typ.as_byte());
        u16_to_be_bytes(self.flags, out);
        out.push(self.code.as_byte());
        out.push(self.ttl);
        u16_to_be_bytes(self.reserved0, out);
        u64_to_be_bytes(self.msg_id, out);
        u64_to_be_bytes(self.corr_id, out);
        u64_to_be_bytes(self.src_node, out);
        u64_to_be_bytes(self.dst_node, out);
        u32_to_be_bytes(self.route, out);
        u32_to_be_bytes(self.hdr_hint_len, out);
        assert(out@ =~= old(out)@ + spec_fast_header_bytes(*self));
    }

    /// Decode and validate a fast header from the first 48 bytes of `buf`.
    pub fn decode(buf: &[u8]) -> (r: Result<FastHeader, WireError>)
        ensures
            r == spec_fast_header_decode(buf@),
    {
        if buf.len() < FAST_HEADER_SIZE {
            return Err(WireError::Incomplete);
        }
        let ver = buf[0];
        if ver != WIRE_VERSION {
            return Err(WireError::Version(ver));
        }
        let typ = match FrameType::try_from(buf[1]) {
            Ok(t) => t,
            Err(e) => {
                return Err(e);
            },
        };
        let flags = u16_from_be_bytes(buf, 2);
        if flags & !FLAGS_ALL != 0 {
            return Err(WireError::Reserved);
        }
        let code = match StatusCode::try_from(buf[4]) {
            Ok(c) => c,
            Err(e) => {
                return Err(e);
            },
        };
        let ttl = buf[5];
        let reserved0 = u16_from_be_bytes(buf, 6);
        if reserved0 != 0 {
            return Err(WireError::Reserved);
        }
        if ttl == 0 {
            return Err(WireError::Ttl);
        }
        Ok(
            FastHeader {
                ver,
                typ,
                flags,
                code,
                ttl,
                reserved0,
                msg_id: u64_from_be_bytes(buf, 8),
                corr_id: u64_from_be_bytes(buf, 16),
                src_node: u64_from_be_bytes(buf, 24),
                dst_node: u64_from_be_bytes(buf, 32),
                route: u32_from_be_bytes(buf, 40),
                hdr_hint_len: u32_from_be_bytes(buf, 44),
            },
        )
    }

    /// Validate version, reserved field and TTL; `Ok` exactly on a
    /// well-formed header whose flags may still hold unknown bits.
    pub fn validate(&self) -> (r: Result<(), WireError>)
        ensures
            self.ver != WIRE_VERSION ==> r == Err::<(), WireError>(
                WireError::Version(self.ver),
            ),
            self.ver == WIRE_VERSION && self.reserved0 != 0 ==> r == Err::<(), WireError>(
                WireError::Reserved,
            ),
            self.ver == WIRE_VERSION && self.reserved0 == 0 && self.ttl == 0 ==> r == Err::<
                (),
                WireError,
            >(WireError::Ttl),
            self.ver == WIRE_VERSION && self.reserved0 == 0 && self.ttl != 0 ==> r == Ok::<
                (),
                WireError,
            >(()),
    {
        if self.ver != WIRE_VERSION {
            return Err(WireError::Version(self.ver));
        }
        if self.reserved0 != 0 {
            return Err(WireError::Reserved);
        }
        if self.ttl == 0 {
            return Err(WireError::Ttl);
        }
        Ok(())
    }

    /// Decrement the TTL for forwarding. Succeeds exactly when the TTL is
    /// at least 2: a TTL that is or would become zero is an error, and a
    /// zero TTL leaves the header unchanged.
    pub fn decrement_ttl(&mut self) -> (r: Result<(), WireError>)
        ensures
            old(self).ttl == 0 ==> *final(self) == *old(self) && r == Err::<(), WireError>(
                WireError::Ttl,
            ),
            old(self).ttl > 0 ==> *final(self) == (FastHeader {
                ttl: (old(self).ttl - 1) as u8,
                ..*old(self)
            }),
            old(self).ttl == 1 ==> r == Err::<(), WireError>(WireError::Ttl),
            old(self).ttl >= 2 ==> r == Ok::<(), WireError>(()),
    {
        if self.ttl == 0 {
            return Err(WireError::Ttl);
        }
        self.ttl = self.ttl - 1;
        if self.ttl == 0 {
            return Err(WireError::Ttl);
        }
        Ok(())
    }
}

/// Decoding the encoded bytes of a well-formed header yields the header.
pub proof fn lemma_fast_header_round_trip(h: FastHeader)
    requires
        h.wf(),
    ensures
        spec_fast_header_decode(spec_fast_header_bytes(h)) == Ok::<FastHeader, WireError>(h),
{
    lemma_u16_be_round_trip();
    lemma_u32_be_round_trip();
    lemma_u64_be_round_trip();
    let s = spec_fast_header_bytes(h);
    assert(s.len() == FAST_HEADER_SIZE);
    assert(s[0] == h.ver);
    assert(s[1] == h.typ.spec_byte());
    assert(s.subrange(2, 4) =~= spec_u16_be(h.flags));
    assert(s[4] == h.code.spec_byte());
    assert(s[5] == h.ttl);
    assert(s.subrange(6, 8) =~= spec_u16_be(h.reserved0));
    assert(s.subrange(8, 16) =~= spec_u64_be(h.msg_id));
    assert(s.subrange(16, 24) =~= spec_u64_be(h.corr_id));
    assert(s.subrange(24, 32) =~= spec_u64_be(h.src_node));
    assert(s.subrange(32, 40) =~= spec_u64_be(h.dst_node));
    assert(s.subrange(40, 44) =~= spec_u32_be(h.route));
    assert(s.subrange(44, 48) =~= spec_u32_be(h.hdr_hint_len));
    assert(FrameType::spec_from_byte(h.typ.spec_byte()) == Ok::<FrameType, WireError>(h.typ));
    assert(StatusCode::spec_from_byte(h.code.spec_byte()) == Ok::<StatusCode, WireError>(h.code));
}

/// CRC32 over the fast-header bytes followed by the hint bytes, as stored
/// in metadata under `hdr_csum` when `FLAG_HDR_CHECKSUM` is set.
pub fn crc32c_fast_header(fast: &FastHeader, hint: Option<&[u8]>) -> (r: u32)
    ensures
        r == crc32_of(
            spec_fast_header_bytes(*fast) + match hint {
                Some(h) => h@,
                None => Seq::<u8>::empty(),
            },
        ),
{
    let mut buf: Vec<u8> = Vec::new();
    fast.encode(&mut buf);
    match hint {
        Some(hint_bytes) => {
            let mut i: usize = 0;
            while i < hint_bytes.len()
                invariant
                    i <= hint_bytes@.len(),
                    buf@ == spec_fast_header_bytes(*fast) + hint_bytes@.subrange(0, i as int),
                decreases hint_bytes@.len() - i,
            {
                buf.push(hint_bytes[i]);
                i = i + 1;
                assert(buf@ =~= spec_fast_header_bytes(*fast) + hint_bytes@.subrange(0, i as int));
            }
            assert(buf@ =~= spec_fast_header_bytes(*fast) + hint_bytes@);
            crc32(buf.as_slice())
        },
        None => {
            assert(buf@ =~= spec_fast_header_bytes(*fast) + Seq::<u8>::empty());
            crc32(buf.as_slice())
        },
    }
}

} // verus!
