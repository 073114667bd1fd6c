//! The session manager's decision core: message envelopes, the broadcast
//! cache, classification of outbound traffic, broadcast flooding plans,
//! routing-failure bookkeeping, and data-frame construction. The channels
//! and sockets that carry the results live outside the library.

use vstd::prelude::*;

use crate::clock::unix_now_secs;
use crate::codec::FrameBuilder;
use crate::errors::CodecError;
use crate::errors::WireError;
use crate::failure_tracker::RoutingFailureTracker;
use crate::frame::spec_frame_decode;
use crate::frame::FrameView;
use crate::frame::MAX_META_SIZE;
use crate::header::FastHeader;
use crate::header::FrameType;
use crate::meta::bytes_eq;
use crate::meta::MetaMap;
use crate::meta::spec_meta_lookup;
use crate::router::RoutingDecision;
use crate::table::RoutingTable;
use vstd::string::StringSliceAdditionalSpecFns;
use vstd::string::StrSliceExecFns;

verus! {

/// The correlation ID reserved for session termination messages.
pub const TERMINATION_CORR_ID: u64 = 0xFFFF_FFFF_FFFF_FFFE;

/// The correlation ID reserved for topology updates carried as messages.
pub const TOPOLOGY_CORR_ID: u64 = 0xFFFF_FFFF_FFFF_FFFF;

/// A message on its way out of this node.
#[derive(Debug, Clone, PartialEq, Eq)]
pub struct OutboundMessage {
    /// The original sender.
    pub src_node: u64,
    /// The destination; zero is a broadcast.
    pub dst_node: u64,
    /// The payload.
    pub payload: Vec<u8>,
    /// Application headers.
    pub headers: Vec<(String, Vec<u8>)>,
    /// Correlation ID.
    pub corr_id: u64,
    /// The tracked message ID, when the message is tracked.
    pub msg_id: Option<u64>,
    /// Whether a client acknowledgment is required.
    pub require_ack: bool,
    /// The broadcast's own ID, for duplicate suppression; zero counts as
    /// unset.
    pub broadcast_id: Option<u64>,
    /// How many more hops a broadcast may take.
    pub broadcast_ttl: Option<u8>,
    /// Whether the message floods to every node.
    pub is_broadcast: bool,
}

/// The header value stored under `key`, when one is.
pub open spec fn spec_header_lookup(headers: Seq<(String, Vec<u8>)>, key: Seq<u8>) -> Option<
    Seq<u8>,
>
    decreases headers.len(),
{
    if headers.len() == 0 {
        None
    } else if vstd::utf8::encode_utf8(headers[0].0@) == key {
        Some(headers[0].1@)
    } else {
        spec_header_lookup(headers.subrange(1, headers.len() as int), key)
    }
}

/// Find the header value stored under `key`.
pub fn header_lookup<'a>(headers: &'a Vec<(String, Vec<u8>)>, key: &str) -> (r: Option<
    &'a Vec<u8>,
>)
    ensures
        match r {
            Some(v) => spec_header_lookup(headers@, key.spec_bytes()) == Some(v@),
            None => spec_header_lookup(headers@, key.spec_bytes()) is None,
        },
{
    let n = headers.len();
    proof {
        assert(headers@.subrange(0, headers@.len() as int) =~= headers@);
    }
    let mut i: usize = 0;
    while i < n
        invariant
            i <= n,
            n == headers@.len(),
            spec_header_lookup(headers@, key.spec_bytes()) == spec_header_lookup(
                headers@.subrange(i as int, headers@.len() as int),
                key.spec_bytes(),
            ),
        decreases n - i,
    {
        let ghost rest = headers@.subrange(i as int, headers@.len() as int);
        proof {
            assert(rest[0] == headers@[i as int]);
            assert(rest.subrange(1, rest.len() as int) =~= headers@.subrange(
                i + 1,
                headers@.len() as int,
            ));
        }
        if bytes_eq(headers[i].0.as_str().as_bytes(), key.as_bytes()) {
            return Some(&headers[i].1);
        }
        i = i + 1;
    }
    proof {
        assert(headers@.subrange(n as int, n as int) =~= Seq::<(String, Vec<u8>)>::empty());
    }
    None
}

impl OutboundMessage {
    /// The reserved message that tells a session to close cleanly.
    pub fn create_termination_message(local_node_id: u64, target_node_id: u64) -> (r:
        OutboundMessage)
        ensures
            r.src_node == local_node_id,
            r.dst_node == target_node_id,
            r.corr_id == TERMINATION_CORR_ID,
            r.msg_id is None,
            !r.require_ack && !r.is_broadcast,
            r.broadcast_id is None && r.broadcast_ttl is None,
            r.payload@.len() == 0,
            spec_header_lookup(r.headers@, "frame_type".spec_bytes()) == Some(
                "session_terminate".spec_bytes(),
            ),
    {
        let mut headers: Vec<(String, Vec<u8>)> = Vec::new();
        let key: String = "frame_type".to_owned();
        let value: Vec<u8> = "session_terminate".as_bytes_vec();
        headers.push((key, value));
        proof {
            assert(vstd::utf8::encode_utf8(headers@[0].0@) == "frame_type".spec_bytes());
            assert(headers@.subrange(1, 1) =~= Seq::<(String, Vec<u8>)>::empty());
        }
        OutboundMessage {
            src_node: local_node_id,
            dst_node: target_node_id,
            payload: Vec::new(),
            headers,
            corr_id: TERMINATION_CORR_ID,
            msg_id: None,
            require_ack: false,
            broadcast_id: None,
            broadcast_ttl: None,
            is_broadcast: false,
        }
    }

    /// Whether this is the reserved termination message: the reserved
    /// correlation ID together with the terminating header.
    pub fn is_termination_message(&self) -> (r: bool)
        ensures
            r == (self.corr_id == TERMINATION_CORR_ID && spec_header_lookup(
                self.headers@,
                "frame_type".spec_bytes(),
            ) == Some("session_terminate".spec_bytes())),
    {
        if self.corr_id != TERMINATION_CORR_ID {
            return false;
        }
        match header_lookup(&self.headers, "frame_type") {
            Some(v) => bytes_eq(v.as_slice(), "session_terminate".as_bytes()),
            None => false,
        }
    }
}

/// A message arriving at this node.
#[derive(Debug, Clone, PartialEq, Eq)]
pub struct InboundMessage {
    /// The original sender.
    pub src_node: u64,
    /// The destination.
    pub dst_node: u64,
    /// The payload.
    pub payload: Vec<u8>,
    /// Application headers.
    pub headers: Vec<(String, Vec<u8>)>,
    /// Correlation ID.
    pub corr_id: u64,
    /// The sender's message ID, when it carried one.
    pub msg_id: Option<u64>,
    /// Whether a client acknowledgment is required.
    pub require_ack: bool,
}

/// What surrounding components implement to hear about session and
/// routing events; the manager's callers drive these on the outcomes the
/// library hands back.
pub trait MeshEventHandler {
    /// A session to a peer was added.
    fn notify_session_added(&self, peer_node_id: u64, remote_addr: String);

    /// A session to a peer was removed.
    fn notify_session_removed(&self, peer_node_id: u64, reason: String);

    /// A session was judged interrupted after repeated failures.
    fn notify_session_interrupted(&self, peer_node_id: u64, reason: String);

    /// A previously interrupted session recovered.
    fn notify_session_recovered(&self, peer_node_id: u64);

    /// Routing toward a destination failed.
    fn notify_routing_failure(&self, dst_node: u64, reason: String, consecutive_failures: u32);
}

/// Feedback about the routing of one tracked message.
#[derive(Debug, Clone, PartialEq, Eq)]
pub struct RoutingFeedback {
    /// The tracked message.
    pub msg_id: u64,
    /// What routing decided.
    pub decision: RoutingDecision,
    /// A short account of the decision.
    pub message: String,
}

/// Suppression cache for broadcast duplicates: each seen
/// `(source, broadcast ID)` with when it was first seen.
#[derive(Debug)]
pub struct BroadcastCache {
    /// Seen broadcasts: source, broadcast ID, first seen (seconds).
    pub entries: Vec<(u64, u64, u64)>,
}

/// Whether the cache holds `(src_node, broadcast_id)`.
pub open spec fn spec_cache_contains(entries: Seq<(u64, u64, u64)>, src_node: u64, broadcast_id: u64)
    -> bool {
    exists|i: int|
        0 <= i < entries.len() && (#[trigger] entries[i]).0 == src_node && entries[i].1
            == broadcast_id
}

impl BroadcastCache {
    /// An empty cache.
    pub fn new() -> (r: BroadcastCache)
        ensures
            r.entries@.len() == 0,
    {
        BroadcastCache { entries: Vec::new() }
    }

    /// Whether the broadcast has been seen.
    pub fn contains(&self, src_node: u64, broadcast_id: u64) -> (r: bool)
        ensures
            r == spec_cache_contains(self.entries@, src_node, broadcast_id),
    {
        let n = self.entries.len();
        let mut i: usize = 0;
        while i < n
            invariant
                i <= n,
                n == self.entries@.len(),
                forall|j: int|
                    0 <= j < i ==> !((#[trigger] self.entries@[j]).0 == src_node
                        && self.entries@[j].1 == broadcast_id),
            decreases n - i,
        {
            if self.entries[i].0 == src_node && self.entries[i].1 == broadcast_id {
                return true;
            }
            i = i + 1;
        }
        proof {
            if spec_cache_contains(self.entries@, src_node, broadcast_id) {
                let w = choose|w: int|
                    0 <= w < self.entries@.len() && (#[trigger] self.entries@[w]).0 == src_node
                        && self.entries@[w].1 == broadcast_id;
            }
        }
        false
    }

    /// Record a broadcast first seen at clock reading `now`.
    pub fn insert_at(&mut self, src_node: u64, broadcast_id: u64, now: u64)
        ensures
            spec_cache_contains(final(self).entries@, src_node, broadcast_id),
    {
        self.entries.push((src_node, broadcast_id, now));
        proof {
            assert(self.entries@[self.entries@.len() - 1].0 == src_node);
        }
    }

    /// Record a broadcast first seen now.
    pub fn insert(&mut self, src_node: u64, broadcast_id: u64)
        ensures
            spec_cache_contains(final(self).entries@, src_node, broadcast_id),
    {
        let now = unix_now_secs();
        self.insert_at(src_node, broadcast_id, now);
    }

    /// Drop entries older than five minutes, judged at clock reading
    /// `now`.
    pub fn cleanup_expired_at(&mut self, now: u64)
        ensures
            forall|i: int|
                0 <= i < final(self).entries@.len() ==> !(now >= (
                #[trigger] final(self).entries@[i]).2 && now - final(self).entries@[i].2 >= 300),
    {
        let n = self.entries.len();
        let mut kept: Vec<(u64, u64, u64)> = Vec::new();
        let mut i: usize = 0;
        while i < n
            invariant
                i <= n,
                n == self.entries@.len(),
                forall|j: int|
                    0 <= j < kept@.len() ==> !(now >= (#[trigger] kept@[j]).2 && now - kept@[j].2
                        >= 300),
            decreases n - i,
        {
            let entry = self.entries[i];
            if !(now >= entry.2 && now - entry.2 >= 300) {
                kept.push(entry);
            }
            i = i + 1;
        }
        self.entries = kept;
    }

    /// Drop entries older than five minutes.
    pub fn cleanup_expired(&mut self) {
        let now = unix_now_secs();
        self.cleanup_expired_at(now);
    }

    /// How many broadcasts are cached.
    pub fn len(&self) -> (r: usize)
        ensures
            r == self.entries@.len(),
    {
        self.entries.len()
    }
}

/// What an outbound message fundamentally is: a broadcast, traffic for
/// this node, or traffic to route.
#[derive(Debug, Clone, Copy, PartialEq, Eq, Structural)]
pub enum OutboundClass {
    /// Flood it: the destination is zero or it is marked broadcast.
    Broadcast,
    /// Deliver it here.
    Local,
    /// Route it toward its destination.
    Routed,
}

/// The plan for one broadcast: whether it goes up locally, and which
/// sessions it goes out on with what TTL.
#[derive(Debug, Clone, PartialEq, Eq, Structural)]
pub struct BroadcastPlan {
    /// Deliver to local subscribers.
    pub deliver_locally: bool,
    /// Whether the broadcast was dropped as a duplicate.
    pub duplicate: bool,
    /// The TTL for forwarded copies.
    pub forward_ttl: Option<u8>,
    /// Whether forwarding happens at all.
    pub forward: bool,
}

/// The session manager's decision state: the routing table, the connected
/// sessions, failure tracking and broadcast suppression.
#[derive(Debug)]
pub struct SessionManager {
    /// This node's ID.
    pub local_node_id: u64,
    /// The routing table.
    pub routing_table: RoutingTable,
    /// Connected sessions: node ID and remote address.
    pub sessions: Vec<(u64, String)>,
    /// Routing-failure bookkeeping.
    pub failure_tracker: RoutingFailureTracker,
    /// Broadcast suppression.
    pub broadcast_cache: BroadcastCache,
}

/// Whether a session to `node` is registered.
pub open spec fn spec_session_registered(sessions: Seq<(u64, String)>, node: u64) -> bool {
    exists|i: int| 0 <= i < sessions.len() && (#[trigger] sessions[i]).0 == node
}

impl SessionManager {
    /// A manager for `local_node_id` with no sessions, a fresh routing
    /// table, a three-failure tracker over a thirty-second window, and an
    /// empty broadcast cache.
    pub fn new(local_node_id: u64) -> (r: SessionManager)
        ensures
            r.local_node_id == local_node_id,
            r.routing_table.wf(),
            r.routing_table.local_node_id == local_node_id,
            r.sessions@.len() == 0,
            r.failure_tracker.failure_threshold == 3,
            r.failure_tracker.failure_window_ms == 30_000,
            r.broadcast_cache.entries@.len() == 0,
    {
        SessionManager {
            local_node_id,
            routing_table: RoutingTable::new(local_node_id),
            sessions: Vec::new(),
            failure_tracker: RoutingFailureTracker::new(3, 30_000),
            broadcast_cache: BroadcastCache::new(),
        }
    }

    /// Register a connected session.
    pub fn register_session(&mut self, remote_node_id: u64, remote_addr: String)
        ensures
            spec_session_registered(final(self).sessions@, remote_node_id),
            final(self).local_node_id == old(self).local_node_id,
            final(self).routing_table == old(self).routing_table,
    {
        self.sessions.push((remote_node_id, remote_addr));
        proof {
            assert(self.sessions@[self.sessions@.len() - 1].0 == remote_node_id);
        }
    }

    /// Drop the session of `remote_node_id`.
    pub fn unregister_session(&mut self, remote_node_id: u64)
        ensures
            !spec_session_registered(final(self).sessions@, remote_node_id),
            final(self).local_node_id == old(self).local_node_id,
            final(self).routing_table == old(self).routing_table,
    {
        let n = self.sessions.len();
        let mut kept: Vec<(u64, String)> = Vec::new();
        let mut i: usize = 0;
        while i < n
            invariant
                i <= n,
                n == self.sessions@.len(),
                self.local_node_id == old(self).local_node_id,
                self.routing_table == old(self).routing_table,
                forall|j: int| 0 <= j < kept@.len() ==> (#[trigger] kept@[j]).0 != remote_node_id,
            decreases n - i,
        {
            let ghost kept_old = kept@;
            if self.sessions[i].0 != remote_node_id {
                let node = self.sessions[i].0;
                let addr = self.sessions[i].1.clone();
                kept.push((node, addr));
                proof {
                    assert forall|j: int| 0 <= j < kept@.len() implies (#[trigger] kept@[j]).0
                        != remote_node_id by {
                        if j < kept_old.len() {
                            assert(kept@[j] == kept_old[j]);
                        }
                    }
                }
            }
            i = i + 1;
        }
        self.sessions = kept;
        proof {
            if spec_session_registered(self.sessions@, remote_node_id) {
                let w = choose|w: int|
                    0 <= w < self.sessions@.len() && (#[trigger] self.sessions@[w]).0
                        == remote_node_id;
            }
        }
    }

    /// The node IDs of all registered sessions, in registration order.
    pub fn session_nodes(&self) -> (r: Vec<u64>)
        ensures
            r@ == self.sessions@.map_values(|s: (u64, String)| s.0),
    {
        let mut out: Vec<u64> = Vec::new();
        let n = self.sessions.len();
        let mut i: usize = 0;
        while i < n
            invariant
                i <= n,
                n == self.sessions@.len(),
                out@ == self.sessions@.map_values(|s: (u64, String)| s.0).subrange(0, i as int),
            decreases n - i,
        {
            out.push(self.sessions[i].0);
            i = i + 1;
            assert(out@ =~= self.sessions@.map_values(|s: (u64, String)| s.0).subrange(
                0,
                i as int,
            ));
        }
        assert(out@ =~= self.sessions@.map_values(|s: (u64, String)| s.0));
        out
    }

    /// What kind of traffic an outbound message is: a broadcast when its
    /// destination is zero or it is marked one, local when addressed
    /// here, else routed.
    pub fn classify_outbound(&self, message: &OutboundMessage) -> (r: OutboundClass)
        ensures
            message.dst_node == 0 || message.is_broadcast ==> r == OutboundClass::Broadcast,
            message.dst_node != 0 && !message.is_broadcast && message.dst_node
                == self.local_node_id ==> r == OutboundClass::Local,
            message.dst_node != 0 && !message.is_broadcast && message.dst_node
                != self.local_node_id ==> r == OutboundClass::Routed,
    {
        if message.dst_node == 0 || message.is_broadcast {
            OutboundClass::Broadcast
        } else if message.dst_node == self.local_node_id {
            OutboundClass::Local
        } else {
            OutboundClass::Routed
        }
    }

    /// Plan a broadcast at clock reading `now`. A duplicate — a nonzero
    /// broadcast ID already cached — goes nowhere. A fresh broadcast is
    /// recorded, goes up locally exactly once, and goes out to every
    /// session except its source with the TTL lowered by one — except
    /// that a spent TTL stops all forwarding while local delivery still
    /// happens.
    pub fn plan_broadcast_at(&mut self, message: &OutboundMessage, now: u64) -> (r: BroadcastPlan)
        ensures
            final(self).local_node_id == old(self).local_node_id,
            final(self).routing_table == old(self).routing_table,
            final(self).sessions@ == old(self).sessions@,
            ({
                let dup = match message.broadcast_id {
                    Some(id) => id != 0 && spec_cache_contains(
                        old(self).broadcast_cache.entries@,
                        message.src_node,
                        id,
                    ),
                    None => false,
                };
                &&& r.duplicate == dup
                &&& (dup ==> !r.deliver_locally && !r.forward)
                &&& (!dup ==> r.deliver_locally)
                &&& (!dup && message.broadcast_ttl == Some(0u8) ==> !r.forward)
                &&& (!dup && message.broadcast_ttl is None ==> r.forward && r.forward_ttl is None)
                &&& (!dup && (match message.broadcast_ttl {
                    Some(t) => t > 0,
                    None => false,
                }) ==> r.forward && r.forward_ttl == Some(
                    (message.broadcast_ttl.unwrap() - 1) as u8,
                ))
                &&& (message.broadcast_id matches Some(id) ==> (!dup && id != 0
                    ==> spec_cache_contains(
                    final(self).broadcast_cache.entries@,
                    message.src_node,
                    id,
                )))
                &&& (dup ==> final(self).broadcast_cache == old(self).broadcast_cache)
            }),
    {
        let duplicate = match message.broadcast_id {
            Some(id) => id != 0 && self.broadcast_cache.contains(message.src_node, id),
            None => false,
        };
        if duplicate {
            return BroadcastPlan {
                deliver_locally: false,
                duplicate: true,
                forward_ttl: None,
                forward: false,
            };
        }
        match message.broadcast_id {
            Some(id) => {
                if id != 0 {
                    self.broadcast_cache.insert_at(message.src_node, id, now);
                }
            },
            None => {},
        }
        match message.broadcast_ttl {
            Some(ttl) => {
                if ttl == 0 {
                    BroadcastPlan {
                        deliver_locally: true,
                        duplicate: false,
                        forward_ttl: None,
                        forward: false,
                    }
                } else {
                    BroadcastPlan {
                        deliver_locally: true,
                        duplicate: false,
                        forward_ttl: Some(ttl - 1),
                        forward: true,
                    }
                }
            },
            None => BroadcastPlan {
                deliver_locally: true,
                duplicate: false,
                forward_ttl: None,
                forward: true,
            },
        }
    }
}

/// Build the wire frame of an outbound message: a topology-update frame
/// when the `frame_type` header says so, else a data frame; `require_ack`
/// rides in metadata as the text `"true"`, the remaining headers ride as
/// byte values, and the payload is carried as given. On success the bytes
/// decode back to a frame with the message's source, destination,
/// correlation ID, tracked message ID (zero when untracked) and payload.
#[verifier::rlimit(60)]
#[verifier::spinoff_prover]
pub fn build_data_frame(local_node_id: u64, message: &OutboundMessage) -> (r: Result<
    Vec<u8>,
    CodecError,
>)
    ensures
        r matches Err(e) ==> (e matches CodecError::Wire(we) && we matches WireError::Size(_)),
        message.headers@.len() == 0 && !message.require_ack && message.payload@.len() + 57
            <= 65536 ==> r is Ok,
        r matches Ok(bytes) ==> (spec_frame_decode(bytes@, 65536) matches Ok(Some((f, n))) && ({
            &&& f.fast.src_node == message.src_node
            &&& f.fast.dst_node == message.dst_node
            &&& f.fast.corr_id == message.corr_id
            &&& f.fast.msg_id == (match message.msg_id {
                Some(id) => id,
                None => 0,
            })
            &&& f.fast.typ == (if spec_header_lookup(
                message.headers@,
                "frame_type".spec_bytes(),
            ) == Some("topology_update".spec_bytes()) {
                FrameType::TopologyUpdate
            } else {
                FrameType::Data
            })
            &&& f.payload_or_cipher == message.payload@
            &&& n == bytes@.len()
        })),
{
    let is_topology = match header_lookup(&message.headers, "frame_type") {
        Some(v) => bytes_eq(v.as_slice(), "topology_update".as_bytes()),
        None => false,
    };
    let frame_type = if is_topology {
        FrameType::TopologyUpdate
    } else {
        FrameType::Data
    };
    let msg_id = match message.msg_id {
        Some(id) => id,
        None => 0,
    };
    let mut header = FastHeader::new(frame_type, message.src_node, message.dst_node, msg_id);
    header.corr_id = message.corr_id;
    let mut builder = FrameBuilder::new(header);
    if message.require_ack {
        builder = builder.meta_insert_str("require_ack", "true");
    }
    let n = message.headers.len();
    let mut i: usize = 0;
    while i < n
        invariant
            i <= n,
            n == message.headers@.len(),
            builder.wf(),
            builder.fast == (FastHeader { corr_id: message.corr_id, ..header }),
            builder.hint_tlv is None,
            builder.payload@.len() == 0,
            message.headers@.len() == 0 && !message.require_ack ==> builder.meta.map@
                =~= Seq::<(Seq<u8>, crate::meta::MetaValueView)>::empty(),
        decreases n - i,
    {
        let key_is_frame_type = bytes_eq(
            message.headers[i].0.as_str().as_bytes(),
            "frame_type".as_bytes(),
        );
        if !key_is_frame_type {
            builder = builder.meta_insert_bytes(
                message.headers[i].0.as_str(),
                message.headers[i].1.as_slice(),
            );
        }
        i = i + 1;
    }
    let mut payload: Vec<u8> = Vec::new();
    crate::meta::append_bytes(&mut payload, message.payload.as_slice());
    builder = builder.payload(payload);
    let ghost final_builder = builder;
    match builder.build(65536) {
        Ok(bytes) => {
            proof {
                let m = choose|m: Seq<(Seq<u8>, crate::meta::MetaValueView)>|
                    {
                        &&& #[trigger] crate::codec::build_meta_ok(final_builder, m)
                        &&& crate::codec::spec_built_frame(
                            final_builder,
                            m,
                        ).spec_encoded_size() <= 65536
                        &&& bytes@ == crate::frame::spec_frame_bytes(
                            crate::codec::spec_built_frame(final_builder, m),
                        )
                    };
                lemma_built_data_frame_decodes(final_builder, m, bytes@);
            }
            Ok(bytes)
        },
        Err(e) => {
            proof {
                let m = choose|m: Seq<(Seq<u8>, crate::meta::MetaValueView)>|
                    {
                        &&& #[trigger] crate::codec::build_meta_ok(final_builder, m)
                        &&& crate::codec::spec_built_frame(final_builder, m).spec_encoded_size()
                            > 65536
                        &&& e == CodecError::Wire(
                            WireError::Size(
                                crate::codec::spec_built_frame(
                                    final_builder,
                                    m,
                                ).spec_encoded_size() as usize,
                            ),
                        )
                    };
                if message.headers@.len() == 0 && !message.require_ack && message.payload@.len()
                    + 57 <= 65536 {
                    let fl = crate::header::FLAG_HDR_CHECKSUM;
                    assert(0u16 & fl == 0) by (bit_vector);
                    assert(final_builder.fast.flags == 0);
                    assert(m == final_builder.meta.map@);
                    assert(m =~= Seq::<(Seq<u8>, crate::meta::MetaValueView)>::empty());
                    crate::meta::lemma_cbor_head_len(crate::meta::CBOR_BASE_MAP, 0);
                    assert(crate::meta::spec_encode_map(m).len() == 1);
                    let bf = crate::codec::spec_built_frame(final_builder, m);
                    assert(bf.hint_bytes().len() == 0);
                    assert(bf.meta_raw.len() == 1);
                    assert(bf.payload_or_cipher == message.payload@);
                    assert(bf.spec_encoded_size() == 57 + message.payload@.len());
                    assert(false);
                }
            }
            Err(e)
        },
    }
}

/// Read a data frame's application metadata: whether the `require_ack`
/// entry is the text `true`, and every other text or byte entry as an
/// application header under its key, in stored order.
pub fn extract_data_meta(meta: &MetaMap) -> (r: (bool, Vec<(Vec<u8>, Vec<u8>)>))
    ensures
        r.0 == (spec_meta_lookup(meta@, "require_ack".spec_bytes()) == Some(
            crate::meta::MetaValueView::Text("true".spec_bytes()),
        )),
        forall|i: int|
            0 <= i < r.1@.len() ==> ((#[trigger] r.1@[i]).0@ != "require_ack".spec_bytes()
                && exists|j: int|
                0 <= j < meta@.len() && (#[trigger] meta@[j]).0 == r.1@[i].0@ && (meta@[j].1
                    == crate::meta::MetaValueView::Text(r.1@[i].1@) || meta@[j].1
                    == crate::meta::MetaValueView::Bytes(r.1@[i].1@))),
{
    let require_ack = match meta.get("require_ack".as_bytes()) {
        Some(crate::meta::MetaValue::Text(t)) => bytes_eq(t.as_slice(), "true".as_bytes()),
        _ => false,
    };
    let mut headers: Vec<(Vec<u8>, Vec<u8>)> = Vec::new();
    let n = meta.entries.len();
    let mut i: usize = 0;
    while i < n
        invariant
            i <= n,
            n == meta.entries@.len(),
            meta@.len() == meta.entries@.len(),
            forall|k: int|
                0 <= k < meta@.len() ==> #[trigger] meta@[k] == (
                meta.entries@[k].0@,
                meta.entries@[k].1@,
            ),
            forall|a: int|
                0 <= a < headers@.len() ==> ((#[trigger] headers@[a]).0@
                    != "require_ack".spec_bytes() && exists|j: int|
                    0 <= j < meta@.len() && (#[trigger] meta@[j]).0 == headers@[a].0@ && (
                    meta@[j].1 == crate::meta::MetaValueView::Text(headers@[a].1@) || meta@[j].1
                        == crate::meta::MetaValueView::Bytes(headers@[a].1@))),
        decreases n - i,
    {
        let key_is_ack = bytes_eq(meta.entries[i].0.as_slice(), "require_ack".as_bytes());
        if !key_is_ack {
            let mut key: Vec<u8> = Vec::new();
            crate::meta::append_bytes(&mut key, meta.entries[i].0.as_slice());
            match &meta.entries[i].1 {
                crate::meta::MetaValue::Bytes(b) => {
                    let mut value: Vec<u8> = Vec::new();
                    crate::meta::append_bytes(&mut value, b.as_slice());
                    headers.push((key, value));
                    proof {
                        assert(meta@[i as int].0 == headers@[headers@.len() - 1].0@);
                    }
                },
                crate::meta::MetaValue::Text(t) => {
                    let mut value: Vec<u8> = Vec::new();
                    crate::meta::append_bytes(&mut value, t.as_slice());
                    headers.push((key, value));
                    proof {
                        assert(meta@[i as int].0 == headers@[headers@.len() - 1].0@);
                    }
                },
                _ => {},
            }
        }
        i = i + 1;
    }
    (require_ack, headers)
}

/// The outbound form of an arrived data frame: addressing and
/// correlation from the fast header, a zero message ID meaning
/// untracked, the payload as carried, and no broadcast marks.
pub fn data_frame_to_message(
    frame: &crate::frame::Frame,
    require_ack: bool,
    headers: Vec<(String, Vec<u8>)>,
) -> (r: OutboundMessage)
    ensures
        r.src_node == frame.fast.src_node,
        r.dst_node == frame.fast.dst_node,
        r.payload@ == frame.payload_or_cipher@,
        r.corr_id == frame.fast.corr_id,
        r.msg_id == (if frame.fast.msg_id != 0 {
            Some(frame.fast.msg_id)
        } else {
            None::<u64>
        }),
        r.require_ack == require_ack,
        r.headers@ == headers@,
        r.broadcast_id is None && r.broadcast_ttl is None && !r.is_broadcast,
{
    let mut payload: Vec<u8> = Vec::new();
    crate::meta::append_bytes(&mut payload, frame.payload_or_cipher.as_slice());
    OutboundMessage {
        src_node: frame.fast.src_node,
        dst_node: frame.fast.dst_node,
        payload,
        headers,
        corr_id: frame.fast.corr_id,
        msg_id: if frame.fast.msg_id != 0 {
            Some(frame.fast.msg_id)
        } else {
            None
        },
        require_ack,
        broadcast_id: None,
        broadcast_ttl: None,
        is_broadcast: false,
    }
}

/// A frame assembled by a hintless builder with a valid header decodes
/// back to exactly the built frame, when it fits the size bound.
#[verifier::rlimit(100)]
#[verifier::spinoff_prover]
pub proof fn lemma_built_data_frame_decodes(
    b: FrameBuilder,
    m: Seq<(Seq<u8>, crate::meta::MetaValueView)>,
    bytes: Seq<u8>,
)
    requires
        b.fast.wf(),
        b.fast.hdr_hint_len == 0,
        b.hint_tlv is None,
        crate::codec::build_meta_ok(b, m),
        crate::codec::spec_built_frame(b, m).spec_encoded_size() <= 65536,
        bytes == crate::frame::spec_frame_bytes(crate::codec::spec_built_frame(b, m)),
    ensures
        spec_frame_decode(bytes, 65536) == Ok::<Option<(FrameView, int)>, crate::errors::WireError>(
            Some((crate::codec::spec_built_frame(b, m), bytes.len() as int)),
        ),
{
    let f = crate::codec::spec_built_frame(b, m);
    assert(f.wf()) by {
        assert(f.meta_raw.len() <= MAX_META_SIZE) by {
            assert(f.spec_encoded_size() <= 65536);
        }
    }
    assert(f.spec_encoded_size() - 4 <= 65536);
    assert(f.spec_encoded_size() <= u32::MAX);
    crate::frame::lemma_frame_round_trip(f, 65536);
    assert(bytes.len() == f.spec_encoded_size());
}

} // verus!
