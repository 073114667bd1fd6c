//! The application-facing data plane: send validation and queueing, the
//! handling of arriving messages including delivery-status reports, and
//! client acknowledgments. The transport that carries requests in and
//! streams answers out lives outside the library.

use vstd::prelude::*;

use crate::delivery::delivery_status_for;
use crate::delivery::DeliveryQueue;
use crate::delivery::Received;
use crate::ids::MessageIdGenerator;
use crate::manager::OutboundMessage;
use crate::meta::bytes_eq;
use crate::meta::encode_map;
use crate::meta::lemma_wire_literals;
use crate::meta::parse_meta;
use crate::meta::spec_decode_map;
use crate::meta::spec_meta_lookup;
use crate::meta::MetaBuilder;
use crate::meta::MetaValue;
use crate::meta::MetaValueView;
use crate::queue::MessageQueue;
use crate::queue::SendMode;
use crate::topology::spec_node_lookup;
use crate::topology::TopologyDatabase;
use crate::tracker::MessageStatus;
use crate::tracker::MessageStatusInfo;
use vstd::string::StrSliceExecFns;
use vstd::string::StringSliceAdditionalSpecFns;

verus! {

/// A send request from a local application.
#[derive(Debug, Clone, PartialEq, Eq)]
pub struct SendRequest {
    /// The destination node; zero asks for a broadcast.
    pub dst_node: u64,
    /// Application headers.
    pub headers: Vec<(String, Vec<u8>)>,
    /// The payload; must not be empty.
    pub payload: Vec<u8>,
    /// Correlation ID.
    pub corr_id: u64,
    /// Whether a client acknowledgment is required.
    pub require_ack: bool,
    /// How the caller waits.
    pub mode: SendMode,
    /// The caller's timeout in seconds; zero asks for the default.
    pub timeout_seconds: u32,
}

/// The immediate answer to a send.
#[derive(Debug, Clone, PartialEq, Eq)]
pub struct SendResponse {
    /// The assigned message ID.
    pub msg_id: u64,
    /// The status at the time of the answer.
    pub status: MessageStatus,
    /// A short account of the status.
    pub status_message: String,
    /// Whether a client acknowledgment is required.
    pub require_ack: bool,
}

/// A client's acknowledgment of a received message.
#[derive(Debug, Clone, PartialEq, Eq)]
pub struct Ack {
    /// The node the message came from.
    pub src_node: u64,
    /// The acknowledged message.
    pub msg_id: u64,
    /// Whether the client handled it.
    pub success: bool,
    /// The client's account, used on failure.
    pub message: String,
}

/// Why a send was rejected outright.
#[derive(Debug, Clone, Copy, PartialEq, Eq, Structural)]
pub enum SendError {
    /// The destination was zero.
    InvalidDestination,
    /// The payload was empty.
    EmptyPayload,
}

/// Counters describing the data plane.
#[derive(Debug, Clone, Copy, PartialEq, Eq, Structural)]
pub struct MeshDataStats {
    /// This node's ID.
    pub node_id: u64,
    /// Registered subscribers.
    pub subscriber_count: usize,
    /// Acknowledgments recorded for idempotency.
    pub acked_message_count: usize,
}

/// What handling an arriving message amounts to.
#[derive(Debug, Clone, PartialEq, Eq)]
pub enum IncomingOutcome {
    /// The message was addressed elsewhere and was ignored here.
    NotForThisNode,
    /// The message was a delivery-status report and updated the tracker.
    StatusReportApplied,
    /// The message went to local subscribers; how many took it, and the
    /// status report owed to the source, if any.
    DeliveredLocally(usize, Option<OutboundMessage>),
}

/// The data plane of one node.
#[derive(Debug)]
pub struct MeshDataService {
    /// This node's ID.
    pub node_id: u64,
    /// Message ID assignment.
    pub msg_id_gen: MessageIdGenerator,
    /// The local subscribers.
    pub delivery_queue: DeliveryQueue,
    /// The queue and tracker behind send modes and retries.
    pub message_queue: MessageQueue,
    /// Acknowledged `(source, message)` pairs, for idempotent client acks.
    pub acked_messages: Vec<(u64, u64)>,
}

/// The delivery-status report a payload carries, if any: the bytes must
/// decode as one metadata map whose `original_msg_id` and `status`
/// entries are integers, and the status code must name a status.
pub open spec fn spec_delivery_status_of(payload: Seq<u8>) -> Option<(u64, MessageStatus)> {
    match spec_decode_map(payload) {
        None => None,
        Some(m) => match spec_meta_lookup(m, "original_msg_id".spec_bytes()) {
            Some(MetaValueView::U64(id)) => match spec_meta_lookup(m, "status".spec_bytes()) {
                Some(MetaValueView::U64(code)) => match MessageStatus::spec_from_code(code) {
                    Some(st) => Some((id, st)),
                    None => None,
                },
                _ => None,
            },
            _ => None,
        },
    }
}

/// Whether the headers mark a message as a delivery-status report: some
/// header is `message_type` with the value `delivery_status`.
pub open spec fn spec_is_status_report(headers: Seq<crate::delivery::Header>) -> bool {
    exists|i: int|
        0 <= i < headers.len() && vstd::utf8::encode_utf8((#[trigger] headers[i]).key@)
            == "message_type".spec_bytes() && headers[i].value@ == "delivery_status".spec_bytes()
}

/// The payload of a delivery-status report: the original message ID, the
/// status code and its account, as one metadata map under the keys
/// `original_msg_id`, `status` and `status_message`.
pub fn encode_delivery_status(original_msg_id: u64, status: MessageStatus, status_message: &str)
    -> (r: Vec<u8>)
    ensures
        spec_delivery_status_of(r@) == Some((original_msg_id, status)),
{
    let b0 = MetaBuilder::new();
    let b1 = b0.insert_u64("original_msg_id", original_msg_id);
    let b2 = b1.insert_u64("status", status.to_code());
    let builder = b2.insert_str("status_message", status_message);
    let mut out: Vec<u8> = Vec::new();
    encode_map(&builder.map, &mut out);
    proof {
        lemma_wire_literals();
        crate::meta::lemma_meta_round_trip(builder.map@);
        assert(MessageStatus::spec_from_code(status.spec_code()) == Some(status));
    }
    out
}

/// Read a delivery-status report back out of its payload bytes.
pub fn decode_delivery_status(payload: &[u8]) -> (r: Option<(u64, MessageStatus)>)
    ensures
        r == spec_delivery_status_of(payload@),
{
    let meta = match parse_meta(payload) {
        Ok(m) => m,
        Err(_) => {
            return None;
        },
    };
    let original = match meta.get("original_msg_id".as_bytes()) {
        Some(MetaValue::U64(v)) => *v,
        _ => {
            return None;
        },
    };
    let status = match meta.get("status".as_bytes()) {
        Some(MetaValue::U64(code)) => {
            match MessageStatus::from_code(*code) {
                Some(st) => st,
                None => {
                    return None;
                },
            }
        },
        _ => {
            return None;
        },
    };
    Some((original, status))
}

/// The tracked status a routing drop maps to: a missing route leaves the
/// message pending a node that may yet appear; any other drop is final.
pub fn drop_reason_status(reason: crate::router::DropReason) -> (r: MessageStatus)
    ensures
        reason == crate::router::DropReason::NoRoute ==> r == MessageStatus::PendingNode,
        reason != crate::router::DropReason::NoRoute ==> r == MessageStatus::Undeliverable,
{
    match reason {
        crate::router::DropReason::NoRoute => MessageStatus::PendingNode,
        _ => MessageStatus::Undeliverable,
    }
}

impl MeshDataService {
    /// A data plane for `node_id` with no subscribers and an empty queue.
    pub fn new(node_id: u64, message_queue: MessageQueue) -> (r: MeshDataService)
        requires
            message_queue.wf(),
        ensures
            r.node_id == node_id,
            r.message_queue == message_queue,
            r.message_queue.wf(),
            r.delivery_queue.subscribers@.len() == 0,
            r.acked_messages@.len() == 0,
            r.msg_id_gen.next_id == 1,
    {
        MeshDataService {
            node_id,
            msg_id_gen: MessageIdGenerator::new(),
            delivery_queue: DeliveryQueue::new(),
            message_queue,
            acked_messages: Vec::new(),
        }
    }

    /// Whether `dst_node` is this node or known to the topology.
    pub fn is_node_known(&self, dst_node: u64, topology: &TopologyDatabase) -> (r: bool)
        ensures
            r == (dst_node == self.node_id || spec_node_lookup(topology.nodes@, dst_node)
                is Some),
    {
        if dst_node == self.node_id {
            return true;
        }
        match topology.find_node(dst_node) {
            Some(_) => true,
            None => false,
        }
    }

    /// Take a send request at clock reading `now_ms`. A zero destination
    /// or empty payload is rejected outright. A destination that is
    /// neither local nor in the topology is answered as undeliverable at
    /// once, with nothing put on the wire. Otherwise the message is
    /// tracked as queued, enqueued for retry, and handed back for the
    /// session manager, carrying the assigned message ID.
    pub fn send(&mut self, req: SendRequest, topology: &TopologyDatabase, now_ms: u64) -> (r:
        Result<(SendResponse, Option<OutboundMessage>), SendError>)
        requires
            old(self).message_queue.wf(),
        ensures
            final(self).message_queue.wf(),
            final(self).node_id == old(self).node_id,
            req.dst_node == 0 ==> r == Err::<(SendResponse, Option<OutboundMessage>), SendError>(
                SendError::InvalidDestination,
            ),
            req.dst_node != 0 && req.payload@.len() == 0 ==> r == Err::<
                (SendResponse, Option<OutboundMessage>),
                SendError,
            >(SendError::EmptyPayload),
            req.dst_node != 0 && req.payload@.len() > 0 ==> r is Ok,
            r matches Ok((resp, outbound)) ==> ({
                &&& (req.dst_node != old(self).node_id && spec_node_lookup(
                    topology.nodes@,
                    req.dst_node,
                ) is None) ==> (resp.status == MessageStatus::Undeliverable && outbound is None)
                &&& (req.dst_node == old(self).node_id || spec_node_lookup(
                    topology.nodes@,
                    req.dst_node,
                ) is Some) ==> (resp.status == MessageStatus::Queued && (outbound matches Some(msg)
                    && msg.dst_node == req.dst_node && msg.src_node == old(self).node_id
                    && msg.msg_id == Some(resp.msg_id) && msg.require_ack == req.require_ack
                    && msg.payload@ == req.payload@))
                &&& resp.require_ack == req.require_ack
                &&& resp.msg_id == old(self).msg_id_gen.next_id
                &&& (final(self).message_queue.tracker.spec_record(resp.msg_id) matches Some(rec)
                    && rec.status == resp.status)
            }),
    {
        if req.dst_node == 0 {
            return Err(SendError::InvalidDestination);
        }
        if req.payload.len() == 0 {
            return Err(SendError::EmptyPayload);
        }
        let msg_id = self.msg_id_gen.next();
        if !self.is_node_known(req.dst_node, topology) {
            self.message_queue.track_terminal(
                msg_id,
                MessageStatus::Undeliverable,
                "destination node is not known in the mesh topology".to_owned(),
                req.require_ack,
            );
            let response = SendResponse {
                msg_id,
                status: MessageStatus::Undeliverable,
                status_message: "destination node is not known in the mesh topology".to_owned(),
                require_ack: req.require_ack,
            };
            return Ok((response, None));
        }
        let outbound = OutboundMessage {
            src_node: self.node_id,
            dst_node: req.dst_node,
            payload: req.payload,
            headers: req.headers,
            corr_id: req.corr_id,
            msg_id: Some(msg_id),
            require_ack: req.require_ack,
            broadcast_id: None,
            broadcast_ttl: None,
            is_broadcast: false,
        };
        let copy = crate::queue::clone_outbound(&outbound);
        self.message_queue.queue_message(
            copy,
            msg_id,
            req.mode,
            req.timeout_seconds,
            "message queued for delivery".to_owned(),
            now_ms,
        );
        let response = SendResponse {
            msg_id,
            status: MessageStatus::Queued,
            status_message: "message queued for delivery".to_owned(),
            require_ack: req.require_ack,
        };
        Ok((response, Some(outbound)))
    }

    /// Handle a message arriving for this node. A message addressed
    /// elsewhere is ignored. A delivery-status report updates the tracked
    /// message it is about and is never delivered to subscribers. Any
    /// other message is counted against the subscriber filters; unless it
    /// came from this node or carries no message ID, the matching status
    /// report for its source comes back to be sent.
    pub fn handle_incoming_message(&mut self, message: Received) -> (r: IncomingOutcome)
        requires
            old(self).message_queue.wf(),
        ensures
            final(self).message_queue.wf(),
            final(self).node_id == old(self).node_id,
            message.dst_node != old(self).node_id ==> r == IncomingOutcome::NotForThisNode,
            message.dst_node == old(self).node_id && spec_is_status_report(message.headers@)
                ==> ({
                &&& r == IncomingOutcome::StatusReportApplied
                &&& (spec_delivery_status_of(message.payload@) matches Some(ds) ==> (old(
                    self,
                ).message_queue.tracker.spec_record(ds.0) is Some ==> (final(self).message_queue.tracker.spec_record(ds.0) matches Some(rec)
                    && rec.status == ds.1)))
            }),
            message.dst_node == old(self).node_id && !spec_is_status_report(message.headers@)
                ==> (r matches IncomingOutcome::DeliveredLocally(_, _)),
            r matches IncomingOutcome::DeliveredLocally(count, report) ==> ({
                &&& count == crate::delivery::spec_match_count(
                    old(self).delivery_queue.subscribers@.map_values(
                        |s: (u64, crate::delivery::SubscriptionFilter)| s.1,
                    ),
                    message.src_node,
                )
                &&& (message.src_node == old(self).node_id || message.msg_id == 0 ==> report
                    is None)
                &&& (message.src_node != old(self).node_id && message.msg_id != 0 ==> (report
                    matches Some(rep) && rep.dst_node == message.src_node && rep.src_node == old(
                    self,
                ).node_id && rep.msg_id is None && (spec_delivery_status_of(rep.payload@)
                    matches Some(ds) && ds.0 == message.msg_id && ds.1 == (if count == 0 {
                    MessageStatus::PendingClient
                } else if message.require_ack {
                    MessageStatus::WaitingForClientAck
                } else {
                    MessageStatus::Delivered
                }))))
            }),
    {
        if message.dst_node != self.node_id {
            return IncomingOutcome::NotForThisNode;
        }
        let mut is_status_report = false;
        let hn = message.headers.len();
        let mut hi: usize = 0;
        while hi < hn
            invariant
                hi <= hn,
                hn == message.headers@.len(),
                is_status_report == spec_is_status_report(message.headers@.subrange(0, hi as int)),
            decreases hn - hi,
        {
            let ghost before = message.headers@.subrange(0, hi as int);
            if bytes_eq(message.headers[hi].key.as_str().as_bytes(), "message_type".as_bytes())
                && bytes_eq(message.headers[hi].value.as_slice(), "delivery_status".as_bytes()) {
                is_status_report = true;
            }
            hi = hi + 1;
            proof {
                let after = message.headers@.subrange(0, hi as int);
                assert(after.drop_last() =~= before);
                assert(after[hi - 1] == message.headers@[hi - 1]);
                if is_status_report && !spec_is_status_report(before) {
                    assert(vstd::utf8::encode_utf8(after[hi - 1].key@)
                        == "message_type".spec_bytes() && after[hi - 1].value@
                        == "delivery_status".spec_bytes());
                }
                if spec_is_status_report(before) {
                    let i = choose|i: int|
                        0 <= i < before.len() && vstd::utf8::encode_utf8(
                            (#[trigger] before[i]).key@,
                        ) == "message_type".spec_bytes() && before[i].value@
                            == "delivery_status".spec_bytes();
                    assert(after[i] == before[i]);
                }
                if !is_status_report {
                    assert forall|i: int|
                        0 <= i < after.len() implies !(vstd::utf8::encode_utf8(
                        (#[trigger] after[i]).key@,
                    ) == "message_type".spec_bytes() && after[i].value@
                        == "delivery_status".spec_bytes()) by {
                        if i < after.len() - 1 {
                            assert(after[i] == before[i]);
                        }
                    }
                }
            }
        }
        proof {
            assert(message.headers@.subrange(0, hn as int) =~= message.headers@);
        }
        if is_status_report {
            match decode_delivery_status(message.payload.as_slice()) {
                Some((original_msg_id, status)) => {
                    self.message_queue.handle_routing_feedback(
                        original_msg_id,
                        status,
                        "delivery status reported by the destination".to_owned(),
                    );
                },
                None => {},
            }
            return IncomingOutcome::StatusReportApplied;
        }
        let delivered = self.delivery_queue.deliver(&message);
        let report = if message.src_node == self.node_id || message.msg_id == 0 {
            None
        } else {
            let status = delivery_status_for(delivered, message.require_ack);
            Some(self.build_status_report(message.src_node, message.msg_id, status))
        };
        IncomingOutcome::DeliveredLocally(delivered, report)
    }

    /// The status report owed to `src_node` about its message: an
    /// untracked internal message carrying the report as its payload.
    pub fn build_status_report(&self, src_node: u64, msg_id: u64, status: MessageStatus) -> (r:
        OutboundMessage)
        ensures
            r.src_node == self.node_id,
            r.dst_node == src_node,
            r.msg_id is None,
            !r.require_ack && !r.is_broadcast,
            spec_delivery_status_of(r.payload@) == Some((msg_id, status)),
    {
        let payload = encode_delivery_status(msg_id, status, "delivery status");
        let mut headers: Vec<(String, Vec<u8>)> = Vec::new();
        headers.push(("message_type".to_owned(), "delivery_status".as_bytes_vec()));
        OutboundMessage {
            src_node: self.node_id,
            dst_node: src_node,
            payload,
            headers,
            corr_id: 0,
            msg_id: None,
            require_ack: false,
            broadcast_id: None,
            broadcast_ttl: None,
            is_broadcast: false,
        }
    }

    /// Take a client's acknowledgment: record it for idempotency, move
    /// the tracked message to the matching terminal status, and hand back
    /// the status report owed to the source node — none when the source
    /// is this node.
    pub fn ack_message(&mut self, ack: Ack) -> (r: Option<OutboundMessage>)
        requires
            old(self).message_queue.wf(),
        ensures
            final(self).message_queue.wf(),
            final(self).node_id == old(self).node_id,
            final(self).acked_messages@ == old(self).acked_messages@.push(
                (ack.src_node, ack.msg_id),
            ),
            ack.src_node == old(self).node_id ==> r is None,
            old(self).message_queue.tracker.spec_record(ack.msg_id) is Some ==> (final(self).message_queue.tracker.spec_record(ack.msg_id) matches Some(rec) && rec.status == (
            if ack.success {
                MessageStatus::AckSuccess
            } else {
                MessageStatus::AckFailure
            })),
            ack.src_node != old(self).node_id ==> (r matches Some(report) && report.dst_node
                == ack.src_node && report.src_node == old(self).node_id
                && spec_delivery_status_of(report.payload@) == Some(
                (
                    ack.msg_id,
                    if ack.success {
                        MessageStatus::AckSuccess
                    } else {
                        MessageStatus::AckFailure
                    },
                ),
            )),
    {
        self.acked_messages.push((ack.src_node, ack.msg_id));
        let status = if ack.success {
            MessageStatus::AckSuccess
        } else {
            MessageStatus::AckFailure
        };
        self.message_queue.handle_routing_feedback(
            ack.msg_id,
            status,
            "client acknowledgment".to_owned(),
        );
        if ack.src_node == self.node_id {
            None
        } else {
            Some(self.build_status_report(ack.src_node, ack.msg_id, status))
        }
    }

    /// The status answers for the requested message IDs.
    pub fn query_message_status(&self, msg_ids: &Vec<u64>) -> (r: Vec<MessageStatusInfo>)
        ensures
            r@.len() <= msg_ids@.len(),
    {
        self.message_queue.tracker.get_statuses(msg_ids)
    }

    /// Counters describing the data plane.
    pub fn get_stats(&self) -> (r: MeshDataStats)
        ensures
            r.node_id == self.node_id,
            r.subscriber_count == self.delivery_queue.subscribers@.len(),
            r.acked_message_count == self.acked_messages@.len(),
    {
        MeshDataStats {
            node_id: self.node_id,
            subscriber_count: self.delivery_queue.subscriber_count(),
            acked_message_count: self.acked_messages.len(),
        }
    }
}

} // verus!
