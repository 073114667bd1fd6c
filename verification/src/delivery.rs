//! Local delivery: subscriber filters, the count of matching subscribers
//! for an inbound message, and the status that count implies.

use vstd::prelude::*;

use crate::tracker::MessageStatus;

verus! {

/// One application header of a received message.
#[derive(Debug, Clone, PartialEq, Eq)]
pub struct Header {
    /// Header name.
    pub key: String,
    /// Header value.
    pub value: Vec<u8>,
}

/// A message as handed to local subscribers.
#[derive(Debug, Clone, PartialEq, Eq)]
pub struct Received {
    /// The original sender.
    pub src_node: u64,
    /// The destination.
    pub dst_node: u64,
    /// The sender's message ID; zero for untracked internal messages.
    pub msg_id: u64,
    /// Correlation ID.
    pub corr_id: u64,
    /// Application headers.
    pub headers: Vec<Header>,
    /// The payload.
    pub payload: Vec<u8>,
    /// Whether a client acknowledgment is required.
    pub require_ack: bool,
}

/// A subscription request.
#[derive(Debug, Clone, Copy, PartialEq, Eq, Structural)]
pub struct SubscribeRequest {
    /// Partition filter; zero means any.
    pub partition: u32,
    /// Class filter; zero means any.
    pub qos_class: u32,
    /// Source filter; zero means any.
    pub src_node: u64,
}

/// What a subscriber wants: absent fields match everything.
#[derive(Debug, Clone, Copy, PartialEq, Eq, Hash, Structural)]
pub struct SubscriptionFilter {
    /// Partition the subscriber wants, or any.
    pub partition: Option<u32>,
    /// Class the subscriber wants, or any.
    pub qos_class: Option<u32>,
    /// Source the subscriber wants, or any.
    pub src_node: Option<u64>,
}

/// Whether a filter matches a message: an absent field always matches; a
/// source filter requires the exact sender; messages carry no partition
/// or class fields, so those filters match every message.
pub open spec fn spec_filter_matches(filter: SubscriptionFilter, src_node: u64) -> bool {
    match filter.src_node {
        Some(wanted) => src_node == wanted,
        None => true,
    }
}

impl SubscriptionFilter {
    /// The filter a subscription request asks for: zero fields mean any.
    pub fn from_request(req: &SubscribeRequest) -> (r: SubscriptionFilter)
        ensures
            r.partition == (if req.partition == 0 {
                None::<u32>
            } else {
                Some(req.partition)
            }),
            r.qos_class == (if req.qos_class == 0 {
                None::<u32>
            } else {
                Some(req.qos_class)
            }),
            r.src_node == (if req.src_node == 0 {
                None::<u64>
            } else {
                Some(req.src_node)
            }),
    {
        SubscriptionFilter {
            partition: if req.partition == 0 {
                None
            } else {
                Some(req.partition)
            },
            qos_class: if req.qos_class == 0 {
                None
            } else {
                Some(req.qos_class)
            },
            src_node: if req.src_node == 0 {
                None
            } else {
                Some(req.src_node)
            },
        }
    }

    /// Whether this filter matches the message.
    pub fn matches(&self, msg: &Received) -> (r: bool)
        ensures
            r == spec_filter_matches(*self, msg.src_node),
    {
        match self.src_node {
            Some(wanted) => msg.src_node == wanted,
            None => true,
        }
    }
}

/// How many of the filters match a sender.
pub open spec fn spec_match_count(filters: Seq<SubscriptionFilter>, src_node: u64) -> int
    decreases filters.len(),
{
    if filters.len() == 0 {
        0
    } else {
        spec_match_count(filters.drop_last(), src_node) + (if spec_filter_matches(
            filters.last(),
            src_node,
        ) {
            1int
        } else {
            0int
        })
    }
}

/// The registered subscribers of this node, each a subscription ID with
/// its filter. The channels that carry messages to them live outside the
/// library.
#[derive(Debug)]
pub struct DeliveryQueue {
    /// The subscribers, in registration order.
    pub subscribers: Vec<(u64, SubscriptionFilter)>,
    /// The next subscription ID.
    pub next_sub_id: u64,
}

impl DeliveryQueue {
    /// No subscribers; IDs start at 1.
    pub fn new() -> (r: DeliveryQueue)
        ensures
            r.subscribers@.len() == 0,
            r.next_sub_id == 1,
    {
        DeliveryQueue { subscribers: Vec::new(), next_sub_id: 1 }
    }

    /// Register a subscriber with `filter`; yields its subscription ID.
    pub fn subscribe(&mut self, filter: SubscriptionFilter) -> (r: u64)
        requires
            old(self).next_sub_id < u64::MAX,
        ensures
            r == old(self).next_sub_id,
            final(self).next_sub_id == old(self).next_sub_id + 1,
            final(self).subscribers@ == old(self).subscribers@.push((r, filter)),
    {
        let id = self.next_sub_id;
        self.next_sub_id = self.next_sub_id + 1;
        self.subscribers.push((id, filter));
        id
    }

    /// Drop the subscriber with `sub_id`.
    pub fn unsubscribe(&mut self, sub_id: u64)
        ensures
            forall|i: int|
                0 <= i < final(self).subscribers@.len() ==> (
                #[trigger] final(self).subscribers@[i]).0 != sub_id,
            final(self).next_sub_id == old(self).next_sub_id,
    {
        let n = self.subscribers.len();
        let mut kept: Vec<(u64, SubscriptionFilter)> = Vec::new();
        let mut i: usize = 0;
        while i < n
            invariant
                i <= n,
                n == self.subscribers@.len(),
                self.next_sub_id == old(self).next_sub_id,
                forall|j: int| 0 <= j < kept@.len() ==> (#[trigger] kept@[j]).0 != sub_id,
            decreases n - i,
        {
            if self.subscribers[i].0 != sub_id {
                kept.push(self.subscribers[i]);
            }
            i = i + 1;
        }
        self.subscribers = kept;
    }

    /// How many subscribers' filters match the message — the number of
    /// deliveries the message gets.
    pub fn deliver(&self, message: &Received) -> (r: usize)
        ensures
            r == spec_match_count(
                self.subscribers@.map_values(|s: (u64, SubscriptionFilter)| s.1),
                message.src_node,
            ),
    {
        let ghost filters = self.subscribers@.map_values(|s: (u64, SubscriptionFilter)| s.1);
        let n = self.subscribers.len();
        let mut count: usize = 0;
        let mut i: usize = 0;
        while i < n
            invariant
                i <= n,
                n == self.subscribers@.len(),
                filters == self.subscribers@.map_values(|s: (u64, SubscriptionFilter)| s.1),
                count <= i,
                count == spec_match_count(filters.subrange(0, i as int), message.src_node),
            decreases n - i,
        {
            let ghost prefix = filters.subrange(0, i as int);
            if self.subscribers[i].1.matches(message) {
                count = count + 1;
            }
            i = i + 1;
            proof {
                let prefix2 = filters.subrange(0, i as int);
                assert(prefix2.drop_last() =~= prefix);
                assert(prefix2.last() == filters[i - 1]);
            }
        }
        proof {
            assert(filters.subrange(0, n as int) =~= filters);
        }
        count
    }

    /// How many subscribers are registered.
    pub fn subscriber_count(&self) -> (r: usize)
        ensures
            r == self.subscribers@.len(),
    {
        self.subscribers.len()
    }
}

/// The status a delivery outcome reports to the source: no match leaves
/// the message pending a client; a delivery that requires an
/// acknowledgment waits for it; any other delivery is done.
pub fn delivery_status_for(delivered_count: usize, require_ack: bool) -> (r: MessageStatus)
    ensures
        delivered_count == 0 ==> r == MessageStatus::PendingClient,
        delivered_count > 0 && require_ack ==> r == MessageStatus::WaitingForClientAck,
        delivered_count > 0 && !require_ack ==> r == MessageStatus::Delivered,
{
    if delivered_count == 0 {
        MessageStatus::PendingClient
    } else if require_ack {
        MessageStatus::WaitingForClientAck
    } else {
        MessageStatus::Delivered
    }
}

} // verus!
