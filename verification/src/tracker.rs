//! Message status tracking: the per-message status record, its lifecycle,
//! and the tracker that retains completed records for late queries.

use vstd::prelude::*;

use std::collections::HashMap;
use crate::clock::unix_now_secs;

verus! {

broadcast use vstd::std_specs::hash::group_hash_axioms;

/// How long completed records are kept for late status queries, in
/// seconds.
pub const CLEANUP_RETENTION_SECONDS: u64 = 300;

/// The status of a tracked message.
#[derive(Debug, Clone, Copy, PartialEq, Eq, Structural)]
pub enum MessageStatus {
    /// Queued for delivery.
    Queued,
    /// Waiting for the destination node to become routable.
    PendingNode,
    /// Waiting for a subscriber on the destination node.
    PendingClient,
    /// Delivered to at least one subscriber.
    Delivered,
    /// Delivered and awaiting the client's acknowledgment.
    WaitingForClientAck,
    /// Acknowledged as handled.
    AckSuccess,
    /// Acknowledged as failed.
    AckFailure,
    /// Given up.
    Undeliverable,
}

impl MessageStatus {
    /// Whether the status is terminal: delivered without an
    /// acknowledgment owed, acknowledged either way, or given up.
    pub open spec fn spec_terminal(self) -> bool {
        self == MessageStatus::Delivered || self == MessageStatus::AckSuccess || self
            == MessageStatus::AckFailure || self == MessageStatus::Undeliverable
    }

    /// Whether the status is terminal.
    pub fn is_terminal(&self) -> (r: bool)
        ensures
            r == self.spec_terminal(),
    {
        match self {
            MessageStatus::Delivered => true,
            MessageStatus::AckSuccess => true,
            MessageStatus::AckFailure => true,
            MessageStatus::Undeliverable => true,
            _ => false,
        }
    }

    /// The numeric code carried in delivery-status payloads.
    pub open spec fn spec_code(self) -> u64 {
        match self {
            MessageStatus::Queued => 1,
            MessageStatus::PendingNode => 2,
            MessageStatus::PendingClient => 3,
            MessageStatus::Delivered => 4,
            MessageStatus::WaitingForClientAck => 5,
            MessageStatus::AckSuccess => 6,
            MessageStatus::AckFailure => 7,
            MessageStatus::Undeliverable => 8,
        }
    }

    /// Encode the status as its numeric code.
    pub fn to_code(&self) -> (r: u64)
        ensures
            r == self.spec_code(),
    {
        match self {
            MessageStatus::Queued => 1,
            MessageStatus::PendingNode => 2,
            MessageStatus::PendingClient => 3,
            MessageStatus::Delivered => 4,
            MessageStatus::WaitingForClientAck => 5,
            MessageStatus::AckSuccess => 6,
            MessageStatus::AckFailure => 7,
            MessageStatus::Undeliverable => 8,
        }
    }

    /// The status of a numeric code, when the code names one.
    pub open spec fn spec_from_code(code: u64) -> Option<MessageStatus> {
        if code == 1 {
            Some(MessageStatus::Queued)
        } else if code == 2 {
            Some(MessageStatus::PendingNode)
        } else if code == 3 {
            Some(MessageStatus::PendingClient)
        } else if code == 4 {
            Some(MessageStatus::Delivered)
        } else if code == 5 {
            Some(MessageStatus::WaitingForClientAck)
        } else if code == 6 {
            Some(MessageStatus::AckSuccess)
        } else if code == 7 {
            Some(MessageStatus::AckFailure)
        } else if code == 8 {
            Some(MessageStatus::Undeliverable)
        } else {
            None
        }
    }

    /// Decode a status from its numeric code.
    pub fn from_code(code: u64) -> (r: Option<MessageStatus>)
        ensures
            r == MessageStatus::spec_from_code(code),
    {
        match code {
            1 => Some(MessageStatus::Queued),
            2 => Some(MessageStatus::PendingNode),
            3 => Some(MessageStatus::PendingClient),
            4 => Some(MessageStatus::Delivered),
            5 => Some(MessageStatus::WaitingForClientAck),
            6 => Some(MessageStatus::AckSuccess),
            7 => Some(MessageStatus::AckFailure),
            8 => Some(MessageStatus::Undeliverable),
            _ => None,
        }
    }
}

/// A status answer for one message.
#[derive(Debug, Clone, PartialEq, Eq)]
pub struct MessageStatusInfo {
    /// The message ID.
    pub msg_id: u64,
    /// Its status.
    pub status: MessageStatus,
    /// A short account of the status.
    pub status_message: String,
    /// When the status was set, seconds since the Unix epoch.
    pub timestamp: u64,
    /// Whether the message requires a client acknowledgment.
    pub require_ack: bool,
}

/// The tracked record of one message.
#[derive(Debug, Clone, PartialEq, Eq)]
pub struct MessageRecord {
    /// The message ID.
    pub msg_id: u64,
    /// Its status.
    pub status: MessageStatus,
    /// A short account of the status.
    pub status_message: String,
    /// When the status was set, seconds since the Unix epoch.
    pub timestamp: u64,
    /// Whether the message requires a client acknowledgment.
    pub require_ack: bool,
    /// When the record was created, seconds since the Unix epoch.
    pub created_at: u64,
}

impl MessageRecord {
    /// A record created at clock reading `now`.
    pub fn new_at(
        msg_id: u64,
        status: MessageStatus,
        status_message: String,
        require_ack: bool,
        now: u64,
    ) -> (r: MessageRecord)
        ensures
            r.msg_id == msg_id,
            r.status == status,
            r.status_message == status_message,
            r.require_ack == require_ack,
            r.timestamp == now,
            r.created_at == now,
    {
        MessageRecord { msg_id, status, status_message, timestamp: now, require_ack, created_at: now }
    }

    /// A record stamped with the current clock reading.
    pub fn new(msg_id: u64, status: MessageStatus, status_message: String, require_ack: bool) -> (r:
        MessageRecord)
        ensures
            r.msg_id == msg_id,
            r.status == status,
            r.status_message == status_message,
            r.require_ack == require_ack,
    {
        let now = unix_now_secs();
        MessageRecord::new_at(msg_id, status, status_message, require_ack, now)
    }

    /// Move the record to a new status at clock reading `now`.
    pub fn update_status_at(&mut self, status: MessageStatus, status_message: String, now: u64)
        ensures
            final(self).status == status,
            final(self).status_message == status_message,
            final(self).timestamp == now,
            final(self).msg_id == old(self).msg_id,
            final(self).require_ack == old(self).require_ack,
            final(self).created_at == old(self).created_at,
    {
        self.status = status;
        self.status_message = status_message;
        self.timestamp = now;
    }

    /// Move the record to a new status now.
    pub fn update_status(&mut self, status: MessageStatus, status_message: String)
        ensures
            final(self).status == status,
            final(self).status_message == status_message,
            final(self).msg_id == old(self).msg_id,
            final(self).require_ack == old(self).require_ack,
            final(self).created_at == old(self).created_at,
    {
        let now = unix_now_secs();
        self.update_status_at(status, status_message, now);
    }

    /// Whether the record has reached a terminal status.
    pub fn is_completed(&self) -> (r: bool)
        ensures
            r == self.status.spec_terminal(),
    {
        self.status.is_terminal()
    }

    /// Whether the record is completed and past the retention bound at
    /// clock reading `now`.
    pub fn should_cleanup_at(&self, now: u64) -> (r: bool)
        ensures
            r == (self.status.spec_terminal() && now >= self.created_at && now - self.created_at
                > CLEANUP_RETENTION_SECONDS),
    {
        self.status.is_terminal() && now >= self.created_at && now - self.created_at
            > CLEANUP_RETENTION_SECONDS
    }

    /// The status answer this record gives.
    pub fn to_info(&self) -> (r: MessageStatusInfo)
        ensures
            r.msg_id == self.msg_id,
            r.status == self.status,
            r.status_message@ == self.status_message@,
            r.timestamp == self.timestamp,
            r.require_ack == self.require_ack,
    {
        MessageStatusInfo {
            msg_id: self.msg_id,
            status: self.status,
            status_message: self.status_message.clone(),
            timestamp: self.timestamp,
            require_ack: self.require_ack,
        }
    }
}

/// Counts of tracked messages by status.
#[derive(Debug, Clone, Copy, PartialEq, Eq, Structural)]
pub struct MessageTrackerStats {
    /// All tracked messages.
    pub total_messages: usize,
    /// Given up.
    pub undeliverable: usize,
    /// Queued.
    pub queued: usize,
    /// Waiting for a node.
    pub pending_node: usize,
    /// Waiting for a subscriber.
    pub pending_client: usize,
    /// Delivered.
    pub delivered: usize,
    /// Awaiting a client acknowledgment.
    pub waiting_for_ack: usize,
    /// Acknowledged as handled.
    pub ack_success: usize,
    /// Acknowledged as failed.
    pub ack_failure: usize,
}

/// The status records of all tracked messages.
#[derive(Debug)]
pub struct MessageTracker {
    /// Records by message ID.
    pub records: HashMap<u64, MessageRecord>,
}

impl MessageTracker {
    /// The record of `msg_id`, when one is tracked.
    pub open spec fn spec_record(self, msg_id: u64) -> Option<MessageRecord> {
        if self.records@.contains_key(msg_id) {
            Some(self.records@[msg_id])
        } else {
            None
        }
    }

    /// An empty tracker.
    pub fn new() -> (r: MessageTracker)
        ensures
            forall|id: u64| (#[trigger] r.spec_record(id)) is None,
    {
        let r = MessageTracker { records: HashMap::new() };
        proof {
            assert forall|id: u64| (#[trigger] r.spec_record(id)) is None by {
                assert(!r.records@.contains_key(id));
            }
        }
        r
    }

    /// Start tracking `msg_id` with an initial status; an existing record
    /// is replaced.
    pub fn track_message(
        &mut self,
        msg_id: u64,
        status: MessageStatus,
        status_message: String,
        require_ack: bool,
    )
        ensures
            ({
                let rec = final(self).spec_record(msg_id);
                rec matches Some(record) && record.msg_id == msg_id && record.status == status
                    && record.require_ack == require_ack
            }),
            forall|id: u64|
                id != msg_id ==> #[trigger] final(self).spec_record(id) == old(self).spec_record(
                    id,
                ),
    {
        let record = MessageRecord::new(msg_id, status, status_message, require_ack);
        self.records.insert(msg_id, record);
    }

    /// Move a tracked message to a new status; an untracked ID changes
    /// nothing and the result says whether one was tracked.
    pub fn update_status(&mut self, msg_id: u64, status: MessageStatus, status_message: String)
        -> (r: bool)
        ensures
            r == old(self).spec_record(msg_id) is Some,
            r ==> (old(self).spec_record(msg_id) matches Some(rec0) && (final(self).spec_record(
                msg_id,
            ) matches Some(record) && record.status == status && record.msg_id == rec0.msg_id
                && record.require_ack == rec0.require_ack)),
            !r ==> final(self).spec_record(msg_id) is None,
            forall|id: u64|
                id != msg_id ==> #[trigger] final(self).spec_record(id) == old(self).spec_record(
                    id,
                ),
    {
        let mut record = match self.records.remove(&msg_id) {
            Some(r) => r,
            None => {
                return false;
            },
        };
        record.update_status(status, status_message);
        self.records.insert(msg_id, record);
        true
    }

    /// The record of `msg_id`, when one is tracked.
    pub fn get_status(&self, msg_id: u64) -> (r: Option<&MessageRecord>)
        ensures
            match r {
                Some(record) => self.spec_record(msg_id) == Some(*record),
                None => self.spec_record(msg_id) is None,
            },
    {
        self.records.get(&msg_id)
    }

    /// The status answers for the requested IDs, tracked ones only, in
    /// request order.
    pub fn get_statuses(&self, msg_ids: &Vec<u64>) -> (r: Vec<MessageStatusInfo>)
        ensures
            r@.len() <= msg_ids@.len(),
    {
        let mut out: Vec<MessageStatusInfo> = Vec::new();
        let n = msg_ids.len();
        let mut i: usize = 0;
        while i < n
            invariant
                i <= n,
                n == msg_ids@.len(),
                out@.len() <= i,
            decreases n - i,
        {
            match self.records.get(&msg_ids[i]) {
                Some(record) => {
                    let info = record.to_info();
                    out.push(info);
                },
                None => {},
            }
            i = i + 1;
        }
        out
    }

    /// Drop the record of `msg_id`; the result says whether one was
    /// tracked.
    pub fn remove_message(&mut self, msg_id: u64) -> (r: bool)
        ensures
            r == old(self).spec_record(msg_id) is Some,
            final(self).spec_record(msg_id) is None,
            forall|id: u64|
                id != msg_id ==> #[trigger] final(self).spec_record(id) == old(self).spec_record(
                    id,
                ),
    {
        match self.records.remove(&msg_id) {
            Some(_) => true,
            None => false,
        }
    }

    /// How many messages are tracked.
    pub fn message_count(&self) -> (r: usize)
        ensures
            r == self.records@.len(),
    {
        self.records.len()
    }
}

} // verus!
