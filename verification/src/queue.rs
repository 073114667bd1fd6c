//! The message queue: per-message retry with exponential backoff, wake
//! conditions, and the invariant that retries stop at the attempt bound
//! and that a message in a terminal status is never retried.

use vstd::prelude::*;

use crate::manager::OutboundMessage;
use crate::tracker::MessageStatus;
use crate::tracker::MessageTracker;

verus! {

/// How the caller waits on a send.
#[derive(Debug, Clone, Copy, PartialEq, Eq, Structural)]
pub enum SendMode {
    /// Enqueue and return at once.
    FireAndForget,
    /// Block until delivered, pending a client, or given up.
    WaitForDelivery,
    /// Block until acknowledged either way or given up.
    WaitForAck,
}

/// A condition a queued message waits on.
#[derive(Debug, Clone, Copy, PartialEq, Eq, Hash, Structural)]
pub enum WaitCondition {
    /// Waiting for a node to become routable.
    NodeOnline(u64),
    /// Waiting for a subscriber on a node.
    ClientSubscription(u64),
}

/// Queue behavior knobs. Times are milliseconds.
#[derive(Debug, Clone, Copy, PartialEq, Eq, Structural)]
pub struct MessageQueueConfig {
    /// Retries before a message is given up.
    pub max_retry_attempts: u32,
    /// First retry delay.
    pub base_retry_interval_ms: u64,
    /// Largest retry delay.
    pub max_retry_interval_ms: u64,
    /// How often the retry pass runs.
    pub retry_check_interval_ms: u64,
    /// How long completed records are kept, in seconds.
    pub completed_message_ttl_secs: u64,
}

impl Default for MessageQueueConfig {
    /// Ten retries, one-second base delay, one-minute cap, a retry pass
    /// every five seconds, five minutes of record retention.
    fn default() -> (r: MessageQueueConfig)
        ensures
            r.max_retry_attempts == 10,
            r.base_retry_interval_ms == 1000,
            r.max_retry_interval_ms == 60_000,
            r.retry_check_interval_ms == 5000,
            r.completed_message_ttl_secs == 300,
    {
        MessageQueueConfig {
            max_retry_attempts: 10,
            base_retry_interval_ms: 1000,
            max_retry_interval_ms: 60_000,
            retry_check_interval_ms: 5000,
            completed_message_ttl_secs: 300,
        }
    }
}

/// One queued message with its retry bookkeeping. Times are milliseconds.
#[derive(Debug, Clone, PartialEq, Eq)]
pub struct QueuedMessage {
    /// The message to send.
    pub message: OutboundMessage,
    /// Retries made so far.
    pub retry_count: u32,
    /// When the message was queued.
    pub queued_at: u64,
    /// When the next retry is due.
    pub next_retry_at: u64,
    /// How the caller waits.
    pub send_mode: SendMode,
    /// The caller's timeout in seconds.
    pub timeout_seconds: u32,
}

/// A status transition as streamed to a caller.
#[derive(Debug, Clone, PartialEq, Eq)]
pub struct MessageStatusUpdate {
    /// The message.
    pub msg_id: u64,
    /// Its status.
    pub status: MessageStatus,
    /// A short account of the status.
    pub status_message: String,
    /// When the status was set, seconds since the Unix epoch.
    pub timestamp: u64,
    /// Whether the message requires a client acknowledgment.
    pub require_ack: bool,
}

/// Counters describing the queue.
#[derive(Debug, Clone, Copy, PartialEq, Eq, Structural)]
pub struct MessageQueueStats {
    /// Messages pending retry.
    pub pending_messages: usize,
    /// Messages waiting for a node.
    pub waiting_for_node: usize,
    /// Messages waiting for a subscriber.
    pub waiting_for_client: usize,
}

/// The ID of a pending entry, when one has it.
pub open spec fn spec_pending_lookup(pending: Seq<(u64, QueuedMessage)>, msg_id: u64) -> Option<
    QueuedMessage,
>
    decreases pending.len(),
{
    if pending.len() == 0 {
        None
    } else if pending[0].0 == msg_id {
        Some(pending[0].1)
    } else {
        spec_pending_lookup(pending.subrange(1, pending.len() as int), msg_id)
    }
}

/// The message queue: pending messages by ID, wake lists by condition,
/// and the status tracker it drives.
#[derive(Debug)]
pub struct MessageQueue {
    /// Behavior knobs.
    pub config: MessageQueueConfig,
    /// Pending messages: tracked ID with its queued entry.
    pub pending: Vec<(u64, QueuedMessage)>,
    /// Message IDs waiting for a node to come online, by node.
    pub waiting_node: Vec<(u64, Vec<u64>)>,
    /// Message IDs waiting for a subscriber, by node.
    pub waiting_client: Vec<(u64, Vec<u64>)>,
    /// The status tracker.
    pub tracker: MessageTracker,
}

impl MessageQueue {
    /// No pending entry has exhausted its retries, every pending entry is
    /// tracked, and no tracked pending entry stands in a terminal status
    /// — a message that has reached a terminal status is never retried.
    pub open spec fn wf(self) -> bool {
        &&& forall|i: int|
            0 <= i < self.pending@.len() ==> (#[trigger] self.pending@[i]).1.retry_count
                <= self.config.max_retry_attempts
        &&& forall|i: int|
            0 <= i < self.pending@.len() ==> (match self.tracker.spec_record(
                (#[trigger] self.pending@[i]).0,
            ) {
                Some(record) => !record.status.spec_terminal(),
                None => false,
            })
        &&& forall|i: int, j: int|
            0 <= i < j < self.pending@.len() ==> (#[trigger] self.pending@[i]).0 != (
            #[trigger] self.pending@[j]).0
    }

    /// An empty queue over a fresh tracker.
    pub fn new(config: MessageQueueConfig) -> (r: MessageQueue)
        ensures
            r.wf(),
            r.config == config,
            r.pending@.len() == 0,
    {
        MessageQueue {
            config,
            pending: Vec::new(),
            waiting_node: Vec::new(),
            waiting_client: Vec::new(),
            tracker: MessageTracker::new(),
        }
    }

    /// Track and enqueue a message for delivery at clock reading
    /// `now_ms`: the tracker records it as queued and it becomes pending
    /// with no retries yet, due at once.
    pub fn queue_message(
        &mut self,
        message: OutboundMessage,
        msg_id: u64,
        send_mode: SendMode,
        timeout_seconds: u32,
        status_message: String,
        now_ms: u64,
    )
        requires
            old(self).wf(),
        ensures
            final(self).wf(),
            final(self).config == old(self).config,
            final(self).tracker.spec_record(msg_id) matches Some(record) && record.status
                == MessageStatus::Queued,
            final(self).pending@.len() >= 1,
            final(self).pending@.last().0 == msg_id,
            final(self).pending@.last().1.retry_count == 0,
    {
        self.remove_pending(msg_id);
        let ghost mid = *self;
        self.tracker.track_message(msg_id, MessageStatus::Queued, status_message, message.require_ack);
        let entry = QueuedMessage {
            message,
            retry_count: 0,
            queued_at: now_ms,
            next_retry_at: now_ms,
            send_mode,
            timeout_seconds,
        };
        let ghost before = self.pending@;
        self.pending.push((msg_id, entry));
        proof {
            assert(self.wf()) by {
                assert forall|i: int|
                    0 <= i < self.pending@.len() implies (
                #[trigger] self.pending@[i]).1.retry_count <= self.config.max_retry_attempts && (
                match self.tracker.spec_record(self.pending@[i].0) {
                    Some(record) => !record.status.spec_terminal(),
                    None => false,
                }) by {
                    if i < before.len() {
                        assert(self.pending@[i] == before[i]);
                        assert(before[i] == mid.pending@[i]);
                        assert(before[i].0 != msg_id);
                        assert(old(self).pending@.contains(before[i]));
                        let k = choose|k: int|
                            0 <= k < old(self).pending@.len() && old(self).pending@[k]
                                == before[i];
                        assert(self.tracker.spec_record(before[i].0) == old(
                            self,
                        ).tracker.spec_record(before[i].0));
                    }
                }
                assert forall|i: int, j: int|
                    0 <= i < j < self.pending@.len() implies (#[trigger] self.pending@[i]).0 != (
                #[trigger] self.pending@[j]).0 by {
                    if j < before.len() {
                        assert(self.pending@[i] == before[i] && self.pending@[j] == before[j]);
                        assert(mid.pending@[i] == before[i] && mid.pending@[j] == before[j]);
                    } else {
                        assert(self.pending@[i] == before[i]);
                        assert(before[i] == mid.pending@[i]);
                        assert(before[i].0 != msg_id);
                    }
                }
            }
        }
    }

    /// Track a message straight into a terminal status without queueing
    /// it: any pending entry with its ID is dropped first, so nothing
    /// terminal stays retried.
    pub fn track_terminal(
        &mut self,
        msg_id: u64,
        status: MessageStatus,
        status_message: String,
        require_ack: bool,
    )
        requires
            old(self).wf(),
            status.spec_terminal(),
        ensures
            final(self).wf(),
            final(self).config == old(self).config,
            final(self).tracker.spec_record(msg_id) matches Some(record) && record.status
                == status,
    {
        self.remove_pending(msg_id);
        let ghost mid = *self;
        self.tracker.track_message(msg_id, status, status_message, require_ack);
        proof {
            assert(self.wf()) by {
                assert forall|i: int|
                    0 <= i < self.pending@.len() implies ((
                #[trigger] self.pending@[i]).1.retry_count <= self.config.max_retry_attempts && (
                match self.tracker.spec_record(self.pending@[i].0) {
                    Some(record) => !record.status.spec_terminal(),
                    None => false,
                })) by {
                    assert(self.pending@[i] == mid.pending@[i]);
                    assert(self.pending@[i].0 != msg_id);
                    assert(old(self).pending@.contains(self.pending@[i]));
                    let k = choose|k: int|
                        0 <= k < old(self).pending@.len() && old(self).pending@[k]
                            == self.pending@[i];
                    assert(self.tracker.spec_record(self.pending@[i].0)
                        == mid.tracker.spec_record(self.pending@[i].0));
                }
            }
        }
    }

    /// One retry pass at clock reading `now_ms`: every due pending
    /// message either moves past its retry budget — it leaves the queue
    /// and its status becomes undeliverable, terminal — or is retried:
    /// its count grows, its next try backs off exponentially up to the
    /// cap, its status is set back to queued, and a copy comes back for
    /// sending. Afterwards no pending entry has more retries than the
    /// budget allows and, as always, none stands in a terminal status.
    pub fn run_retry_tick(&mut self, now_ms: u64, status_message: String) -> (r: Vec<
        OutboundMessage,
    >)
        requires
            old(self).wf(),
        ensures
            final(self).wf(),
            final(self).config == old(self).config,
            r@.len() <= old(self).pending@.len(),
            forall|k: int|
                0 <= k < old(self).pending@.len() ==> spec_tick_settled(
                    #[trigger] old(self).pending@[k],
                    now_ms,
                    old(self).config,
                    final(self).pending@,
                    r@,
                    final(self).tracker,
                ),
    {
        let ghost old_pending = self.pending@;
        let ghost ids = old_pending.map_values(|e: (u64, QueuedMessage)| e.0);
        let n = self.pending.len();
        let mut kept: Vec<(u64, QueuedMessage)> = Vec::new();
        let mut to_send: Vec<OutboundMessage> = Vec::new();
        let mut i: usize = 0;
        proof {
            assert forall|k: int|
                0 <= k < n implies (match old(self).tracker.spec_record(
                (#[trigger] old_pending[k]).0,
            ) {
                Some(record) => !record.status.spec_terminal(),
                None => false,
            }) by {
                assert(old(self).pending@[k] == old_pending[k]);
            }
        }
        while i < n
            invariant
                i <= n,
                n == old_pending.len(),
                self.pending@ == old_pending,
                self.config == old(self).config,
                forall|a: int, b: int|
                    0 <= a < b < old_pending.len() ==> (#[trigger] old_pending[a]).0 != (
                    #[trigger] old_pending[b]).0,
                forall|a: int|
                    0 <= a < old_pending.len() ==> (#[trigger] old_pending[a]).1.retry_count
                        <= self.config.max_retry_attempts,
                forall|k: int|
                    0 <= k < n ==> (match old(self).tracker.spec_record(
                        (#[trigger] old_pending[k]).0,
                    ) {
                        Some(record) => !record.status.spec_terminal(),
                        None => false,
                    }),
                forall|k: int|
                    i <= k < n ==> #[trigger] self.tracker.spec_record(old_pending[k].0) == old(
                        self,
                    ).tracker.spec_record(old_pending[k].0),
                forall|j: int|
                    0 <= j < kept@.len() ==> (#[trigger] kept@[j]).1.retry_count
                        <= self.config.max_retry_attempts,
                forall|j: int|
                    0 <= j < kept@.len() ==> (match self.tracker.spec_record(
                        (#[trigger] kept@[j]).0,
                    ) {
                        Some(record) => !record.status.spec_terminal(),
                        None => false,
                    }),
                ids == old_pending.map_values(|e: (u64, QueuedMessage)| e.0),
                forall|j: int|
                    0 <= j < kept@.len() ==> ids.subrange(0, i as int).contains(
                        (#[trigger] kept@[j]).0,
                    ),
                forall|j1: int, j2: int|
                    0 <= j1 < j2 < kept@.len() ==> (#[trigger] kept@[j1]).0 != (
                    #[trigger] kept@[j2]).0,
                to_send@.len() <= i,
                forall|k: int|
                    0 <= k < i ==> spec_tick_settled(
                        #[trigger] old_pending[k],
                        now_ms,
                        self.config,
                        kept@,
                        to_send@,
                        self.tracker,
                    ),
            decreases n - i,
        {
            let msg_id = self.pending[i].0;
            let due = now_ms >= self.pending[i].1.next_retry_at;
            let ghost sent_old = to_send@;
            let ghost tracker_old = self.tracker;
            let ghost kept_old = kept@;
            proof {
                assert forall|j: int| 0 <= j < kept_old.len() implies (
                #[trigger] kept_old[j]).0 != msg_id by {
                    let prefix = ids.subrange(0, i as int);
                    assert(prefix.contains(kept_old[j].0));
                    let k = choose|k: int| 0 <= k < prefix.len() && prefix[k] == kept_old[j].0;
                    assert(old_pending[k].0 == kept_old[j].0);
                    assert(old_pending[k].0 != old_pending[i as int].0);
                }
            }
            if !due {
                let entry = clone_queued(&self.pending[i].1);
                kept.push((msg_id, entry));
                proof {
                    assert(self.tracker.spec_record(msg_id) == old(self).tracker.spec_record(
                        msg_id,
                    )) by {
                        assert(self.tracker.spec_record(old_pending[i as int].0) == old(
                            self,
                        ).tracker.spec_record(old_pending[i as int].0));
                    }
                    lemma_tick_kept_step(kept_old, kept@, self.tracker, old_pending, i as int, msg_id);
                    assert(spec_tick_settled(
                        old_pending[i as int],
                        now_ms,
                        self.config,
                        kept@,
                        to_send@,
                        self.tracker,
                    )) by {
                        assert(kept@[kept@.len() - 1].0 == msg_id);
                        assert(queued_view_eq(kept@[kept@.len() - 1].1, old_pending[i as int].1));
                    }
                    assert forall|k: int| 0 <= k < i + 1 implies spec_tick_settled(
                        #[trigger] old_pending[k],
                        now_ms,
                        self.config,
                        kept@,
                        to_send@,
                        self.tracker,
                    ) by {
                        if k < i as int {
                            assert(old_pending[k].0 != msg_id);
                            lemma_tick_settled_preserved(
                                old_pending[k],
                                now_ms,
                                self.config,
                                kept_old,
                                kept@,
                                sent_old,
                                to_send@,
                                tracker_old,
                                self.tracker,
                                msg_id,
                            );
                        }
                    }
                }
            } else {
                let count = self.pending[i].1.retry_count;
                if count >= self.config.max_retry_attempts {
                    // Budget exhausted: give the message up for good.
                    let ghost tracker_before = self.tracker;
                    let updated = self.tracker.update_status(
                        msg_id,
                        MessageStatus::Undeliverable,
                        status_message.clone(),
                    );
                    proof {
                        assert forall|j: int|
                            0 <= j < kept@.len() implies (match self.tracker.spec_record(
                            (#[trigger] kept@[j]).0,
                        ) {
                            Some(record) => !record.status.spec_terminal(),
                            None => false,
                        }) by {
                            assert(kept@[j].0 != msg_id);
                            assert(self.tracker.spec_record(kept@[j].0)
                                == tracker_before.spec_record(kept@[j].0));
                        }
                        assert forall|k: int|
                            i + 1 <= k < n implies #[trigger] self.tracker.spec_record(
                            old_pending[k].0,
                        ) == old(self).tracker.spec_record(old_pending[k].0) by {
                            assert(old_pending[k].0 != old_pending[i as int].0);
                            assert(self.tracker.spec_record(old_pending[k].0)
                                == tracker_before.spec_record(old_pending[k].0));
                        }
                        assert(updated) by {
                            assert(tracker_before.spec_record(msg_id) == old(
                                self,
                            ).tracker.spec_record(msg_id)) by {
                                assert(tracker_before.spec_record(old_pending[i as int].0) == old(
                                    self,
                                ).tracker.spec_record(old_pending[i as int].0));
                            }
                        }
                        assert(spec_tick_settled(
                            old_pending[i as int],
                            now_ms,
                            self.config,
                            kept@,
                            to_send@,
                            self.tracker,
                        ));
                        assert forall|k: int| 0 <= k < i + 1 implies spec_tick_settled(
                            #[trigger] old_pending[k],
                            now_ms,
                            self.config,
                            kept@,
                            to_send@,
                            self.tracker,
                        ) by {
                            if k < i as int {
                                assert(old_pending[k].0 != msg_id);
                                assert(self.tracker.spec_record(old_pending[k].0)
                                    == tracker_old.spec_record(old_pending[k].0));
                                lemma_tick_settled_preserved(
                                    old_pending[k],
                                    now_ms,
                                    self.config,
                                    kept_old,
                                    kept@,
                                    sent_old,
                                    to_send@,
                                    tracker_old,
                                    self.tracker,
                                    msg_id,
                                );
                            }
                        }
                    }
                } else {
                    let mut entry = clone_queued(&self.pending[i].1);
                    entry.retry_count = count + 1;
                    let delay = retry_delay(
                        self.config.base_retry_interval_ms,
                        entry.retry_count,
                        self.config.max_retry_interval_ms,
                    );
                    entry.next_retry_at = if now_ms <= u64::MAX - delay {
                        now_ms + delay
                    } else {
                        u64::MAX
                    };
                    let ghost tracker_before = self.tracker;
                    let updated = self.tracker.update_status(
                        msg_id,
                        MessageStatus::Queued,
                        status_message.clone(),
                    );
                    to_send.push(clone_outbound(&entry.message));
                    kept.push((msg_id, entry));
                    proof {
                        assert(tracker_before.spec_record(msg_id) == old(
                            self,
                        ).tracker.spec_record(msg_id)) by {
                            assert(tracker_before.spec_record(old_pending[i as int].0) == old(
                                self,
                            ).tracker.spec_record(old_pending[i as int].0));
                        }
                        assert forall|k: int|
                            i + 1 <= k < n implies #[trigger] self.tracker.spec_record(
                            old_pending[k].0,
                        ) == old(self).tracker.spec_record(old_pending[k].0) by {
                            assert(old_pending[k].0 != old_pending[i as int].0);
                            assert(self.tracker.spec_record(old_pending[k].0)
                                == tracker_before.spec_record(old_pending[k].0));
                        }
                        assert forall|j: int|
                            0 <= j < kept@.len() implies ((#[trigger] kept@[j]).1.retry_count
                            <= self.config.max_retry_attempts && (match self.tracker.spec_record(
                            kept@[j].0,
                        ) {
                            Some(record) => !record.status.spec_terminal(),
                            None => false,
                        })) by {
                            if j < kept_old.len() {
                                assert(kept@[j] == kept_old[j]);
                                assert(kept_old[j].0 != msg_id);
                                assert(self.tracker.spec_record(kept@[j].0)
                                    == tracker_before.spec_record(kept@[j].0));
                            } else {
                                assert(kept@[j].0 == msg_id);
                                if !updated {
                                    assert(tracker_before.spec_record(msg_id) is None);
                                    assert(false);
                                }
                            }
                        }
                        assert forall|j: int|
                            0 <= j < kept@.len() implies ids.subrange(0, i + 1).contains(
                            (#[trigger] kept@[j]).0,
                        ) by {
                            if j < kept_old.len() {
                                assert(kept@[j] == kept_old[j]);
                                let prefix = ids.subrange(0, i as int);
                                assert(prefix.contains(kept_old[j].0));
                                let k = choose|k: int|
                                    0 <= k < prefix.len() && prefix[k] == kept_old[j].0;
                                assert(ids.subrange(0, i + 1)[k] == kept_old[j].0);
                            } else {
                                assert(kept@[j].0 == old_pending[i as int].0);
                                assert(ids.subrange(0, i + 1)[i as int] == old_pending[i
                                    as int].0);
                            }
                        }
                        assert forall|j1: int, j2: int|
                            0 <= j1 < j2 < kept@.len() implies (#[trigger] kept@[j1]).0 != (
                        #[trigger] kept@[j2]).0 by {
                            if j2 < kept_old.len() {
                                assert(kept@[j1] == kept_old[j1] && kept@[j2] == kept_old[j2]);
                            } else {
                                assert(kept@[j1] == kept_old[j1]);
                                assert(kept_old[j1].0 != msg_id);
                            }
                        }
                        assert(spec_tick_settled(
                            old_pending[i as int],
                            now_ms,
                            self.config,
                            kept@,
                            to_send@,
                            self.tracker,
                        )) by {
                            let q = old_pending[i as int].1;
                            let last = kept@.len() - 1;
                            assert(kept@[last].0 == msg_id);
                            assert(kept@[last].1.retry_count == q.retry_count + 1);
                            assert(kept@[last].1.next_retry_at == spec_next_retry(
                                now_ms,
                                spec_backoff(
                                    self.config.base_retry_interval_ms,
                                    (q.retry_count + 1) as u32,
                                    self.config.max_retry_interval_ms,
                                ),
                            ));
                            assert(outbound_view_eq(kept@[last].1.message, q.message));
                            let tlast = to_send@.len() - 1;
                            lemma_outbound_view_eq_trans(
                                to_send@[tlast],
                                kept@[last].1.message,
                                q.message,
                            );
                            assert(outbound_view_eq(to_send@[tlast], q.message));
                        }
                        assert forall|k: int| 0 <= k < i + 1 implies spec_tick_settled(
                            #[trigger] old_pending[k],
                            now_ms,
                            self.config,
                            kept@,
                            to_send@,
                            self.tracker,
                        ) by {
                            if k < i as int {
                                assert(old_pending[k].0 != msg_id);
                                assert(self.tracker.spec_record(old_pending[k].0)
                                    == tracker_old.spec_record(old_pending[k].0)) by {
                                    assert(self.tracker.spec_record(old_pending[k].0)
                                        == tracker_before.spec_record(old_pending[k].0));
                                }
                                lemma_tick_settled_preserved(
                                    old_pending[k],
                                    now_ms,
                                    self.config,
                                    kept_old,
                                    kept@,
                                    sent_old,
                                    to_send@,
                                    tracker_old,
                                    self.tracker,
                                    msg_id,
                                );
                            }
                        }
                    }
                }
            }
            i = i + 1;
        }
        self.pending = kept;
        to_send
    }

    /// The tracker record of a tracked pending message, for callers that
    /// poll on a send mode.
    pub fn tracker_record(&self, msg_id: u64) -> (r: Option<&crate::tracker::MessageRecord>)
        ensures
            match r {
                Some(record) => self.tracker.spec_record(msg_id) == Some(*record),
                None => self.tracker.spec_record(msg_id) is None,
            },
    {
        self.tracker.get_status(msg_id)
    }

    /// Apply a status report for a tracked message at clock reading
    /// `now_ms`: its tracker record moves to the status; a terminal
    /// status takes the message out of the queue; a pending-node or
    /// pending-client status puts it on the matching wake list.
    pub fn handle_routing_feedback(
        &mut self,
        msg_id: u64,
        status: MessageStatus,
        status_message: String,
    )
        requires
            old(self).wf(),
        ensures
            final(self).wf(),
            final(self).config == old(self).config,
            old(self).tracker.spec_record(msg_id) is Some ==> (final(self).tracker.spec_record(
                msg_id,
            ) matches Some(record) && record.status == status),
            status.spec_terminal() ==> spec_pending_lookup(final(self).pending@, msg_id) is None,
    {
        let updated = self.tracker.update_status(msg_id, status, status_message);
        if status.is_terminal() {
            let ghost mid = *self;
            self.remove_pending(msg_id);
            proof {
                assert(self.wf()) by {
                    assert forall|i: int|
                        0 <= i < self.pending@.len() implies ((
                    #[trigger] self.pending@[i]).1.retry_count <= self.config.max_retry_attempts
                        && (match self.tracker.spec_record(self.pending@[i].0) {
                        Some(record) => !record.status.spec_terminal(),
                        None => false,
                    })) by {
                        assert(mid.pending@.contains(self.pending@[i]));
                        let k = choose|k: int|
                            0 <= k < mid.pending@.len() && mid.pending@[k] == self.pending@[i];
                        assert(old(self).pending@[k] == self.pending@[i]);
                        assert(self.pending@[i].0 != msg_id);
                        assert(self.tracker.spec_record(self.pending@[i].0) == old(
                            self,
                        ).tracker.spec_record(self.pending@[i].0));
                    }
                }
            }
        } else {
            proof {
                assert(self.wf()) by {
                    assert forall|i: int|
                        0 <= i < self.pending@.len() implies (
                    #[trigger] self.pending@[i]).1.retry_count <= self.config.max_retry_attempts
                        && (match self.tracker.spec_record(self.pending@[i].0) {
                        Some(record) => !record.status.spec_terminal(),
                        None => false,
                    }) by {
                        if self.pending@[i].0 != msg_id {
                            assert(self.tracker.spec_record(self.pending@[i].0) == old(self).tracker.spec_record(self.pending@[i].0));
                        }
                    }
                }
            }
            match status {
                MessageStatus::PendingNode => {
                    let dst = match self.find_pending_dst(msg_id) {
                        Some(d) => d,
                        None => {
                            return ;
                        },
                    };
                    add_wait(&mut self.waiting_node, dst, msg_id);
                },
                MessageStatus::PendingClient => {
                    let dst = match self.find_pending_dst(msg_id) {
                        Some(d) => d,
                        None => {
                            return ;
                        },
                    };
                    add_wait(&mut self.waiting_client, dst, msg_id);
                },
                _ => {},
            }
        }
    }

    /// The destination of a pending message, when it is pending.
    fn find_pending_dst(&self, msg_id: u64) -> (r: Option<u64>) {
        let n = self.pending.len();
        let mut i: usize = 0;
        while i < n
            invariant
                i <= n,
                n == self.pending@.len(),
            decreases n - i,
        {
            if self.pending[i].0 == msg_id {
                return Some(self.pending[i].1.message.dst_node);
            }
            i = i + 1;
        }
        None
    }

    /// Take a message out of the pending queue.
    fn remove_pending(&mut self, msg_id: u64)
        requires
            forall|i1: int, i2: int|
                0 <= i1 < i2 < old(self).pending@.len() ==> (#[trigger] old(self).pending@[i1]).0
                    != (#[trigger] old(self).pending@[i2]).0,
        ensures
            spec_pending_lookup(final(self).pending@, msg_id) is None,
            final(self).config == old(self).config,
            final(self).tracker == old(self).tracker,
            final(self).waiting_node == old(self).waiting_node,
            final(self).waiting_client == old(self).waiting_client,
            forall|i: int|
                0 <= i < final(self).pending@.len() ==> (#[trigger] final(self).pending@[i]).0
                    != msg_id,
            forall|i: int|
                0 <= i < final(self).pending@.len() ==> old(self).pending@.contains(
                    #[trigger] final(self).pending@[i],
                ),
            forall|i1: int, i2: int|
                0 <= i1 < i2 < final(self).pending@.len() ==> (
                #[trigger] final(self).pending@[i1]).0 != (#[trigger] final(self).pending@[i2]).0,
    {
        let ghost old_pending = self.pending@;
        proof {
            assert forall|a: int|
                0 <= a < self.pending@.len() implies old_pending.contains(
                #[trigger] self.pending@[a]) by {
                assert(self.pending@[a] == old_pending[a]);
            }
        }
        let mut i: usize = self.pending.len();
        while i > 0
            invariant
                i <= self.pending@.len(),
                self.config == old(self).config,
                self.tracker == old(self).tracker,
                self.waiting_node == old(self).waiting_node,
                self.waiting_client == old(self).waiting_client,
                forall|a: int|
                    i <= a < self.pending@.len() ==> (#[trigger] self.pending@[a]).0 != msg_id,
                forall|a: int|
                    0 <= a < self.pending@.len() ==> old_pending.contains(
                        #[trigger] self.pending@[a],
                    ),
                forall|a1: int, a2: int|
                    0 <= a1 < a2 < self.pending@.len() ==> (#[trigger] self.pending@[a1]).0 != (
                    #[trigger] self.pending@[a2]).0,
            decreases i,
        {
            i = i - 1;
            if self.pending[i].0 == msg_id {
                let ghost before = self.pending@;
                self.pending.remove(i);
                proof {
                    assert(self.pending@ =~= before.remove(i as int));
                    assert forall|a: int|
                        0 <= a < self.pending@.len() implies old_pending.contains(
                        #[trigger] self.pending@[a]) by {
                        let a0 = if a < i as int {
                            a
                        } else {
                            a + 1
                        };
                        assert(self.pending@[a] == before[a0]);
                        assert(old_pending.contains(before[a0]));
                    }
                    assert forall|a: int|
                        i <= a < self.pending@.len() implies (#[trigger] self.pending@[a]).0
                        != msg_id by {
                        assert(self.pending@[a] == before[a + 1]);
                    }
                    assert forall|a1: int, a2: int|
                        0 <= a1 < a2 < self.pending@.len() implies (
                    #[trigger] self.pending@[a1]).0 != (#[trigger] self.pending@[a2]).0 by {
                        let b1 = if a1 < i as int {
                            a1
                        } else {
                            a1 + 1
                        };
                        let b2 = if a2 < i as int {
                            a2
                        } else {
                            a2 + 1
                        };
                        assert(self.pending@[a1] == before[b1] && self.pending@[a2]
                            == before[b2]);
                    }
                }
            }
        }
        proof {
            lemma_pending_lookup_miss(self.pending@, msg_id);
        }
    }

    /// Wake every message waiting for `node_id` to come online: their
    /// next tries become due at once.
    pub fn notify_node_online(&mut self, node_id: u64, now_ms: u64)
        requires
            old(self).wf(),
        ensures
            final(self).wf(),
            final(self).config == old(self).config,
    {
        let ids = take_wait(&mut self.waiting_node, node_id);
        self.reset_retry_times(&ids, now_ms);
    }

    /// Wake every message waiting for a subscriber on `node_id`: their
    /// next tries become due at once.
    pub fn notify_client_subscribed(&mut self, node_id: u64, now_ms: u64)
        requires
            old(self).wf(),
        ensures
            final(self).wf(),
            final(self).config == old(self).config,
    {
        let ids = take_wait(&mut self.waiting_client, node_id);
        self.reset_retry_times(&ids, now_ms);
    }

    /// Make the named pending messages due at `now_ms`.
    fn reset_retry_times(&mut self, ids: &Vec<u64>, now_ms: u64)
        requires
            old(self).wf(),
        ensures
            final(self).wf(),
            final(self).config == old(self).config,
    {
        let n = self.pending.len();
        let mut i: usize = 0;
        while i < n
            invariant
                i <= n,
                n == self.pending@.len(),
                self.wf(),
                self.config == old(self).config,
            decreases n - i,
        {
            let msg_id = self.pending[i].0;
            if vec_contains_id(ids, msg_id) {
                let ghost before = self.pending@;
                let entry = &mut self.pending[i];
                entry.1.next_retry_at = now_ms;
                proof {
                    assert(self.wf()) by {
                        assert forall|j: int|
                            0 <= j < self.pending@.len() implies (
                        #[trigger] self.pending@[j]).1.retry_count
                            <= self.config.max_retry_attempts && (match self.tracker.spec_record(
                            self.pending@[j].0,
                        ) {
                            Some(record) => !record.status.spec_terminal(),
                            None => false,
                        }) by {
                            if j != i as int {
                                assert(self.pending@[j] == before[j]);
                            } else {
                                assert(self.pending@[j].0 == before[j].0);
                                assert(self.pending@[j].1.retry_count
                                    == before[j].1.retry_count);
                            }
                        }
                    }
                }
            }
            i = i + 1;
        }
    }

    /// Counters describing the queue.
    pub fn get_stats(&self) -> (r: MessageQueueStats)
        ensures
            r.pending_messages == self.pending@.len(),
    {
        MessageQueueStats {
            pending_messages: self.pending.len(),
            waiting_for_node: self.waiting_node.len(),
            waiting_for_client: self.waiting_client.len(),
        }
    }
}

/// Whether the vector holds `x`.
fn vec_contains_id(v: &Vec<u64>, x: u64) -> (r: bool)
    ensures
        r == v@.contains(x),
{
    let n = v.len();
    let mut i: usize = 0;
    while i < n
        invariant
            i <= n,
            n == v@.len(),
            forall|j: int| 0 <= j < i ==> v@[j] != x,
        decreases n - i,
    {
        if v[i] == x {
            return true;
        }
        i = i + 1;
    }
    proof {
        if v@.contains(x) {
            let w = choose|w: int| 0 <= w < v@.len() && v@[w] == x;
        }
    }
    false
}

/// Append `msg_id` to the wake list of `node`.
fn add_wait(lists: &mut Vec<(u64, Vec<u64>)>, node: u64, msg_id: u64) {
    let n = lists.len();
    let mut i: usize = 0;
    while i < n
        invariant
            i <= n,
            n == lists@.len(),
        decreases n - i,
    {
        if lists[i].0 == node {
            let entry = &mut lists[i];
            entry.1.push(msg_id);
            return ;
        }
        i = i + 1;
    }
    let mut fresh: Vec<u64> = Vec::new();
    fresh.push(msg_id);
    lists.push((node, fresh));
}

/// Take the whole wake list of `node`, leaving it empty.
fn take_wait(lists: &mut Vec<(u64, Vec<u64>)>, node: u64) -> (r: Vec<u64>) {
    let n = lists.len();
    let mut i: usize = 0;
    while i < n
        invariant
            i <= n,
            n == lists@.len(),
        decreases n - i,
    {
        if lists[i].0 == node {
            let entry = lists.remove(i);
            return entry.1;
        }
        i = i + 1;
    }
    Vec::new()
}

/// The retry delay for attempt `count`: the base doubled per earlier
/// attempt, capped — the value of `spec_backoff`.
pub fn retry_delay(base_ms: u64, count: u32, cap_ms: u64) -> (r: u64)
    ensures
        r == spec_backoff(base_ms, count, cap_ms),
{
    let mut delay = if base_ms > cap_ms {
        cap_ms
    } else {
        base_ms
    };
    let mut k: u32 = 1;
    proof {
        if count == 0 {
        }
    }
    while k < count && delay < cap_ms
        invariant
            1 <= k,
            k <= count || count <= 1,
            count <= 1 ==> k == 1,
            delay <= cap_ms,
            delay == spec_backoff(base_ms, k, cap_ms),
        decreases (if k < count {
            count - k
        } else {
            0int
        }),
    {
        delay = if delay > cap_ms / 2 {
            cap_ms
        } else {
            delay * 2
        };
        k = k + 1;
    }
    proof {
        if count > k {
            lemma_backoff_fixpoint(base_ms, k, count, cap_ms);
        } else if count < k {
            assert(k == 1 && count <= 1);
            assert(spec_backoff(base_ms, count, cap_ms) == spec_backoff(base_ms, 1, cap_ms));
        }
    }
    delay
}

/// Once the backoff has reached the cap it never moves again.
pub proof fn lemma_backoff_fixpoint(base: u64, k: u32, count: u32, cap: u64)
    requires
        1 <= k <= count,
        spec_backoff(base, k, cap) >= cap,
    ensures
        spec_backoff(base, count, cap) == spec_backoff(base, k, cap),
    decreases count - k,
{
    if count > k {
        lemma_backoff_fixpoint(base, k, (count - 1) as u32, cap);
    }
}

/// A copy of a queued entry: same bookkeeping and the same message
/// envelope fields.
fn clone_queued(q: &QueuedMessage) -> (r: QueuedMessage)
    ensures
        r.retry_count == q.retry_count,
        r.queued_at == q.queued_at,
        r.next_retry_at == q.next_retry_at,
        r.send_mode == q.send_mode,
        r.timeout_seconds == q.timeout_seconds,
        outbound_view_eq(r.message, q.message),
{
    QueuedMessage {
        message: clone_outbound(&q.message),
        retry_count: q.retry_count,
        queued_at: q.queued_at,
        next_retry_at: q.next_retry_at,
        send_mode: q.send_mode,
        timeout_seconds: q.timeout_seconds,
    }
}

/// The backoff delay of retry attempt `count`: the base, doubled per
/// earlier attempt, never past the cap.
pub open spec fn spec_backoff(base: u64, count: u32, cap: u64) -> u64
    decreases count,
{
    if count <= 1 {
        if base > cap {
            cap
        } else {
            base
        }
    } else {
        let p = spec_backoff(base, (count - 1) as u32, cap);
        if p >= cap {
            p
        } else if p > cap / 2 {
            cap
        } else {
            (p * 2) as u64
        }
    }
}

/// The due time after a retry at `now` with `delay`: past the end of
/// time it saturates.
pub open spec fn spec_next_retry(now: u64, delay: u64) -> u64 {
    if now + delay <= u64::MAX {
        (now + delay) as u64
    } else {
        u64::MAX
    }
}

/// The two queued entries agree on all bookkeeping and carry the same
/// message envelope.
pub open spec fn queued_view_eq(a: QueuedMessage, b: QueuedMessage) -> bool {
    &&& a.retry_count == b.retry_count
    &&& a.queued_at == b.queued_at
    &&& a.next_retry_at == b.next_retry_at
    &&& a.send_mode == b.send_mode
    &&& a.timeout_seconds == b.timeout_seconds
    &&& outbound_view_eq(a.message, b.message)
}

/// What one retry pass at `now_ms` settles for the pending entry
/// `entry`. Not yet due: it stays exactly as it was. Due with the budget
/// spent: it is gone from the queue and its record is terminal,
/// undeliverable. Due within budget: it stays with one more retry and the
/// backed-off due time, its record is queued again, and a copy of its
/// message is among those handed back for sending.
pub open spec fn spec_tick_settled(
    entry: (u64, QueuedMessage),
    now_ms: u64,
    config: MessageQueueConfig,
    kept: Seq<(u64, QueuedMessage)>,
    sent: Seq<OutboundMessage>,
    tracker: MessageTracker,
) -> bool {
    let id = entry.0;
    let q = entry.1;
    if now_ms < q.next_retry_at {
        exists|j: int|
            0 <= j < kept.len() && (#[trigger] kept[j]).0 == id && queued_view_eq(kept[j].1, q)
    } else if q.retry_count >= config.max_retry_attempts {
        &&& forall|j: int| 0 <= j < kept.len() ==> (#[trigger] kept[j]).0 != id
        &&& tracker.spec_record(id) matches Some(rec) && rec.status
            == MessageStatus::Undeliverable
    } else {
        &&& exists|j: int|
            0 <= j < kept.len() && (#[trigger] kept[j]).0 == id && kept[j].1.retry_count
                == q.retry_count + 1 && kept[j].1.next_retry_at == spec_next_retry(
                now_ms,
                spec_backoff(
                    config.base_retry_interval_ms,
                    (q.retry_count + 1) as u32,
                    config.max_retry_interval_ms,
                ),
            ) && kept[j].1.send_mode == q.send_mode && kept[j].1.timeout_seconds
                == q.timeout_seconds && outbound_view_eq(kept[j].1.message, q.message)
        &&& exists|t: int|
            0 <= t < sent.len() && outbound_view_eq(#[trigger] sent[t], q.message)
        &&& tracker.spec_record(id) matches Some(rec) && rec.status == MessageStatus::Queued
    }
}

/// An entry's settled state survives a later step of the pass: the kept
/// and sent lists only grow, the new kept entries belong to a different
/// message, and that message's record alone may have changed.
pub proof fn lemma_tick_settled_preserved(
    entry: (u64, QueuedMessage),
    now_ms: u64,
    config: MessageQueueConfig,
    kept1: Seq<(u64, QueuedMessage)>,
    kept2: Seq<(u64, QueuedMessage)>,
    sent1: Seq<OutboundMessage>,
    sent2: Seq<OutboundMessage>,
    tr1: MessageTracker,
    tr2: MessageTracker,
    changed: u64,
)
    requires
        spec_tick_settled(entry, now_ms, config, kept1, sent1, tr1),
        entry.0 != changed,
        kept1.len() <= kept2.len(),
        forall|j: int| 0 <= j < kept1.len() ==> #[trigger] kept2[j] == kept1[j],
        forall|j: int| kept1.len() <= j < kept2.len() ==> (#[trigger] kept2[j]).0 == changed,
        sent1.len() <= sent2.len(),
        forall|t: int| 0 <= t < sent1.len() ==> #[trigger] sent2[t] == sent1[t],
        tr2.spec_record(entry.0) == tr1.spec_record(entry.0),
    ensures
        spec_tick_settled(entry, now_ms, config, kept2, sent2, tr2),
{
    let id = entry.0;
    let q = entry.1;
    if now_ms < q.next_retry_at {
        let j = choose|j: int|
            0 <= j < kept1.len() && (#[trigger] kept1[j]).0 == id && queued_view_eq(kept1[j].1, q);
        assert(kept2[j] == kept1[j]);
    } else if q.retry_count >= config.max_retry_attempts {
        assert forall|j: int| 0 <= j < kept2.len() implies (#[trigger] kept2[j]).0 != id by {
            if j < kept1.len() {
                assert(kept2[j] == kept1[j]);
            }
        }
    } else {
        let j = choose|j: int|
            0 <= j < kept1.len() && (#[trigger] kept1[j]).0 == id && kept1[j].1.retry_count
                == q.retry_count + 1 && kept1[j].1.next_retry_at == spec_next_retry(
                now_ms,
                spec_backoff(
                    config.base_retry_interval_ms,
                    (q.retry_count + 1) as u32,
                    config.max_retry_interval_ms,
                ),
            ) && kept1[j].1.send_mode == q.send_mode && kept1[j].1.timeout_seconds
                == q.timeout_seconds && outbound_view_eq(kept1[j].1.message, q.message);
        assert(kept2[j] == kept1[j]);
        let t = choose|t: int|
            0 <= t < sent1.len() && outbound_view_eq(#[trigger] sent1[t], q.message);
        assert(sent2[t] == sent1[t]);
    }
}

/// The envelope view agreement is transitive.
pub proof fn lemma_outbound_view_eq_trans(a: OutboundMessage, b: OutboundMessage, c: OutboundMessage)
    requires
        outbound_view_eq(a, b),
        outbound_view_eq(b, c),
    ensures
        outbound_view_eq(a, c),
{
    assert forall|i: int|
        0 <= i < a.headers@.len() implies (#[trigger] a.headers@[i]).0 == c.headers@[i].0
        && a.headers@[i].1@ == c.headers@[i].1@ by {
        assert(a.headers@[i].0 == b.headers@[i].0 && a.headers@[i].1@ == b.headers@[i].1@);
        assert(b.headers@[i].0 == c.headers@[i].0 && b.headers@[i].1@ == c.headers@[i].1@);
    }
}

/// The two messages carry the same envelope: same addressing, payload
/// bytes and header contents.
pub open spec fn outbound_view_eq(a: OutboundMessage, b: OutboundMessage) -> bool {
    &&& a.src_node == b.src_node
    &&& a.dst_node == b.dst_node
    &&& a.corr_id == b.corr_id
    &&& a.msg_id == b.msg_id
    &&& a.require_ack == b.require_ack
    &&& a.broadcast_id == b.broadcast_id
    &&& a.broadcast_ttl == b.broadcast_ttl
    &&& a.is_broadcast == b.is_broadcast
    &&& a.payload@ == b.payload@
    &&& a.headers@.len() == b.headers@.len()
    &&& forall|i: int|
        0 <= i < a.headers@.len() ==> (#[trigger] a.headers@[i]).0 == b.headers@[i].0 && a.headers@[i].1@
            == b.headers@[i].1@
}

/// A copy of an outbound message carrying the same envelope.
pub fn clone_outbound(m: &OutboundMessage) -> (r: OutboundMessage)
    ensures
        outbound_view_eq(r, *m),
{
    let mut payload: Vec<u8> = Vec::new();
    crate::meta::append_bytes(&mut payload, m.payload.as_slice());
    let mut headers: Vec<(String, Vec<u8>)> = Vec::new();
    let n = m.headers.len();
    let mut i: usize = 0;
    while i < n
        invariant
            i <= n,
            n == m.headers@.len(),
            headers@.len() == i,
            forall|j: int|
                0 <= j < i ==> (#[trigger] headers@[j]).0 == m.headers@[j].0 && headers@[j].1@
                    == m.headers@[j].1@,
        decreases n - i,
    {
        let key = m.headers[i].0.clone();
        let mut value: Vec<u8> = Vec::new();
        crate::meta::append_bytes(&mut value, m.headers[i].1.as_slice());
        let ghost headers_old = headers@;
        headers.push((key, value));
        proof {
            assert forall|j: int|
                0 <= j < headers@.len() implies (#[trigger] headers@[j]).0 == m.headers@[j].0
                && headers@[j].1@ == m.headers@[j].1@ by {
                if j < headers_old.len() {
                    assert(headers@[j] == headers_old[j]);
                }
            }
        }
        i = i + 1;
    }
    proof {
        assert(payload@ =~= m.payload@);
    }
    OutboundMessage {
        src_node: m.src_node,
        dst_node: m.dst_node,
        payload,
        headers,
        corr_id: m.corr_id,
        msg_id: m.msg_id,
        require_ack: m.require_ack,
        broadcast_id: m.broadcast_id,
        broadcast_ttl: m.broadcast_ttl,
        is_broadcast: m.is_broadcast,
    }
}

/// Kept entries stay non-terminal when an earlier-processed, different
/// message's record is the only one that changed and the new entry's
/// record is non-terminal.
pub proof fn lemma_tick_kept_step(
    kept_old: Seq<(u64, QueuedMessage)>,
    kept_new: Seq<(u64, QueuedMessage)>,
    tracker: MessageTracker,
    old_pending: Seq<(u64, QueuedMessage)>,
    i: int,
    msg_id: u64,
)
    requires
        0 <= i < old_pending.len(),
        msg_id == old_pending[i].0,
        kept_new.len() == kept_old.len() + 1,
        forall|j: int| 0 <= j < kept_old.len() ==> #[trigger] kept_new[j] == kept_old[j],
        kept_new.last().0 == msg_id,
        kept_new.last().1.retry_count == old_pending[i].1.retry_count,
        forall|j: int|
            0 <= j < kept_old.len() ==> (match tracker.spec_record((#[trigger] kept_old[j]).0) {
                Some(record) => !record.status.spec_terminal(),
                None => false,
            }),
        match tracker.spec_record(msg_id) {
            Some(record) => !record.status.spec_terminal(),
            None => false,
        },
        forall|j: int|
            0 <= j < kept_old.len() ==> old_pending.map_values(
                |e: (u64, QueuedMessage)| e.0,
            ).subrange(0, i).contains((#[trigger] kept_old[j]).0),
        forall|j1: int, j2: int|
            0 <= j1 < j2 < kept_old.len() ==> (#[trigger] kept_old[j1]).0 != (
            #[trigger] kept_old[j2]).0,
        forall|j: int| 0 <= j < kept_old.len() ==> (#[trigger] kept_old[j]).0 != msg_id,
    ensures
        forall|j: int|
            0 <= j < kept_new.len() ==> (match tracker.spec_record((#[trigger] kept_new[j]).0) {
                Some(record) => !record.status.spec_terminal(),
                None => false,
            }),
        forall|j: int|
            0 <= j < kept_new.len() ==> old_pending.map_values(
                |e: (u64, QueuedMessage)| e.0,
            ).subrange(0, i + 1).contains((#[trigger] kept_new[j]).0),
        forall|j1: int, j2: int|
            0 <= j1 < j2 < kept_new.len() ==> (#[trigger] kept_new[j1]).0 != (
            #[trigger] kept_new[j2]).0,
{
    let ids = old_pending.map_values(|e: (u64, QueuedMessage)| e.0);
    assert forall|j: int|
        0 <= j < kept_new.len() implies ids.subrange(0, i + 1).contains(
        (#[trigger] kept_new[j]).0,
    ) by {
        if j < kept_old.len() {
            assert(kept_new[j] == kept_old[j]);
            let prefix = ids.subrange(0, i);
            assert(prefix.contains(kept_old[j].0));
            let k = choose|k: int| 0 <= k < prefix.len() && prefix[k] == kept_old[j].0;
            assert(ids.subrange(0, i + 1)[k] == kept_old[j].0);
        } else {
            assert(kept_new[j].0 == old_pending[i].0);
            assert(ids.subrange(0, i + 1)[i] == old_pending[i].0);
        }
    }
    assert forall|j1: int, j2: int|
        0 <= j1 < j2 < kept_new.len() implies (#[trigger] kept_new[j1]).0 != (
    #[trigger] kept_new[j2]).0 by {
        if j2 < kept_old.len() {
            assert(kept_new[j1] == kept_old[j1] && kept_new[j2] == kept_old[j2]);
        } else {
            assert(kept_new[j1] == kept_old[j1]);
        }
    }
    assert forall|j: int|
        0 <= j < kept_new.len() implies (match tracker.spec_record((#[trigger] kept_new[j]).0) {
        Some(record) => !record.status.spec_terminal(),
        None => false,
    }) by {
        if j < kept_old.len() {
            assert(kept_new[j] == kept_old[j]);
        }
    }
}

/// No entry is found in an ID-free pending list.
pub proof fn lemma_pending_lookup_miss(pending: Seq<(u64, QueuedMessage)>, msg_id: u64)
    requires
        forall|j: int| 0 <= j < pending.len() ==> (#[trigger] pending[j]).0 != msg_id,
    ensures
        spec_pending_lookup(pending, msg_id) is None,
    decreases pending.len(),
{
    if pending.len() > 0 {
        let tail = pending.subrange(1, pending.len() as int);
        assert(forall|j: int| 0 <= j < tail.len() ==> (#[trigger] tail[j]).0 != msg_id) by {
            assert(forall|j: int| 0 <= j < tail.len() ==> #[trigger] tail[j] == pending[j + 1]);
        }
        lemma_pending_lookup_miss(tail, msg_id);
    }
}

} // verus!
