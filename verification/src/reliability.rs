//! The reliability layer: per-peer send and receive state, write-ahead
//! logging before the socket, credit-gated sending, cumulative
//! acknowledgment, and retransmission on session resumption.
//!
//! No socket is written here: functions hand back the frame bytes that
//! are due on the wire.

use vstd::prelude::*;

use std::collections::HashMap;
use crate::codec::FrameBuilder;
use crate::frame::spec_frame_decode;
use crate::frame::FrameView;
use crate::manager::lemma_built_data_frame_decodes;
use crate::meta::lemma_cbor_head_len;
use crate::meta::lemma_lookup_none_absent;
use crate::meta::lemma_wire_literals;
use crate::meta::spec_encode_map;
use crate::errors::CodecError;
use crate::frame::DEFAULT_MAX_FRAME_SIZE;
use crate::header::FastHeader;
use crate::header::FrameType;
use crate::meta::spec_meta_lookup;
use crate::meta::MetaMap;
use crate::meta::MetaValue;
use crate::meta::MetaValueView;
use crate::storage::MemoryDedup;
use crate::storage::MemoryWal;
use crate::storage::spec_wal_range;
use crate::storage::Peer;
use crate::storage::StorageError;
use crate::storage::WalEntry;
use crate::storage::WalFrame;
use vstd::string::StringSliceAdditionalSpecFns;

verus! {

broadcast use vstd::std_specs::hash::group_hash_axioms;

/// Sender-side reliability state for one peer.
#[derive(Debug, Clone, PartialEq, Eq)]
pub struct SendState {
    /// The next message ID to assign; message IDs start at 1.
    pub next_msg_id: u64,
    /// Highest contiguous message ID the peer has acknowledged.
    pub cum_acked: u64,
    /// Credit bytes the receiver has granted.
    pub credits_bytes: i64,
    /// Frames awaiting credits, oldest first.
    pub pending_frames: Vec<(u64, Vec<u8>)>,
}

impl SendState {
    /// Fresh send state: the first message ID is 1, nothing acknowledged,
    /// no credits, nothing pending.
    pub fn new() -> (r: SendState)
        ensures
            r.next_msg_id == 1,
            r.cum_acked == 0,
            r.credits_bytes == 0,
            r.pending_frames@.len() == 0,
    {
        SendState { next_msg_id: 1, cum_acked: 0, credits_bytes: 0, pending_frames: Vec::new() }
    }
}

/// Receiver-side reliability state for one peer. Times are milliseconds
/// since the Unix epoch.
#[derive(Debug, Clone, PartialEq, Eq, Structural)]
pub struct RecvState {
    /// Contiguous processed watermark.
    pub cum_processed: u64,
    /// The full receive window in bytes.
    pub credits_max: u32,
    /// Credit bytes still granted.
    pub credits_avail: i64,
    /// Whether an acknowledgment is owed.
    pub ack_pending: bool,
    /// When the last acknowledgment went out.
    pub last_ack_sent: u64,
    /// Messages taken since the last acknowledgment.
    pub msgs_since_ack: u32,
}

impl RecvState {
    /// Fresh receive state with the whole window granted.
    pub fn new(credits_max: u32) -> (r: RecvState)
        ensures
            r.cum_processed == 0,
            r.credits_max == credits_max,
            r.credits_avail == credits_max as i64,
            r.ack_pending == false,
            r.last_ack_sent == 0,
            r.msgs_since_ack == 0,
    {
        RecvState {
            cum_processed: 0,
            credits_max,
            credits_avail: credits_max as i64,
            ack_pending: false,
            last_ack_sent: 0,
            msgs_since_ack: 0,
        }
    }
}

/// The contents of an acknowledgment frame.
#[derive(Debug, Clone, Copy, PartialEq, Eq, Structural)]
pub struct AckMeta {
    /// Highest contiguous message ID processed by the sender of the
    /// acknowledgment.
    pub cum_ack: u64,
    /// Credit bytes granted.
    pub credits: u32,
}

/// The contents of a resumption frame.
#[derive(Debug, Clone, Copy, PartialEq, Eq, Structural)]
pub struct ResumeMeta {
    /// Whether the peer asks to resume.
    pub resume: bool,
    /// The peer's view of what it has been acknowledged for.
    pub sender_cum_ack: u64,
    /// The peer's contiguous processed watermark; retransmission starts
    /// after it.
    pub receiver_cum_proc: u64,
    /// Credits the peer grants for the retransmission.
    pub starting_credits: Option<u32>,
}

/// Whether an acknowledgment is due: one is owed and the interval has
/// passed, the batch is full, or credits have run low.
pub open spec fn spec_should_ack(
    rs: RecvState,
    now_ms: u64,
    ack_interval_ms: u64,
    ack_batch_size: u32,
) -> bool {
    rs.ack_pending && (now_ms >= rs.last_ack_sent + ack_interval_ms || rs.msgs_since_ack
        >= ack_batch_size || rs.credits_avail <= rs.credits_max as i64 / 4)
}

/// How many of the frames, taken in order, fit the credit budget: the
/// longest prefix whose sizes the credits cover one after another.
pub open spec fn spec_release_count(frames: Seq<Seq<u8>>, credits: int) -> int
    decreases frames.len(),
{
    if frames.len() == 0 {
        0
    } else {
        let l = frames[0].len() as int;
        if l <= i64::MAX && l <= credits {
            1 + spec_release_count(frames.subrange(1, frames.len() as int), credits - l)
        } else {
            0
        }
    }
}

/// The credits that releasing that prefix spends.
pub open spec fn spec_release_spent(frames: Seq<Seq<u8>>, credits: int) -> int
    decreases frames.len(),
{
    if frames.len() == 0 {
        0
    } else {
        let l = frames[0].len() as int;
        if l <= i64::MAX && l <= credits {
            l + spec_release_spent(frames.subrange(1, frames.len() as int), credits - l)
        } else {
            0
        }
    }
}

/// Per-session reliability manager: storage plus per-peer state.
pub struct ReliabilityManager {
    /// The write-ahead log.
    pub wal: MemoryWal,
    /// The deduplication state.
    pub dedup: MemoryDedup,
    /// Per-peer send state.
    pub send_states: HashMap<u64, SendState>,
    /// Per-peer receive state.
    pub recv_states: HashMap<u64, RecvState>,
    /// Milliseconds between acknowledgments.
    pub ack_interval_ms: u64,
    /// Messages per acknowledgment batch.
    pub ack_batch_size: u32,
    /// Receive window granted to each fresh peer.
    pub default_recv_window: u32,
}

impl ReliabilityManager {
    /// Storage is well formed and every tracked send state continues its
    /// peer's log.
    pub open spec fn wf(self) -> bool {
        &&& self.wal.wf()
        &&& self.dedup.wf()
        &&& forall|p: u64|
            self.send_states@.contains_key(p) ==> (#[trigger] self.send_states@[p]).next_msg_id
                == self.wal.spec_last_appended(p) + 1
    }

    /// A manager over fresh storage.
    pub fn new(ack_interval_ms: u64, ack_batch_size: u32, default_recv_window: u32) -> (r:
        ReliabilityManager)
        ensures
            r.wf(),
            r.ack_interval_ms == ack_interval_ms,
            r.ack_batch_size == ack_batch_size,
            r.default_recv_window == default_recv_window,
            forall|p: u64| #[trigger] r.wal.spec_last_appended(p) == 0,
            forall|p: u64, m: u64| !(#[trigger] r.dedup.spec_processed(p, m)) || m == 0,
    {
        ReliabilityManager {
            wal: MemoryWal::new(),
            dedup: MemoryDedup::with_default_window(),
            send_states: HashMap::new(),
            recv_states: HashMap::new(),
            ack_interval_ms,
            ack_batch_size,
            default_recv_window,
        }
    }

    /// Track send state for `peer`, continuing from the log: the next
    /// message ID is one past the last appended, and the acknowledgment
    /// watermark is the stored one.
    pub fn init_send_state(&mut self, peer: Peer) -> (r: Result<(), StorageError>)
        requires
            old(self).wf(),
        ensures
            r is Ok,
            final(self).wf(),
            final(self).wal == old(self).wal,
            final(self).dedup == old(self).dedup,
            final(self).recv_states@ == old(self).recv_states@,
            old(self).send_states@.contains_key(peer.0) || old(self).wal.spec_last_appended(
                peer.0,
            ) < u64::MAX ==> final(self).send_states@.contains_key(peer.0),
            old(self).send_states@.contains_key(peer.0) ==> final(self).send_states@ == old(
                self,
            ).send_states@,
            !old(self).send_states@.contains_key(peer.0) && old(self).wal.spec_last_appended(
                peer.0,
            ) < u64::MAX ==> ({
                let st = final(self).send_states@[peer.0];
                &&& st.next_msg_id == old(self).wal.spec_last_appended(peer.0) + 1
                &&& st.cum_acked == old(self).wal.spec_ack(peer.0)
                &&& st.credits_bytes == 0
                &&& st.pending_frames@.len() == 0
            }),
    {
        if self.send_states.contains_key(&peer.0) {
            return Ok(());
        }
        let last = match self.wal.last_appended(peer) {
            Ok(v) => v,
            Err(e) => {
                return Err(e);
            },
        };
        let ack = match self.wal.load_ack(peer) {
            Ok(v) => v,
            Err(e) => {
                return Err(e);
            },
        };
        if last == u64::MAX {
            // The log cannot grow past the last assignable ID; treat the
            // peer as exhausted without tracking it anew.
            return Ok(());
        }
        let state = SendState {
            next_msg_id: last + 1,
            cum_acked: ack.cum_acked,
            credits_bytes: 0,
            pending_frames: Vec::new(),
        };
        self.send_states.insert(peer.0, state);
        Ok(())
    }

    /// Track receive state for `peer`, continuing from the deduplication
    /// watermark with the whole window granted.
    pub fn init_recv_state(&mut self, peer: Peer) -> (r: Result<(), StorageError>)
        requires
            old(self).wf(),
        ensures
            r is Ok,
            final(self).wf(),
            final(self).wal == old(self).wal,
            final(self).dedup == old(self).dedup,
            final(self).send_states@ == old(self).send_states@,
            final(self).recv_states@.contains_key(peer.0),
            old(self).recv_states@.contains_key(peer.0) ==> final(self).recv_states@ == old(
                self,
            ).recv_states@,
            !old(self).recv_states@.contains_key(peer.0) ==> final(self).recv_states@[peer.0]
                == (RecvState {
                cum_processed: old(self).dedup.spec_cum(peer.0),
                credits_max: old(self).default_recv_window,
                credits_avail: old(self).default_recv_window as i64,
                ack_pending: false,
                last_ack_sent: 0,
                msgs_since_ack: 0,
            }),
    {
        if self.recv_states.contains_key(&peer.0) {
            return Ok(());
        }
        let cum = match self.dedup.cum_processed(peer) {
            Ok(v) => v,
            Err(e) => {
                return Err(e);
            },
        };
        let state = RecvState {
            cum_processed: cum,
            credits_max: self.default_recv_window,
            credits_avail: self.default_recv_window as i64,
            ack_pending: false,
            last_ack_sent: 0,
            msgs_since_ack: 0,
        };
        self.recv_states.insert(peer.0, state);
        Ok(())
    }

    /// Send one data payload to `peer`: assign the next message ID, build
    /// the data frame, append it to the log, and either hand the frame
    /// bytes back for the socket (when credits cover them) or park them.
    /// On a payload too large for a frame, nothing is appended or
    /// changed. After success the log's last appended ID is exactly the
    /// assigned message ID — nothing is handed to the wire that the log
    /// does not hold.
    #[verifier::rlimit(60)]
    pub fn send_data(&mut self, peer: Peer, my_node_id: u64, payload: Vec<u8>) -> (r: Result<
        (u64, Option<Vec<u8>>),
        CodecError,
    >)
        requires
            old(self).wf(),
            old(self).send_states@.contains_key(peer.0),
            old(self).send_states@[peer.0].next_msg_id < u64::MAX,
        ensures
            final(self).wf(),
            final(self).dedup == old(self).dedup,
            final(self).recv_states@ == old(self).recv_states@,
            payload@.len() > DEFAULT_MAX_FRAME_SIZE ==> r is Err,
            r is Err ==> 89 + payload@.len() > DEFAULT_MAX_FRAME_SIZE,
            r is Err ==> final(self).wal == old(self).wal && final(self).send_states@ == old(
                self,
            ).send_states@,
            r matches Ok((msg_id, _)) ==> ({
                &&& msg_id == old(self).send_states@[peer.0].next_msg_id
                &&& final(self).wal.spec_last_appended(peer.0) == msg_id
                &&& final(self).send_states@[peer.0].next_msg_id == msg_id + 1
                &&& final(self).wal.spec_entries(peer.0).len() == old(self).wal.spec_entries(
                    peer.0,
                ).len() + 1
                &&& final(self).wal.spec_entries(peer.0).last().0 == msg_id
            }),
            r matches Ok((msg_id, sent)) ==> ({
                let frame = final(self).wal.spec_entries(peer.0).last().1;
                let credits0 = old(self).send_states@[peer.0].credits_bytes;
                match sent {
                    Some(bytes) => {
                        &&& bytes@ == frame
                        &&& frame.len() <= i64::MAX
                        &&& credits0 >= frame.len()
                        &&& final(self).send_states@[peer.0].credits_bytes == credits0
                            - frame.len()
                        &&& final(self).send_states@[peer.0].pending_frames@ == old(
                            self,
                        ).send_states@[peer.0].pending_frames@
                    },
                    None => {
                        &&& !(frame.len() <= i64::MAX && credits0 >= frame.len())
                        &&& final(self).send_states@[peer.0].credits_bytes == credits0
                        &&& final(self).send_states@[peer.0].pending_frames@.len() == old(
                            self,
                        ).send_states@[peer.0].pending_frames@.len() + 1
                        &&& final(self).send_states@[peer.0].pending_frames@.last().0 == msg_id
                        &&& final(self).send_states@[peer.0].pending_frames@.last().1@ == frame
                    },
                }
            }),
    {
        let state = match self.send_states.get(&peer.0) {
            Some(s) => s,
            None => {
                proof {
                    assert(false);
                }
                return Err(CodecError::MetaEncode);
            },
        };
        let msg_id = state.next_msg_id;
        let header = FastHeader::new(FrameType::Data, my_node_id, peer.0, msg_id);
        let b0 = FrameBuilder::new(header);
        let b1 = b0.meta_insert_str("content-type", "application/x-data");
        let builder = b1.payload(payload);
        let ghost payload_view = builder.payload@;
        let ghost gb = builder;
        proof {
            lemma_wire_literals();
            let fl = crate::header::FLAG_HDR_CHECKSUM;
            assert(0u16 & fl == 0) by (bit_vector);
            assert(gb.fast.flags == 0);
            lemma_cbor_head_len(crate::meta::CBOR_BASE_TEXT, 12);
            lemma_cbor_head_len(crate::meta::CBOR_BASE_TEXT, 18);
            lemma_cbor_head_len(crate::meta::CBOR_BASE_MAP, 1);
            assert(crate::meta::spec_encode_entries(b0.meta.map@).len() == 0);
            assert(crate::meta::spec_encode_entry(
                "content-type".spec_bytes(),
                MetaValueView::Text("application/x-data".spec_bytes()),
            ).len() == 32);
            assert(spec_encode_map(gb.meta.map@).len() == 33);
        }
        let frame_bytes = match builder.build(DEFAULT_MAX_FRAME_SIZE) {
            Ok(bytes) => bytes,
            Err(e) => {
                proof {
                    let m = choose|m: Seq<(Seq<u8>, MetaValueView)>|
                        {
                            &&& #[trigger] crate::codec::build_meta_ok(gb, m)
                            &&& crate::codec::spec_built_frame(gb, m).spec_encoded_size()
                                > DEFAULT_MAX_FRAME_SIZE
                            &&& e == CodecError::Wire(
                                crate::errors::WireError::Size(
                                    crate::codec::spec_built_frame(gb, m).spec_encoded_size()
                                        as usize,
                                ),
                            )
                        };
                    assert(m == gb.meta.map@);
                }
                return Err(e);
            },
        };
        proof {
            assert(old(self).send_states@[peer.0].next_msg_id == old(
                self,
            ).wal.spec_last_appended(peer.0) + 1);
        }
        let ghost fbv = frame_bytes@;
        let wal_frame = WalFrame {
            msg_id,
            bytes: frame_bytes.as_slice(),
            approx_len: frame_bytes.len(),
        };
        match self.wal.append(peer, wal_frame) {
            Ok(()) => {},
            Err(_) => {
                proof {
                    assert(false);
                }
                return Err(CodecError::MetaEncode);
            },
        }
        let mut state = match self.send_states.remove(&peer.0) {
            Some(s) => s,
            None => {
                proof {
                    assert(false);
                }
                return Err(CodecError::MetaEncode);
            },
        };
        state.next_msg_id = msg_id + 1;
        let frame_len = frame_bytes.len();
        let fits = frame_len as u64 <= i64::MAX as u64;
        let frame_len_i: i64 = if fits {
            frame_len as i64
        } else {
            i64::MAX
        };
        if fits && state.credits_bytes >= frame_len_i {
            state.credits_bytes = state.credits_bytes - frame_len_i;
            self.send_states.insert(peer.0, state);
            proof {
                assert forall|p: u64| p != peer.0 implies #[trigger] self.wal.spec_last_appended(
                    p,
                ) == old(self).wal.spec_last_appended(p) by {
                    assert(self.wal.spec_entries(p) == old(self).wal.spec_entries(p));
                }
                lemma_send_wf_restore(*old(self), *self, peer.0, msg_id);
                assert(self.wal.spec_entries(peer.0).last() == (msg_id, fbv));
                assert(self.send_states@[peer.0] == state);
            }
            Ok((msg_id, Some(frame_bytes)))
        } else {
            state.pending_frames.push((msg_id, frame_bytes));
            self.send_states.insert(peer.0, state);
            proof {
                assert forall|p: u64| p != peer.0 implies #[trigger] self.wal.spec_last_appended(
                    p,
                ) == old(self).wal.spec_last_appended(p) by {
                    assert(self.wal.spec_entries(p) == old(self).wal.spec_entries(p));
                }
                lemma_send_wf_restore(*old(self), *self, peer.0, msg_id);
                assert(self.wal.spec_entries(peer.0).last() == (msg_id, fbv));
                assert(self.send_states@[peer.0] == state);
                assert(state.pending_frames@.last().1@ == fbv);
            }
            Ok((msg_id, None))
        }
    }

    /// Take delivery of a data frame from `peer`: a first arrival is
    /// recorded as processed and consumes credits, a duplicate is not
    /// delivered again; both leave an acknowledgment owed. Yields whether
    /// the frame is new and should go upward — the same message arriving
    /// twice is handed up exactly once.
    pub fn process_data_frame(&mut self, peer: Peer, msg_id: u64, payload_len: usize) -> (r:
        Result<bool, StorageError>)
        requires
            old(self).wf(),
            old(self).recv_states@.contains_key(peer.0),
        ensures
            final(self).wf(),
            final(self).wal == old(self).wal,
            final(self).send_states@ == old(self).send_states@,
            r == Ok::<bool, StorageError>(!old(self).dedup.spec_processed(peer.0, msg_id)),
            final(self).dedup.spec_processed(peer.0, msg_id),
            forall|m: u64|
                old(self).dedup.spec_processed(peer.0, m) ==> #[trigger] final(self).dedup.spec_processed(peer.0, m),
            old(self).dedup.spec_processed(peer.0, msg_id) ==> final(self).dedup == old(self).dedup
                && final(self).recv_states@ == old(self).recv_states@.insert(
                peer.0,
                (RecvState { ack_pending: true, ..old(self).recv_states@[peer.0] }),
            ),
            !old(self).dedup.spec_processed(peer.0, msg_id) ==> ({
                let rs0 = old(self).recv_states@[peer.0];
                let consumed = (if payload_len as u64 <= i64::MAX as u64 {
                    payload_len as i64
                } else {
                    i64::MAX
                });
                final(self).recv_states@ == old(self).recv_states@.insert(
                    peer.0,
                    (RecvState {
                        cum_processed: final(self).dedup.spec_cum(peer.0),
                        credits_max: rs0.credits_max,
                        credits_avail: (if rs0.credits_avail >= i64::MIN + consumed {
                            (rs0.credits_avail - consumed) as i64
                        } else {
                            rs0.credits_avail
                        }),
                        ack_pending: true,
                        last_ack_sent: rs0.last_ack_sent,
                        msgs_since_ack: (if rs0.msgs_since_ack < u32::MAX {
                            (rs0.msgs_since_ack + 1) as u32
                        } else {
                            rs0.msgs_since_ack
                        }),
                    }),
                )
            }),
    {
        let already = match self.dedup.is_processed(peer, msg_id) {
            Ok(v) => v,
            Err(e) => {
                return Err(e);
            },
        };
        let mut rs = match self.recv_states.remove(&peer.0) {
            Some(s) => s,
            None => {
                proof {
                    assert(false);
                }
                return Err(StorageError::NotFound);
            },
        };
        if already {
            rs.ack_pending = true;
            self.recv_states.insert(peer.0, rs);
            proof {
                assert(self.recv_states@ =~= old(self).recv_states@.insert(
                    peer.0,
                    (RecvState { ack_pending: true, ..old(self).recv_states@[peer.0] }),
                ));
            }
            return Ok(false);
        }
        match self.dedup.mark_processed(peer, msg_id) {
            Ok(()) => {},
            Err(e) => {
                return Err(e);
            },
        }
        let cum = match self.dedup.cum_processed(peer) {
            Ok(v) => v,
            Err(e) => {
                return Err(e);
            },
        };
        rs.cum_processed = cum;
        let consumed: i64 = if payload_len as u64 <= i64::MAX as u64 {
            payload_len as i64
        } else {
            i64::MAX
        };
        if rs.credits_avail >= i64::MIN + consumed {
            rs.credits_avail = rs.credits_avail - consumed;
        }
        rs.ack_pending = true;
        if rs.msgs_since_ack < u32::MAX {
            rs.msgs_since_ack = rs.msgs_since_ack + 1;
        }
        self.recv_states.insert(peer.0, rs);
        proof {
            let rs0 = old(self).recv_states@[peer.0];
            let consumed_s = (if payload_len as u64 <= i64::MAX as u64 {
                payload_len as i64
            } else {
                i64::MAX
            });
            assert(self.recv_states@ =~= old(self).recv_states@.insert(
                peer.0,
                (RecvState {
                    cum_processed: self.dedup.spec_cum(peer.0),
                    credits_max: rs0.credits_max,
                    credits_avail: (if rs0.credits_avail >= i64::MIN + consumed_s {
                        (rs0.credits_avail - consumed_s) as i64
                    } else {
                        rs0.credits_avail
                    }),
                    ack_pending: true,
                    last_ack_sent: rs0.last_ack_sent,
                    msgs_since_ack: (if rs0.msgs_since_ack < u32::MAX {
                        (rs0.msgs_since_ack + 1) as u32
                    } else {
                        rs0.msgs_since_ack
                    }),
                }),
            ));
        }
        Ok(true)
    }

    /// Apply an incoming acknowledgment from `peer`: the watermark
    /// advances to the acknowledged ID when it is ahead, the log stores
    /// it and drops everything at or below it, granted credits replace
    /// the old balance, and parked frames are released in order while
    /// credits cover them; those released come back for the socket.
    pub fn process_ack_frame(&mut self, peer: Peer, ack_meta: AckMeta) -> (r: Result<
        Vec<Vec<u8>>,
        StorageError,
    >)
        requires
            old(self).wf(),
            old(self).send_states@.contains_key(peer.0),
        ensures
            final(self).wf(),
            final(self).dedup == old(self).dedup,
            final(self).recv_states@ == old(self).recv_states@,
            r is Ok,
            r is Ok ==> ({
                &&& final(self).send_states@.contains_key(peer.0)
                &&& final(self).send_states@[peer.0].cum_acked == (if ack_meta.cum_ack > old(
                    self,
                ).send_states@[peer.0].cum_acked {
                    ack_meta.cum_ack
                } else {
                    old(self).send_states@[peer.0].cum_acked
                })
                &&& (ack_meta.cum_ack > old(self).send_states@[peer.0].cum_acked ==> final(self).wal.spec_ack(peer.0) == ack_meta.cum_ack && final(self).wal.spec_entries(peer.0)
                    == old(self).wal.spec_entries(peer.0).filter(
                    |e: (u64, Seq<u8>)| e.0 > ack_meta.cum_ack,
                ))
                &&& final(self).send_states@[peer.0].next_msg_id == old(
                    self,
                ).send_states@[peer.0].next_msg_id
            }),
            r matches Ok(rel) ==> ({
                let st0 = old(self).send_states@[peer.0];
                let frames = st0.pending_frames@.map_values(|e: (u64, Vec<u8>)| e.1@);
                let granted = ack_meta.credits as int;
                let k = spec_release_count(frames, granted);
                &&& rel@.len() == k
                &&& (forall|j: int| 0 <= j < rel@.len() ==> (#[trigger] rel@[j])@ == frames[j])
                &&& final(self).send_states@[peer.0].pending_frames@
                    == st0.pending_frames@.subrange(k, st0.pending_frames@.len() as int)
                &&& final(self).send_states@[peer.0].credits_bytes == granted
                    - spec_release_spent(frames, granted)
            }),
    {
        let mut state = match self.send_states.remove(&peer.0) {
            Some(s) => s,
            None => {
                proof {
                    assert(false);
                }
                return Err(StorageError::NotFound);
            },
        };
        if ack_meta.cum_ack > state.cum_acked {
            state.cum_acked = ack_meta.cum_ack;
            match self.wal.store_ack(peer, crate::storage::AckState { cum_acked: ack_meta.cum_ack })
            {
                Ok(()) => {},
                Err(e) => {
                    self.send_states.insert(peer.0, state);
                    proof {
                        assert(false);
                    }
                    return Err(e);
                },
            }
            match self.wal.truncate_through(peer, ack_meta.cum_ack) {
                Ok(()) => {},
                Err(e) => {
                    self.send_states.insert(peer.0, state);
                    proof {
                        assert(false);
                    }
                    return Err(e);
                },
            }
        }
        state.credits_bytes = ack_meta.credits as i64;
        let ghost next_before = state.next_msg_id;
        let released = drain_pending(&mut state);
        self.send_states.insert(peer.0, state);
        proof {
            assert forall|p: u64| self.send_states@.contains_key(p) implies (
            #[trigger] self.send_states@[p]).next_msg_id == self.wal.spec_last_appended(p)
                + 1 by {
                if p != peer.0 {
                    assert(self.send_states@[p] == old(self).send_states@[p]);
                    assert(old(self).send_states@.contains_key(p));
                    assert((#[trigger] old(self).send_states@[p]).next_msg_id == old(
                        self,
                    ).wal.spec_last_appended(p) + 1);
                    assert(self.wal.spec_entries(p) == old(self).wal.spec_entries(p));
                } else {
                    assert(self.send_states@[p].next_msg_id == next_before);
                    assert(self.wal.spec_last_appended(p) == old(self).wal.spec_last_appended(p));
                }
            }
        }
        Ok(released)
    }

    /// Build an acknowledgment frame for `peer` if one is due at clock
    /// reading `now_ms`: one is owed and the interval has passed, the
    /// batch is full, or credits are low. When due, credits at or below
    /// half the window are refilled to the whole window first, and the
    /// frame carries the watermark and the granted credits under
    /// `cum_ack` and `credits`; the acknowledgment's metadata is small, so
    /// building never fails.
    #[verifier::rlimit(100)]
    #[verifier::spinoff_prover]
    pub fn maybe_build_ack(&mut self, peer: Peer, my_node_id: u64, now_ms: u64) -> (r: Result<
        Option<Vec<u8>>,
        CodecError,
    >)
        requires
            old(self).wf(),
            old(self).recv_states@.contains_key(peer.0),
        ensures
            final(self).wf(),
            final(self).wal == old(self).wal,
            final(self).dedup == old(self).dedup,
            final(self).send_states@ == old(self).send_states@,
            r is Ok,
            !spec_should_ack(
                old(self).recv_states@[peer.0],
                now_ms,
                old(self).ack_interval_ms,
                old(self).ack_batch_size,
            ) ==> (r matches Ok(None) && final(self).recv_states@ == old(self).recv_states@),
            spec_should_ack(
                old(self).recv_states@[peer.0],
                now_ms,
                old(self).ack_interval_ms,
                old(self).ack_batch_size,
            ) ==> (r matches Ok(Some(_))),
            r matches Ok(Some(bytes)) ==> ({
                let rs0 = old(self).recv_states@[peer.0];
                let avail = (if rs0.credits_avail <= rs0.credits_max as i64 / 2 {
                    rs0.credits_max as i64
                } else {
                    rs0.credits_avail
                });
                let granted = (if avail < 0 {
                    0u64
                } else if avail <= u32::MAX as i64 {
                    avail as u64
                } else {
                    u32::MAX as u64
                });
                &&& final(self).recv_states@ == old(self).recv_states@.insert(
                    peer.0,
                    (RecvState {
                        credits_avail: avail,
                        ack_pending: false,
                        last_ack_sent: now_ms,
                        msgs_since_ack: 0,
                        ..rs0
                    }),
                )
                &&& (spec_frame_decode(bytes@, 65536) matches Ok(dec) && dec matches Some(p) && ({
                    let f = p.0;
                    &&& f.fast.typ == FrameType::Ack
                    &&& f.fast.src_node == my_node_id
                    &&& f.fast.dst_node == peer.0
                    &&& (crate::meta::spec_decode_map(f.meta_raw) matches Some(m) && spec_meta_lookup(
                        m,
                        "cum_ack".spec_bytes(),
                    ) == Some(MetaValueView::U64(rs0.cum_processed)) && spec_meta_lookup(
                        m,
                        "credits".spec_bytes(),
                    ) == Some(MetaValueView::U64(granted)) && spec_meta_lookup(
                        m,
                        "content-type".spec_bytes(),
                    ) == Some(MetaValueView::Text("application/x-ack".spec_bytes())))
                }))
            }),
    {
        let rs_ref = match self.recv_states.get(&peer.0) {
            Some(s) => s,
            None => {
                proof {
                    assert(false);
                }
                return Err(CodecError::MetaEncode);
            },
        };
        let interval_passed = now_ms >= rs_ref.last_ack_sent && now_ms - rs_ref.last_ack_sent
            >= self.ack_interval_ms;
        let should = rs_ref.ack_pending && (interval_passed || rs_ref.msgs_since_ack
            >= self.ack_batch_size || rs_ref.credits_avail <= rs_ref.credits_max as i64 / 4);
        if !should {
            return Ok(None);
        }
        let mut rs = match self.recv_states.remove(&peer.0) {
            Some(s) => s,
            None => {
                proof {
                    assert(false);
                }
                return Err(CodecError::MetaEncode);
            },
        };
        if rs.credits_avail <= rs.credits_max as i64 / 2 {
            rs.credits_avail = rs.credits_max as i64;
        }
        let credits_granted: u32 = if rs.credits_avail >= 0 && rs.credits_avail <= u32::MAX
            as i64 {
            rs.credits_avail as u32
        } else if rs.credits_avail < 0 {
            0
        } else {
            u32::MAX
        };
        let header = FastHeader::new(FrameType::Ack, my_node_id, peer.0, 0);
        let b0 = FrameBuilder::new(header);
        let b1 = b0.meta_insert_str("content-type", "application/x-ack");
        let b2 = b1.meta_insert_u64("cum_ack", rs.cum_processed);
        let builder = b2.meta_insert_u64("credits", credits_granted as u64);
        let ghost gb = builder;
        proof {
            lemma_wire_literals();
            let fl = crate::header::FLAG_HDR_CHECKSUM;
            assert(0u16 & fl == 0) by (bit_vector);
            assert(gb.fast.flags == 0);
            assert(spec_meta_lookup(b1.meta.map@, "cum_ack".spec_bytes()) is None);
            lemma_lookup_none_absent(b1.meta.map@, "cum_ack".spec_bytes());
            assert(spec_meta_lookup(b2.meta.map@, "credits".spec_bytes()) is None);
            lemma_lookup_none_absent(b2.meta.map@, "credits".spec_bytes());
            lemma_cbor_head_len(crate::meta::CBOR_BASE_TEXT, 12);
            lemma_cbor_head_len(crate::meta::CBOR_BASE_TEXT, 17);
            lemma_cbor_head_len(crate::meta::CBOR_BASE_UINT, rs.cum_processed);
            lemma_cbor_head_len(crate::meta::CBOR_BASE_UINT, credits_granted as u64);
            lemma_cbor_head_len(crate::meta::CBOR_BASE_MAP, 3);
            assert(crate::meta::spec_encode_entries(b0.meta.map@).len() == 0);
            assert(crate::meta::spec_encode_entry(
                "content-type".spec_bytes(),
                MetaValueView::Text("application/x-ack".spec_bytes()),
            ).len() == 31);
            assert(crate::meta::spec_encode_entry(
                "cum_ack".spec_bytes(),
                MetaValueView::U64(rs.cum_processed),
            ).len() <= 17);
            assert(crate::meta::spec_encode_entry(
                "credits".spec_bytes(),
                MetaValueView::U64(credits_granted as u64),
            ).len() <= 17);
            assert(crate::meta::spec_encode_entries(gb.meta.map@).len() <= 65);
            assert(spec_encode_map(gb.meta.map@).len() <= 66);
        }
        let frame_bytes = match builder.build(65536) {
            Ok(bytes) => bytes,
            Err(e) => {
                self.recv_states.insert(peer.0, rs);
                proof {
                    let m = choose|m: Seq<(Seq<u8>, MetaValueView)>|
                        {
                            &&& #[trigger] crate::codec::build_meta_ok(gb, m)
                            &&& crate::codec::spec_built_frame(gb, m).spec_encoded_size() > 65536
                            &&& e == CodecError::Wire(
                                crate::errors::WireError::Size(
                                    crate::codec::spec_built_frame(gb, m).spec_encoded_size()
                                        as usize,
                                ),
                            )
                        };
                    assert(m == gb.meta.map@);
                    assert(false);
                }
                return Err(e);
            },
        };
        proof {
            let m = choose|m: Seq<(Seq<u8>, MetaValueView)>|
                {
                    &&& #[trigger] crate::codec::build_meta_ok(gb, m)
                    &&& crate::codec::spec_built_frame(gb, m).spec_encoded_size() <= 65536
                    &&& frame_bytes@ == crate::frame::spec_frame_bytes(
                        crate::codec::spec_built_frame(gb, m),
                    )
                };
            assert(m == gb.meta.map@);
            lemma_built_data_frame_decodes(gb, m, frame_bytes@);
            crate::meta::lemma_meta_round_trip(m);
        }
        rs.ack_pending = false;
        rs.last_ack_sent = now_ms;
        rs.msgs_since_ack = 0;
        self.recv_states.insert(peer.0, rs);
        proof {
            let rs0 = old(self).recv_states@[peer.0];
            let avail = (if rs0.credits_avail <= rs0.credits_max as i64 / 2 {
                rs0.credits_max as i64
            } else {
                rs0.credits_avail
            });
            assert(self.recv_states@ =~= old(self).recv_states@.insert(
                peer.0,
                (RecvState {
                    credits_avail: avail,
                    ack_pending: false,
                    last_ack_sent: now_ms,
                    msgs_since_ack: 0,
                    ..rs0
                }),
            ));
        }
        Ok(Some(frame_bytes))
    }

    /// Build a resumption frame for `peer` carrying this side's
    /// acknowledgment view, its processed watermark, and the credits it
    /// grants for the replay. The resumption's metadata is small, so
    /// building never fails.
    #[verifier::rlimit(100)]
    #[verifier::spinoff_prover]
    pub fn build_resume(&mut self, peer: Peer, my_node_id: u64) -> (r: Result<Vec<u8>, CodecError>)
        requires
            old(self).wf(),
            old(self).send_states@.contains_key(peer.0),
            old(self).recv_states@.contains_key(peer.0),
        ensures
            *final(self) == *old(self),
            r is Ok,
            r matches Ok(bytes) ==> ({
                let ss0 = old(self).send_states@[peer.0];
                let rs0 = old(self).recv_states@[peer.0];
                spec_frame_decode(bytes@, 65536) matches Ok(dec) && dec matches Some(p) && ({
                    let f = p.0;
                    &&& f.fast.typ == FrameType::Resume
                    &&& f.fast.src_node == my_node_id
                    &&& f.fast.dst_node == peer.0
                    &&& (crate::meta::spec_decode_map(f.meta_raw) matches Some(m)
                        && spec_meta_lookup(m, "resume".spec_bytes()) == Some(
                        MetaValueView::Text("true".spec_bytes()),
                    ) && spec_meta_lookup(m, "sender_cum_ack".spec_bytes()) == Some(
                        MetaValueView::U64(ss0.cum_acked),
                    ) && spec_meta_lookup(m, "receiver_cum_proc".spec_bytes()) == Some(
                        MetaValueView::U64(rs0.cum_processed),
                    ) && spec_meta_lookup(m, "starting_credits".spec_bytes()) == Some(
                        MetaValueView::U64(rs0.credits_max as u64),
                    ))
                })
            }),
    {
        let ss = match self.send_states.get(&peer.0) {
            Some(s) => s,
            None => {
                proof {
                    assert(false);
                }
                return Err(CodecError::MetaEncode);
            },
        };
        let rs = match self.recv_states.get(&peer.0) {
            Some(s) => s,
            None => {
                proof {
                    assert(false);
                }
                return Err(CodecError::MetaEncode);
            },
        };
        let header = FastHeader::new(FrameType::Resume, my_node_id, peer.0, 0);
        let b0 = FrameBuilder::new(header);
        let b1 = b0.meta_insert_str("content-type", "application/x-resume");
        let b2 = b1.meta_insert_bool_text("resume", true);
        let b3 = b2.meta_insert_u64("sender_cum_ack", ss.cum_acked);
        let b4 = b3.meta_insert_u64("receiver_cum_proc", rs.cum_processed);
        let builder = b4.meta_insert_u64("starting_credits", rs.credits_max as u64);
        let ghost gb = builder;
        proof {
            lemma_wire_literals();
            let fl = crate::header::FLAG_HDR_CHECKSUM;
            assert(0u16 & fl == 0) by (bit_vector);
            assert(gb.fast.flags == 0);
            assert(spec_meta_lookup(b1.meta.map@, "resume".spec_bytes()) is None);
            lemma_lookup_none_absent(b1.meta.map@, "resume".spec_bytes());
            assert(spec_meta_lookup(b2.meta.map@, "sender_cum_ack".spec_bytes()) is None);
            lemma_lookup_none_absent(b2.meta.map@, "sender_cum_ack".spec_bytes());
            assert(spec_meta_lookup(b3.meta.map@, "receiver_cum_proc".spec_bytes()) is None);
            lemma_lookup_none_absent(b3.meta.map@, "receiver_cum_proc".spec_bytes());
            assert(spec_meta_lookup(b4.meta.map@, "starting_credits".spec_bytes()) is None);
            lemma_lookup_none_absent(b4.meta.map@, "starting_credits".spec_bytes());
            lemma_cbor_head_len(crate::meta::CBOR_BASE_TEXT, 12);
            lemma_cbor_head_len(crate::meta::CBOR_BASE_TEXT, 20);
            lemma_cbor_head_len(crate::meta::CBOR_BASE_TEXT, 6);
            lemma_cbor_head_len(crate::meta::CBOR_BASE_TEXT, 4);
            lemma_cbor_head_len(crate::meta::CBOR_BASE_TEXT, 14);
            lemma_cbor_head_len(crate::meta::CBOR_BASE_TEXT, 17);
            lemma_cbor_head_len(crate::meta::CBOR_BASE_TEXT, 16);
            lemma_cbor_head_len(crate::meta::CBOR_BASE_UINT, ss.cum_acked);
            lemma_cbor_head_len(crate::meta::CBOR_BASE_UINT, rs.cum_processed);
            lemma_cbor_head_len(crate::meta::CBOR_BASE_UINT, rs.credits_max as u64);
            lemma_cbor_head_len(crate::meta::CBOR_BASE_MAP, 5);
            assert(crate::meta::spec_encode_entries(b0.meta.map@).len() == 0);
            assert(crate::meta::spec_encode_entry(
                "content-type".spec_bytes(),
                MetaValueView::Text("application/x-resume".spec_bytes()),
            ).len() == 34);
            assert(crate::meta::spec_encode_entry(
                "resume".spec_bytes(),
                MetaValueView::Text("true".spec_bytes()),
            ).len() == 12);
            assert(crate::meta::spec_encode_entry(
                "sender_cum_ack".spec_bytes(),
                MetaValueView::U64(ss.cum_acked),
            ).len() <= 24);
            assert(crate::meta::spec_encode_entry(
                "receiver_cum_proc".spec_bytes(),
                MetaValueView::U64(rs.cum_processed),
            ).len() <= 27);
            assert(crate::meta::spec_encode_entry(
                "starting_credits".spec_bytes(),
                MetaValueView::U64(rs.credits_max as u64),
            ).len() <= 26);
            assert(crate::meta::spec_encode_entries(gb.meta.map@).len() <= 123);
            assert(spec_encode_map(gb.meta.map@).len() <= 124);
        }
        match builder.build(65536) {
            Ok(bytes) => {
                proof {
                    let m = choose|m: Seq<(Seq<u8>, MetaValueView)>|
                        {
                            &&& #[trigger] crate::codec::build_meta_ok(gb, m)
                            &&& crate::codec::spec_built_frame(gb, m).spec_encoded_size() <= 65536
                            &&& bytes@ == crate::frame::spec_frame_bytes(
                                crate::codec::spec_built_frame(gb, m),
                            )
                        };
                    assert(m == gb.meta.map@);
                    lemma_built_data_frame_decodes(gb, m, bytes@);
                    crate::meta::lemma_meta_round_trip(m);
                }
                Ok(bytes)
            },
            Err(e) => {
                proof {
                    let m = choose|m: Seq<(Seq<u8>, MetaValueView)>|
                        {
                            &&& #[trigger] crate::codec::build_meta_ok(gb, m)
                            &&& crate::codec::spec_built_frame(gb, m).spec_encoded_size() > 65536
                            &&& e == CodecError::Wire(
                                crate::errors::WireError::Size(
                                    crate::codec::spec_built_frame(gb, m).spec_encoded_size()
                                        as usize,
                                ),
                            )
                        };
                    assert(m == gb.meta.map@);
                    assert(false);
                }
                Err(e)
            },
        }
    }

    /// Answer a peer's resumption: set credits from the grant, read every
    /// logged frame past the peer's processed watermark, and hand back,
    /// in message-ID order, the longest prefix of them that the credits
    /// cover, for the socket to carry again.
    pub fn handle_resume(&mut self, peer: Peer, resume_meta: ResumeMeta) -> (r: Result<
        Vec<Vec<u8>>,
        StorageError,
    >)
        requires
            old(self).wf(),
            old(self).send_states@.contains_key(peer.0),
        ensures
            final(self).wf(),
            final(self).wal == old(self).wal,
            final(self).dedup == old(self).dedup,
            final(self).recv_states@ == old(self).recv_states@,
            r is Ok,
            r matches Ok(rel) ==> ({
                let ev = spec_wal_range(
                    old(self).wal.spec_entries(peer.0),
                    resume_meta.receiver_cum_proc,
                    old(self).wal.spec_entries(peer.0).len() as int,
                );
                let frames = ev.map_values(|e: (u64, Seq<u8>)| e.1);
                let granted = (match resume_meta.starting_credits {
                    Some(c) => c as int,
                    None => old(self).send_states@[peer.0].credits_bytes as int,
                });
                &&& rel@.len() == spec_release_count(frames, granted)
                &&& (forall|j: int| 0 <= j < rel@.len() ==> (#[trigger] rel@[j])@ == frames[j])
                &&& final(self).send_states@.contains_key(peer.0)
                &&& final(self).send_states@[peer.0].credits_bytes == granted
                    - spec_release_spent(frames, granted)
                &&& final(self).send_states@[peer.0].pending_frames@ == old(
                    self,
                ).send_states@[peer.0].pending_frames@
                &&& final(self).send_states@[peer.0].next_msg_id == old(
                    self,
                ).send_states@[peer.0].next_msg_id
            }),
    {
        let mut state = match self.send_states.remove(&peer.0) {
            Some(s) => s,
            None => {
                proof {
                    assert(false);
                }
                return Err(StorageError::NotFound);
            },
        };
        match resume_meta.starting_credits {
            Some(credits) => {
                state.credits_bytes = credits as i64;
            },
            None => {},
        }
        let entries = match self.wal.range(peer, resume_meta.receiver_cum_proc, None) {
            Ok(es) => es,
            Err(e) => {
                self.send_states.insert(peer.0, state);
                proof {
                    assert(false);
                }
                return Err(e);
            },
        };
        proof {
            let ev = spec_wal_range(
                old(self).wal.spec_entries(peer.0),
                resume_meta.receiver_cum_proc,
                old(self).wal.spec_entries(peer.0).len() as int,
            );
            assert(entries@.map_values(|e: WalEntry| e.bytes@) =~= ev.map_values(
                |e: (u64, Seq<u8>)| e.1,
            ));
        }
        let released = take_within_credits(&entries, &mut state);
        self.send_states.insert(peer.0, state);
        proof {
            assert forall|p: u64| self.send_states@.contains_key(p) implies (
            #[trigger] self.send_states@[p]).next_msg_id == self.wal.spec_last_appended(p)
                + 1 by {
                if p != peer.0 {
                    assert(self.send_states@[p] == old(self).send_states@[p]);
                }
            }
        }
        Ok(released)
    }
}

/// Release parked frames in order while credits cover them: exactly the
/// longest affordable prefix comes back, in order; the rest stay parked,
/// credits drop by what was released, and the IDs and watermark are
/// untouched.
pub fn drain_pending(state: &mut SendState) -> (r: Vec<Vec<u8>>)
    ensures
        final(state).next_msg_id == old(state).next_msg_id,
        final(state).cum_acked == old(state).cum_acked,
        ({
            let frames = old(state).pending_frames@.map_values(|e: (u64, Vec<u8>)| e.1@);
            let credits0 = old(state).credits_bytes as int;
            let k = spec_release_count(frames, credits0);
            &&& r@.len() == k
            &&& (forall|j: int| 0 <= j < r@.len() ==> (#[trigger] r@[j])@ == frames[j])
            &&& final(state).pending_frames@ == old(state).pending_frames@.subrange(
                k,
                old(state).pending_frames@.len() as int,
            )
            &&& final(state).credits_bytes == credits0 - spec_release_spent(frames, credits0)
        }),
{
    let ghost frames = state.pending_frames@.map_values(|e: (u64, Vec<u8>)| e.1@);
    let ghost credits0 = state.credits_bytes as int;
    let ghost n = state.pending_frames@.len() as int;
    let mut released: Vec<Vec<u8>> = Vec::new();
    proof {
        assert(frames.subrange(0, n) =~= frames);
        assert(state.pending_frames@ =~= old(state).pending_frames@.subrange(0, n));
    }
    loop
        invariant
            state.next_msg_id == old(state).next_msg_id,
            state.cum_acked == old(state).cum_acked,
            frames == old(state).pending_frames@.map_values(|e: (u64, Vec<u8>)| e.1@),
            n == old(state).pending_frames@.len(),
            credits0 == old(state).credits_bytes as int,
            released@.len() <= n,
            state.pending_frames@ == old(state).pending_frames@.subrange(
                released@.len() as int,
                n,
            ),
            forall|j: int| 0 <= j < released@.len() ==> (#[trigger] released@[j])@ == frames[j],
            spec_release_count(frames, credits0) == released@.len() + spec_release_count(
                frames.subrange(released@.len() as int, n),
                state.credits_bytes as int,
            ),
            spec_release_spent(frames, credits0) == (credits0 - state.credits_bytes)
                + spec_release_spent(
                frames.subrange(released@.len() as int, n),
                state.credits_bytes as int,
            ),
        ensures
            state.next_msg_id == old(state).next_msg_id,
            state.cum_acked == old(state).cum_acked,
            released@.len() == spec_release_count(frames, credits0),
            forall|j: int| 0 <= j < released@.len() ==> (#[trigger] released@[j])@ == frames[j],
            state.pending_frames@ == old(state).pending_frames@.subrange(
                released@.len() as int,
                n,
            ),
            state.credits_bytes == credits0 - spec_release_spent(frames, credits0),
        decreases state.pending_frames@.len(),
    {
        let ghost k = released@.len() as int;
        let ghost rem = frames.subrange(k, n);
        if state.pending_frames.len() == 0 {
            proof {
                assert(rem.len() == 0);
            }
            break;
        }
        proof {
            assert(state.pending_frames@[0] == old(state).pending_frames@[k]);
            assert(rem[0] == frames[k]);
            assert(frames[k] == old(state).pending_frames@[k].1@);
        }
        let frame_len = state.pending_frames[0].1.len();
        if frame_len as u64 <= i64::MAX as u64 && state.credits_bytes >= frame_len as i64 {
            let ghost credits_before = state.credits_bytes as int;
            let entry = state.pending_frames.remove(0);
            state.credits_bytes = state.credits_bytes - frame_len as i64;
            released.push(entry.1);
            proof {
                assert(rem.subrange(1, rem.len() as int) =~= frames.subrange(k + 1, n));
                assert(state.pending_frames@ =~= old(state).pending_frames@.subrange(k + 1, n));
                assert(spec_release_count(rem, credits_before) == 1 + spec_release_count(
                    frames.subrange(k + 1, n),
                    state.credits_bytes as int,
                ));
                assert(spec_release_spent(rem, credits_before) == frame_len
                    + spec_release_spent(frames.subrange(k + 1, n), state.credits_bytes as int));
            }
        } else {
            proof {
                assert(rem.len() > 0);
                assert(rem[0].len() == frame_len);
                assert(!(rem[0].len() <= i64::MAX && rem[0].len() <= state.credits_bytes as int));
                assert(spec_release_count(rem, state.credits_bytes as int) == 0);
                assert(spec_release_spent(rem, state.credits_bytes as int) == 0);
            }
            break;
        }
    }
    released
}

/// Copy, in order, the longest prefix of the logged entries whose sizes
/// the credits cover, spending the credits; exactly that prefix comes
/// back, and the IDs, watermark and parked frames are untouched.
pub fn take_within_credits(entries: &Vec<WalEntry>, state: &mut SendState) -> (r: Vec<Vec<u8>>)
    ensures
        final(state).next_msg_id == old(state).next_msg_id,
        final(state).cum_acked == old(state).cum_acked,
        final(state).pending_frames@ == old(state).pending_frames@,
        ({
            let frames = entries@.map_values(|e: WalEntry| e.bytes@);
            let credits0 = old(state).credits_bytes as int;
            &&& r@.len() == spec_release_count(frames, credits0)
            &&& (forall|j: int| 0 <= j < r@.len() ==> (#[trigger] r@[j])@ == frames[j])
            &&& final(state).credits_bytes == credits0 - spec_release_spent(frames, credits0)
        }),
{
    let ghost frames = entries@.map_values(|e: WalEntry| e.bytes@);
    let ghost credits0 = state.credits_bytes as int;
    let mut released: Vec<Vec<u8>> = Vec::new();
    let n = entries.len();
    let mut i: usize = 0;
    proof {
        assert(frames.subrange(0, n as int) =~= frames);
    }
    loop
        invariant
            i <= n,
            n == entries@.len(),
            frames == entries@.map_values(|e: WalEntry| e.bytes@),
            credits0 == old(state).credits_bytes as int,
            state.next_msg_id == old(state).next_msg_id,
            state.cum_acked == old(state).cum_acked,
            state.pending_frames@ == old(state).pending_frames@,
            released@.len() == i,
            forall|j: int| 0 <= j < i ==> (#[trigger] released@[j])@ == frames[j],
            spec_release_count(frames, credits0) == i + spec_release_count(
                frames.subrange(i as int, n as int),
                state.credits_bytes as int,
            ),
            spec_release_spent(frames, credits0) == (credits0 - state.credits_bytes)
                + spec_release_spent(
                frames.subrange(i as int, n as int),
                state.credits_bytes as int,
            ),
        ensures
            state.next_msg_id == old(state).next_msg_id,
            state.cum_acked == old(state).cum_acked,
            state.pending_frames@ == old(state).pending_frames@,
            released@.len() == spec_release_count(frames, credits0),
            forall|j: int| 0 <= j < released@.len() ==> (#[trigger] released@[j])@ == frames[j],
            state.credits_bytes == credits0 - spec_release_spent(frames, credits0),
        decreases n - i,
    {
        let ghost rem = frames.subrange(i as int, n as int);
        if i >= n {
            proof {
                assert(rem.len() == 0);
            }
            break;
        }
        proof {
            assert(rem[0] == frames[i as int]);
            assert(frames[i as int] == entries@[i as int].bytes@);
        }
        let len = entries[i].bytes.len();
        if len as u64 <= i64::MAX as u64 && state.credits_bytes >= len as i64 {
            let ghost credits_before = state.credits_bytes as int;
            let mut bytes: Vec<u8> = Vec::new();
            crate::meta::append_bytes(&mut bytes, entries[i].bytes.as_slice());
            state.credits_bytes = state.credits_bytes - len as i64;
            released.push(bytes);
            i = i + 1;
            proof {
                assert(rem.subrange(1, rem.len() as int) =~= frames.subrange(i as int, n as int));
                assert(spec_release_count(rem, credits_before) == 1 + spec_release_count(
                    frames.subrange(i as int, n as int),
                    state.credits_bytes as int,
                ));
                assert(spec_release_spent(rem, credits_before) == len + spec_release_spent(
                    frames.subrange(i as int, n as int),
                    state.credits_bytes as int,
                ));
            }
        } else {
            proof {
                assert(rem.len() > 0);
                assert(rem[0].len() == len);
                assert(!(rem[0].len() <= i64::MAX && rem[0].len() <= state.credits_bytes as int));
                assert(spec_release_count(rem, state.credits_bytes as int) == 0);
                assert(spec_release_spent(rem, state.credits_bytes as int) == 0);
            }
            break;
        }
    }
    released
}

/// After a send, every tracked send state again continues its peer's
/// log.
pub proof fn lemma_send_wf_restore(
    older: ReliabilityManager,
    newer: ReliabilityManager,
    peer: u64,
    msg_id: u64,
)
    requires
        older.wf(),
        newer.wal.wf(),
        newer.dedup.wf(),
        newer.wal.spec_last_appended(peer) == msg_id,
        newer.send_states@.contains_key(peer),
        newer.send_states@[peer].next_msg_id == msg_id + 1,
        forall|p: u64|
            p != peer ==> #[trigger] newer.wal.spec_last_appended(p) == older.wal.spec_last_appended(
                p,
            ),
        forall|p: u64|
            p != peer ==> (#[trigger] newer.send_states@.contains_key(p))
                == older.send_states@.contains_key(p),
        forall|p: u64|
            p != peer && older.send_states@.contains_key(p) ==> #[trigger] newer.send_states@[p]
                == older.send_states@[p],
    ensures
        newer.wf(),
{
    assert forall|p: u64| newer.send_states@.contains_key(p) implies (
    #[trigger] newer.send_states@[p]).next_msg_id == newer.wal.spec_last_appended(p) + 1 by {
        if p != peer {
            assert(older.send_states@.contains_key(p));
            assert((#[trigger] older.send_states@[p]).next_msg_id == older.wal.spec_last_appended(
                p,
            ) + 1);
        }
    }
}

/// Read an acknowledgment out of parsed frame metadata: the values under
/// `cum_ack` and `credits`, zero where a key is missing or not an
/// integer.
pub fn parse_ack_meta(meta: &MetaMap) -> (r: AckMeta)
    ensures
        r.cum_ack == (match spec_meta_lookup(meta@, "cum_ack".spec_bytes()) {
            Some(MetaValueView::U64(v)) => v,
            _ => 0,
        }),
        r.credits == (match spec_meta_lookup(meta@, "credits".spec_bytes()) {
            Some(MetaValueView::U64(v)) => (if v <= u32::MAX as u64 {
                v as u32
            } else {
                0
            }),
            _ => 0,
        }),
{
    let cum_ack = match meta.get("cum_ack".as_bytes()) {
        Some(MetaValue::U64(v)) => *v,
        _ => 0,
    };
    let credits = match meta.get("credits".as_bytes()) {
        Some(MetaValue::U64(v)) => {
            if *v <= u32::MAX as u64 {
                *v as u32
            } else {
                0
            }
        },
        _ => 0,
    };
    AckMeta { cum_ack, credits }
}

/// Read a resumption out of parsed frame metadata: `resume` is taken from
/// the text value under that key, the watermarks default to zero, and the
/// credit grant is carried only when present.
pub fn parse_resume_meta(meta: &MetaMap) -> (r: ResumeMeta)
    ensures
        r.resume == (spec_meta_lookup(meta@, "resume".spec_bytes()) == Some(
            MetaValueView::Text("true".spec_bytes()),
        )),
        r.sender_cum_ack == (match spec_meta_lookup(meta@, "sender_cum_ack".spec_bytes()) {
            Some(MetaValueView::U64(v)) => v,
            _ => 0,
        }),
        r.receiver_cum_proc == (match spec_meta_lookup(meta@, "receiver_cum_proc".spec_bytes()) {
            Some(MetaValueView::U64(v)) => v,
            _ => 0,
        }),
        r.starting_credits == (match spec_meta_lookup(meta@, "starting_credits".spec_bytes()) {
            Some(MetaValueView::U64(v)) => (if v <= u32::MAX as u64 {
                Some(v as u32)
            } else {
                None::<u32>
            }),
            _ => None::<u32>,
        }),
{
    let resume = match meta.get("resume".as_bytes()) {
        Some(MetaValue::Text(t)) => crate::meta::bytes_eq(t.as_slice(), "true".as_bytes()),
        _ => false,
    };
    proof {
        if spec_meta_lookup(meta@, "resume".spec_bytes()) == Some(
            MetaValueView::Text("true".spec_bytes()),
        ) {
        }
    }
    let sender_cum_ack = match meta.get("sender_cum_ack".as_bytes()) {
        Some(MetaValue::U64(v)) => *v,
        _ => 0,
    };
    let receiver_cum_proc = match meta.get("receiver_cum_proc".as_bytes()) {
        Some(MetaValue::U64(v)) => *v,
        _ => 0,
    };
    let starting_credits = match meta.get("starting_credits".as_bytes()) {
        Some(MetaValue::U64(v)) => {
            if *v <= u32::MAX as u64 {
                Some(*v as u32)
            } else {
                None
            }
        },
        _ => None,
    };
    ResumeMeta { resume, sender_cum_ack, receiver_cum_proc, starting_credits }
}

} // verus!
