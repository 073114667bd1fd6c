//! Reliability storage: the per-peer write-ahead log and the receiver-side
//! deduplication state, with the in-memory backend.

use vstd::prelude::*;

use std::collections::HashMap;

verus! {

broadcast use vstd::std_specs::hash::group_hash_axioms;

/// Default gap-window size beyond the contiguous watermark.
pub const DEFAULT_DEDUP_WINDOW: u64 = 65536;

/// A remote peer, identified by its 64-bit node ID.
#[derive(Clone, Copy, Debug, Hash, PartialEq, Eq, PartialOrd, Ord, Structural)]
pub struct Peer(pub u64);

/// Frame data handed to the WAL for appending.
#[derive(Clone, Debug)]
pub struct WalFrame<'a> {
    /// Message ID, monotonic per peer.
    pub msg_id: u64,
    /// Serialized frame bytes.
    pub bytes: &'a [u8],
    /// Cached length for credit accounting.
    pub approx_len: usize,
}

/// Sender-side acknowledgment state for one peer.
#[derive(Clone, Copy, Debug, Default, PartialEq, Eq, Structural)]
pub struct AckState {
    /// Highest contiguous message ID the peer has confirmed processed.
    pub cum_acked: u64,
}

/// One entry read back from the WAL.
#[derive(Debug, Clone)]
pub struct WalEntry {
    /// Message ID.
    pub msg_id: u64,
    /// Frame bytes.
    pub bytes: Vec<u8>,
}

/// Storage errors.
#[derive(Debug, Clone, PartialEq, Eq)]
pub enum StorageError {
    /// An I/O error, described in text.
    Io(String),
    /// Data corruption was detected.
    Corruption(String),
    /// The entry was not found.
    NotFound,
    /// The operation is invalid, described in text.
    Invalid(String),
    /// A backend-specific error.
    Backend(String),
    /// A serialization error.
    Serialization(String),
}

/// Storage backend selection.
#[derive(Debug)]
pub enum StorageMode {
    /// In-memory storage, for tests and ephemeral nodes.
    InMemory,
    /// File-segmented storage.
    File {
        /// Data directory path.
        data_dir: String,
        /// Segment size in bytes.
        segment_bytes: u64,
        /// Fsync every N appends.
        fsync_every: u32,
    },
    /// Redis cache over another backend; reserved.
    RedisCache {
        /// Connection URL.
        url: String,
        /// Wrapped backend.
        wrap: Box<StorageMode>,
    },
    /// Redis as primary storage; reserved.
    RedisPrimary {
        /// Connection URL.
        url: String,
    },
}

/// The per-peer log as a sequence of message IDs with their bytes.
pub open spec fn wal_view(m: Map<u64, Vec<(u64, Vec<u8>)>>, peer: u64) -> Seq<(u64, Seq<u8>)> {
    if m.contains_key(peer) {
        m[peer]@.map_values(|e: (u64, Vec<u8>)| (e.0, e.1@))
    } else {
        Seq::<(u64, Seq<u8>)>::empty()
    }
}

/// The entries with `msg_id > from_exclusive`, in order, cut off after
/// `limit` of them.
pub open spec fn spec_wal_range(entries: Seq<(u64, Seq<u8>)>, from_exclusive: u64, limit: int) -> Seq<
    (u64, Seq<u8>),
>
    decreases entries.len(),
{
    if entries.len() == 0 || limit <= 0 {
        Seq::<(u64, Seq<u8>)>::empty()
    } else if entries[0].0 > from_exclusive {
        seq![entries[0]] + spec_wal_range(
            entries.subrange(1, entries.len() as int),
            from_exclusive,
            limit - 1,
        )
    } else {
        spec_wal_range(entries.subrange(1, entries.len() as int), from_exclusive, limit)
    }
}

/// Every entry of a range result has `msg_id > from_exclusive`, and there
/// are at most `limit` of them.
pub proof fn lemma_wal_range_entries(entries: Seq<(u64, Seq<u8>)>, from_exclusive: u64, limit: int)
    ensures
        forall|i: int|
            0 <= i < spec_wal_range(entries, from_exclusive, limit).len() ==> (
            #[trigger] spec_wal_range(entries, from_exclusive, limit)[i]).0 > from_exclusive,
        spec_wal_range(entries, from_exclusive, limit).len() <= limit || limit < 0,
    decreases entries.len(),
{
    if entries.len() == 0 || limit <= 0 {
    } else {
        let tail = entries.subrange(1, entries.len() as int);
        lemma_wal_range_entries(tail, from_exclusive, limit - 1);
        lemma_wal_range_entries(tail, from_exclusive, limit);
    }
}

/// The in-memory write-ahead log.
pub struct MemoryWal {
    /// Per-peer log entries.
    pub entries: HashMap<u64, Vec<(u64, Vec<u8>)>>,
    /// Per-peer stored acknowledgment watermark.
    pub ack_state: HashMap<u64, u64>,
    /// Per-peer highest appended message ID.
    pub last_appended: HashMap<u64, u64>,
}

impl MemoryWal {
    /// The log entries of `peer`, oldest first.
    pub open spec fn spec_entries(self, peer: u64) -> Seq<(u64, Seq<u8>)> {
        wal_view(self.entries@, peer)
    }

    /// The highest message ID ever appended for `peer`; zero before the
    /// first append.
    pub open spec fn spec_last_appended(self, peer: u64) -> u64 {
        if self.last_appended@.contains_key(peer) {
            self.last_appended@[peer]
        } else {
            0
        }
    }

    /// The stored acknowledgment watermark of `peer`; zero when none was
    /// stored.
    pub open spec fn spec_ack(self, peer: u64) -> u64 {
        if self.ack_state@.contains_key(peer) {
            self.ack_state@[peer]
        } else {
            0
        }
    }

    /// Entries are strictly increasing in message ID and never exceed the
    /// last appended ID.
    pub open spec fn wf(self) -> bool {
        forall|p: u64|
            {
                let es = #[trigger] self.spec_entries(p);
                &&& forall|i: int, j: int| 0 <= i < j < es.len() ==> es[i].0 < es[j].0
                &&& forall|i: int| 0 <= i < es.len() ==> (#[trigger] es[i]).0 <= self.spec_last_appended(p)
            }
    }

    /// An empty log.
    pub fn new() -> (r: MemoryWal)
        ensures
            r.wf(),
            forall|p: u64| (#[trigger] r.spec_entries(p)) =~= Seq::<(u64, Seq<u8>)>::empty(),
            forall|p: u64| #[trigger] r.spec_last_appended(p) == 0,
            forall|p: u64| #[trigger] r.spec_ack(p) == 0,
    {
        let r = MemoryWal {
            entries: HashMap::new(),
            ack_state: HashMap::new(),
            last_appended: HashMap::new(),
        };
        proof {
            assert forall|p: u64| (#[trigger] r.spec_entries(p)) =~= Seq::<
                (u64, Seq<u8>),
            >::empty() by {
                assert(!r.entries@.contains_key(p));
            }
        }
        r
    }

    /// Append one frame for `peer`. The message ID must be exactly one
    /// past the last appended ID; afterwards it is the last appended ID
    /// and the entry stands at the end of the peer's log. Other peers'
    /// state is untouched.
    pub fn append(&mut self, peer: Peer, frame: WalFrame<'_>) -> (r: Result<(), StorageError>)
        requires
            old(self).wf(),
            frame.msg_id == old(self).spec_last_appended(peer.0) + 1,
        ensures
            r is Ok,
            final(self).wf(),
            final(self).spec_entries(peer.0) == old(self).spec_entries(peer.0).push(
                (frame.msg_id, frame.bytes@),
            ),
            final(self).spec_last_appended(peer.0) == frame.msg_id,
            final(self).spec_ack(peer.0) == old(self).spec_ack(peer.0),
            forall|p: u64|
                p != peer.0 ==> #[trigger] final(self).spec_entries(p) == old(self).spec_entries(p)
                    && final(self).spec_last_appended(p) == old(self).spec_last_appended(p)
                    && final(self).spec_ack(p) == old(self).spec_ack(p),
    {
        let mut bytes: Vec<u8> = Vec::new();
        crate::meta::append_bytes(&mut bytes, frame.bytes);
        let mut peer_entries: Vec<(u64, Vec<u8>)> = match self.entries.remove(&peer.0) {
            Some(es) => es,
            None => Vec::new(),
        };
        let ghost old_view = old(self).spec_entries(peer.0);
        assert(peer_entries@.map_values(|e: (u64, Vec<u8>)| (e.0, e.1@)) == old_view);
        peer_entries.push((frame.msg_id, bytes));
        self.entries.insert(peer.0, peer_entries);
        self.last_appended.insert(peer.0, frame.msg_id);
        proof {
            assert(self.spec_entries(peer.0) =~~= old_view.push((frame.msg_id, frame.bytes@)));
            assert forall|p: u64| p != peer.0 implies #[trigger] self.spec_entries(p) == old(
                self,
            ).spec_entries(p) && self.spec_last_appended(p) == old(self).spec_last_appended(p)
                && self.spec_ack(p) == old(self).spec_ack(p) by {
                assert(self.entries@.contains_key(p) == old(self).entries@.contains_key(p));
            }
            assert(self.wf()) by {
                assert forall|p: u64|
                    {
                        let es = #[trigger] self.spec_entries(p);
                        (forall|i: int, j: int| 0 <= i < j < es.len() ==> es[i].0 < es[j].0)
                            && (forall|i: int|
                            0 <= i < es.len() ==> (#[trigger] es[i]).0
                                <= self.spec_last_appended(p))
                    } by {
                    if p == peer.0 {
                        let es = self.spec_entries(p);
                        assert(es == old_view.push((frame.msg_id, frame.bytes@)));
                        assert forall|i: int| 0 <= i < es.len() implies (#[trigger] es[i]).0
                            <= self.spec_last_appended(p) by {
                            if i < old_view.len() {
                                assert(es[i] == old_view[i]);
                            }
                        }
                        assert forall|i: int, j: int| 0 <= i < j < es.len() implies es[i].0
                            < es[j].0 by {
                            if j < old_view.len() {
                                assert(es[i] == old_view[i] && es[j] == old_view[j]);
                            } else {
                                assert(es[i] == old_view[i]);
                                assert(es[i].0 <= old(self).spec_last_appended(p));
                            }
                        }
                    } else {
                        assert(self.spec_entries(p) == old(self).spec_entries(p));
                        assert(self.spec_last_appended(p) == old(self).spec_last_appended(p));
                    }
                }
            }
        }
        Ok(())
    }

    /// The entries of `peer` with `msg_id > from_exclusive`, oldest first,
    /// at most `limit` of them when a limit is given.
    pub fn range(&self, peer: Peer, from_exclusive: u64, limit: Option<usize>) -> (r: Result<
        Vec<WalEntry>,
        StorageError,
    >)
        ensures
            r matches Ok(out) && out@.map_values(|e: WalEntry| (e.msg_id, e.bytes@))
                == spec_wal_range(
                self.spec_entries(peer.0),
                from_exclusive,
                match limit {
                    Some(l) => l as int,
                    None => self.spec_entries(peer.0).len() as int,
                },
            ),
    {
        let ghost entries_view = self.spec_entries(peer.0);
        let mut out: Vec<WalEntry> = Vec::new();
        let peer_entries = match self.entries.get(&peer.0) {
            Some(es) => es,
            None => {
                proof {
                    assert(entries_view =~= Seq::<(u64, Seq<u8>)>::empty());
                    assert(out@.map_values(|e: WalEntry| (e.msg_id, e.bytes@)) =~= spec_wal_range(
                        entries_view,
                        from_exclusive,
                        match limit {
                            Some(l) => l as int,
                            None => entries_view.len() as int,
                        },
                    ));
                }
                return Ok(out);
            },
        };
        let n = peer_entries.len();
        let ghost lim = match limit {
            Some(l) => l as int,
            None => entries_view.len() as int,
        };
        proof {
            assert(entries_view.subrange(0, entries_view.len() as int) =~= entries_view);
            assert(out@.map_values(|e: WalEntry| (e.msg_id, e.bytes@)) =~= Seq::<
                (u64, Seq<u8>),
            >::empty());
            assert(Seq::<(u64, Seq<u8>)>::empty() + spec_wal_range(
                entries_view,
                from_exclusive,
                lim,
            ) =~= spec_wal_range(entries_view, from_exclusive, lim));
        }
        let mut i: usize = 0;
        while i < n
            invariant
                i <= n,
                n == peer_entries@.len(),
                entries_view == peer_entries@.map_values(|e: (u64, Vec<u8>)| (e.0, e.1@)),
                entries_view == self.spec_entries(peer.0),
                lim == (match limit {
                    Some(l) => l as int,
                    None => entries_view.len() as int,
                }),
                out@.len() <= lim,
                (match limit {
                    Some(l) => true,
                    None => out@.len() <= i,
                }),
                spec_wal_range(entries_view, from_exclusive, lim) == out@.map_values(
                    |e: WalEntry| (e.msg_id, e.bytes@),
                ) + spec_wal_range(
                    entries_view.subrange(i as int, entries_view.len() as int),
                    from_exclusive,
                    lim - out@.len(),
                ),
            decreases n - i,
        {
            let ghost rest = entries_view.subrange(i as int, entries_view.len() as int);
            let ghost acc = out@.map_values(|e: WalEntry| (e.msg_id, e.bytes@));
            if peer_entries[i].0 > from_exclusive {
                match limit {
                    Some(l) => {
                        if out.len() >= l {
                            proof {
                                assert(acc.len() == out@.len());
                                assert(lim - out@.len() <= 0);
                                assert(spec_wal_range(rest, from_exclusive, lim - out@.len())
                                    =~= Seq::<(u64, Seq<u8>)>::empty());
                                assert(spec_wal_range(entries_view, from_exclusive, lim) == acc
                                    + Seq::<(u64, Seq<u8>)>::empty());
                                assert(acc + Seq::<(u64, Seq<u8>)>::empty() =~= acc);
                                assert(out@.map_values(|e: WalEntry| (e.msg_id, e.bytes@))
                                    == spec_wal_range(entries_view, from_exclusive, lim));
                            }
                            return Ok(out);
                        }
                    },
                    None => {},
                }
                let mut bytes: Vec<u8> = Vec::new();
                crate::meta::append_bytes(&mut bytes, peer_entries[i].1.as_slice());
                out.push(WalEntry { msg_id: peer_entries[i].0, bytes });
                proof {
                    assert(rest[0] == entries_view[i as int]);
                    assert(rest.subrange(1, rest.len() as int) =~= entries_view.subrange(
                        i + 1,
                        entries_view.len() as int,
                    ));
                    assert(out@.map_values(|e: WalEntry| (e.msg_id, e.bytes@)) =~= acc.push(
                        entries_view[i as int],
                    ));
                    assert(acc + (seq![rest[0]] + spec_wal_range(
                        rest.subrange(1, rest.len() as int),
                        from_exclusive,
                        lim - acc.len() - 1,
                    )) =~= acc.push(entries_view[i as int]) + spec_wal_range(
                        entries_view.subrange(i + 1, entries_view.len() as int),
                        from_exclusive,
                        lim - acc.len() - 1,
                    ));
                }
            } else {
                proof {
                    assert(rest[0] == entries_view[i as int]);
                    assert(rest.subrange(1, rest.len() as int) =~= entries_view.subrange(
                        i + 1,
                        entries_view.len() as int,
                    ));
                }
            }
            i = i + 1;
        }
        proof {
            let acc = out@.map_values(|e: WalEntry| (e.msg_id, e.bytes@));
            assert(entries_view.subrange(n as int, entries_view.len() as int) =~= Seq::<
                (u64, Seq<u8>),
            >::empty());
            assert(spec_wal_range(
                entries_view.subrange(n as int, entries_view.len() as int),
                from_exclusive,
                lim - acc.len(),
            ) =~= Seq::<(u64, Seq<u8>)>::empty());
            assert(acc + Seq::<(u64, Seq<u8>)>::empty() =~= acc);
        }
        Ok(out)
    }

    /// Discard the entries of `peer` with `msg_id <= up_to_inclusive`;
    /// calling it again with the same bound changes nothing.
    pub fn truncate_through(&mut self, peer: Peer, up_to_inclusive: u64) -> (r: Result<
        (),
        StorageError,
    >)
        requires
            old(self).wf(),
        ensures
            r is Ok,
            final(self).wf(),
            final(self).spec_entries(peer.0) == old(self).spec_entries(peer.0).filter(
                |e: (u64, Seq<u8>)| e.0 > up_to_inclusive,
            ),
            final(self).spec_last_appended(peer.0) == old(self).spec_last_appended(peer.0),
            final(self).spec_ack(peer.0) == old(self).spec_ack(peer.0),
            forall|p: u64|
                p != peer.0 ==> #[trigger] final(self).spec_entries(p) == old(self).spec_entries(p)
                    && final(self).spec_last_appended(p) == old(self).spec_last_appended(p)
                    && final(self).spec_ack(p) == old(self).spec_ack(p),
    {
        let ghost old_view = old(self).spec_entries(peer.0);
        let peer_entries = match self.entries.remove(&peer.0) {
            Some(es) => es,
            None => {
                proof {
                    reveal_with_fuel(Seq::filter, 2);
                    assert(old_view =~= Seq::<(u64, Seq<u8>)>::empty());
                    assert(old_view.filter(|e: (u64, Seq<u8>)| e.0 > up_to_inclusive) =~= Seq::<
                        (u64, Seq<u8>),
                    >::empty());
                    assert forall|p: u64| true implies #[trigger] self.spec_entries(p) == old(
                        self,
                    ).spec_entries(p) by {
                        assert(self.entries@ =~= old(self).entries@);
                    }
                }
                return Ok(());
            },
        };
        let n = peer_entries.len();
        let mut kept: Vec<(u64, Vec<u8>)> = Vec::new();
        let mut i: usize = 0;
        while i < n
            invariant
                i <= n,
                n == peer_entries@.len(),
                old_view == peer_entries@.map_values(|e: (u64, Vec<u8>)| (e.0, e.1@)),
                kept@.map_values(|e: (u64, Vec<u8>)| (e.0, e.1@)) == old_view.subrange(
                    0,
                    i as int,
                ).filter(|e: (u64, Seq<u8>)| e.0 > up_to_inclusive),
            decreases n - i,
        {
            let ghost prefix = old_view.subrange(0, i as int);
            let e = &peer_entries[i];
            if e.0 > up_to_inclusive {
                let mut bytes: Vec<u8> = Vec::new();
                crate::meta::append_bytes(&mut bytes, e.1.as_slice());
                kept.push((e.0, bytes));
            }
            i = i + 1;
            proof {
                reveal_with_fuel(Seq::filter, 2);
                let f = |e: (u64, Seq<u8>)| e.0 > up_to_inclusive;
                let prefix2 = old_view.subrange(0, i as int);
                assert(prefix2.drop_last() =~= prefix);
                assert(prefix2.last() == old_view[i - 1]);
                assert(prefix2.filter(f) == if f(old_view[i - 1]) {
                    prefix.filter(f).push(old_view[i - 1])
                } else {
                    prefix.filter(f)
                });
                assert(kept@.map_values(|e: (u64, Vec<u8>)| (e.0, e.1@)) =~= prefix2.filter(f));
            }
        }
        self.entries.insert(peer.0, kept);
        proof {
            assert(old_view.subrange(0, n as int) =~= old_view);
            assert(self.spec_entries(peer.0) == old_view.filter(
                |e: (u64, Seq<u8>)| e.0 > up_to_inclusive,
            ));
            assert forall|p: u64| p != peer.0 implies #[trigger] self.spec_entries(p) == old(
                self,
            ).spec_entries(p) && self.spec_last_appended(p) == old(self).spec_last_appended(p)
                && self.spec_ack(p) == old(self).spec_ack(p) by {
                assert(self.entries@.contains_key(p) == old(self).entries@.contains_key(p));
            }
            assert(self.wf()) by {
                lemma_filter_keeps_order(old_view, up_to_inclusive);
                let fview = old_view.filter(|e: (u64, Seq<u8>)| e.0 > up_to_inclusive);
                assert forall|i2: int| 0 <= i2 < fview.len() implies (#[trigger] fview[i2]).0
                    <= self.spec_last_appended(peer.0) by {
                    let k = choose|k: int| 0 <= k < old_view.len() && old_view[k] == fview[i2];
                    assert(old_view[k].0 <= old(self).spec_last_appended(peer.0));
                }
                assert forall|p: u64|
                    {
                        let es = #[trigger] self.spec_entries(p);
                        (forall|i2: int, j2: int| 0 <= i2 < j2 < es.len() ==> es[i2].0 < es[j2].0)
                            && (forall|i2: int|
                            0 <= i2 < es.len() ==> (#[trigger] es[i2]).0
                                <= self.spec_last_appended(p))
                    } by {
                    if p != peer.0 {
                        assert(self.spec_entries(p) == old(self).spec_entries(p));
                        assert(self.spec_last_appended(p) == old(self).spec_last_appended(p));
                    } else {
                        assert(self.spec_entries(p) == fview);
                    }
                }
            }
        }
        Ok(())
    }

    /// The highest appended message ID of `peer`, zero before any append.
    pub fn last_appended(&self, peer: Peer) -> (r: Result<u64, StorageError>)
        ensures
            r == Ok::<u64, StorageError>(self.spec_last_appended(peer.0)),
    {
        match self.last_appended.get(&peer.0) {
            Some(v) => Ok(*v),
            None => Ok(0),
        }
    }

    /// The stored acknowledgment state of `peer`.
    pub fn load_ack(&self, peer: Peer) -> (r: Result<AckState, StorageError>)
        ensures
            r == Ok::<AckState, StorageError>(AckState { cum_acked: self.spec_ack(peer.0) }),
    {
        match self.ack_state.get(&peer.0) {
            Some(v) => Ok(AckState { cum_acked: *v }),
            None => Ok(AckState { cum_acked: 0 }),
        }
    }

    /// Store the acknowledgment state of `peer`.
    pub fn store_ack(&mut self, peer: Peer, ack: AckState) -> (r: Result<(), StorageError>)
        requires
            old(self).wf(),
        ensures
            r is Ok,
            final(self).wf(),
            final(self).spec_ack(peer.0) == ack.cum_acked,
            final(self).spec_entries(peer.0) == old(self).spec_entries(peer.0),
            final(self).spec_last_appended(peer.0) == old(self).spec_last_appended(peer.0),
            forall|p: u64|
                p != peer.0 ==> #[trigger] final(self).spec_entries(p) == old(self).spec_entries(p)
                    && final(self).spec_last_appended(p) == old(self).spec_last_appended(p)
                    && final(self).spec_ack(p) == old(self).spec_ack(p),
    {
        self.ack_state.insert(peer.0, ack.cum_acked);
        proof {
            assert forall|p: u64| true implies #[trigger] self.spec_entries(p) == old(
                self,
            ).spec_entries(p) by {
                assert(self.entries@ == old(self).entries@);
            }
        }
        Ok(())
    }
}

/// The watermark after absorbing contiguous gap entries: starting at `w`,
/// step to `w + 1` as long as the gap set holds it.
pub open spec fn spec_absorb(w: u64, gaps: Seq<u64>) -> u64
    decreases u64::MAX - w,
{
    if w < u64::MAX && gaps.contains((w + 1) as u64) {
        spec_absorb((w + 1) as u64, gaps)
    } else {
        w
    }
}

/// The absorbed watermark is the end of the contiguous run: any `cum` at
/// or past `w` that the gaps cover from `w` on, and whose successor the
/// gaps lack, is exactly `spec_absorb(w, gaps)`.
pub proof fn lemma_absorb_value(w: u64, cum: u64, gaps: Seq<u64>)
    requires
        w <= cum,
        forall|m: u64| w < m <= cum ==> gaps.contains(m),
        cum == u64::MAX || !gaps.contains((cum + 1) as u64),
    ensures
        spec_absorb(w, gaps) == cum,
    decreases cum - w,
{
    if w < cum {
        assert(gaps.contains((w + 1) as u64));
        lemma_absorb_value((w + 1) as u64, cum, gaps);
    }
}

/// Receiver-side deduplication state: a contiguous watermark per peer
/// plus a bounded window of message IDs seen out of order.
pub struct MemoryDedup {
    /// Per-peer contiguous processed watermark.
    pub cum_processed: HashMap<u64, u64>,
    /// Per-peer out-of-order IDs, sorted ascending, all above the
    /// watermark.
    pub gap_window: HashMap<u64, Vec<u64>>,
    /// How far past the watermark out-of-order IDs are tracked.
    pub window_size: u64,
}

impl MemoryDedup {
    /// The contiguous processed watermark of `peer`; zero initially.
    pub open spec fn spec_cum(self, peer: u64) -> u64 {
        if self.cum_processed@.contains_key(peer) {
            self.cum_processed@[peer]
        } else {
            0
        }
    }

    /// The out-of-order IDs recorded for `peer`.
    pub open spec fn spec_gaps(self, peer: u64) -> Seq<u64> {
        if self.gap_window@.contains_key(peer) {
            self.gap_window@[peer]@
        } else {
            Seq::<u64>::empty()
        }
    }

    /// Whether `m` counts as processed for `peer`: at or below the
    /// watermark, or recorded in the gap window.
    pub open spec fn spec_processed(self, peer: u64, m: u64) -> bool {
        m <= self.spec_cum(peer) || self.spec_gaps(peer).contains(m)
    }

    /// Gap IDs are sorted strictly ascending, above the watermark, and
    /// within the window past it.
    pub open spec fn wf(self) -> bool {
        forall|p: u64|
            {
                let gaps = #[trigger] self.spec_gaps(p);
                &&& forall|i: int, j: int| 0 <= i < j < gaps.len() ==> gaps[i] < gaps[j]
                &&& forall|i: int|
                    0 <= i < gaps.len() ==> (#[trigger] gaps[i]) > self.spec_cum(p) && gaps[i]
                        <= self.spec_cum(p) + self.window_size
            }
    }

    /// Fresh deduplication state with the given gap-window size.
    pub fn new(window_size: u64) -> (r: MemoryDedup)
        ensures
            r.wf(),
            r.window_size == window_size,
            forall|p: u64| #[trigger] r.spec_cum(p) == 0,
            forall|p: u64| (#[trigger] r.spec_gaps(p)) =~= Seq::<u64>::empty(),
            forall|p: u64, m: u64| !(#[trigger] r.spec_processed(p, m)) || m == 0,
    {
        let r = MemoryDedup {
            cum_processed: HashMap::new(),
            gap_window: HashMap::new(),
            window_size,
        };
        proof {
            assert forall|p: u64| (#[trigger] r.spec_gaps(p)) =~= Seq::<u64>::empty() by {
                assert(!r.gap_window@.contains_key(p));
            }
        }
        r
    }

    /// Fresh deduplication state with the default gap window.
    pub fn with_default_window() -> (r: MemoryDedup)
        ensures
            r.wf(),
            r.window_size == DEFAULT_DEDUP_WINDOW,
            forall|p: u64| #[trigger] r.spec_cum(p) == 0,
            forall|p: u64| (#[trigger] r.spec_gaps(p)) =~= Seq::<u64>::empty(),
    {
        MemoryDedup::new(DEFAULT_DEDUP_WINDOW)
    }

    /// Whether `msg_id` has been processed for `peer`: true exactly when
    /// it is at or below the watermark or in the gap window.
    pub fn is_processed(&self, peer: Peer, msg_id: u64) -> (r: Result<bool, StorageError>)
        ensures
            r == Ok::<bool, StorageError>(self.spec_processed(peer.0, msg_id)),
    {
        let cum = match self.cum_processed.get(&peer.0) {
            Some(v) => *v,
            None => 0,
        };
        if msg_id <= cum {
            return Ok(true);
        }
        match self.gap_window.get(&peer.0) {
            Some(gaps) => Ok(vec_contains_u64(gaps, msg_id)),
            None => Ok(false),
        }
    }

    /// The contiguous processed watermark of `peer`.
    pub fn cum_processed(&self, peer: Peer) -> (r: Result<u64, StorageError>)
        ensures
            r == Ok::<u64, StorageError>(self.spec_cum(peer.0)),
    {
        match self.cum_processed.get(&peer.0) {
            Some(v) => Ok(*v),
            None => Ok(0),
        }
    }

    /// Record `msg_id` as processed for `peer`. Afterwards `msg_id`
    /// counts as processed, whatever it was: already covered, the next
    /// contiguous ID (the watermark advances and absorbs contiguous
    /// gaps), inside the gap window (it joins the gap set), or beyond the
    /// window — then the watermark jumps to it, treating it and
    /// everything below as already processed rather than remembering it
    /// individually. Nothing once processed ever becomes new again, and
    /// other peers are untouched.
    pub fn mark_processed(&mut self, peer: Peer, msg_id: u64) -> (r: Result<(), StorageError>)
        requires
            old(self).wf(),
        ensures
            r is Ok,
            final(self).wf(),
            final(self).window_size == old(self).window_size,
            final(self).spec_cum(peer.0) >= old(self).spec_cum(peer.0),
            final(self).spec_processed(peer.0, msg_id),
            forall|m: u64|
                old(self).spec_processed(peer.0, m) ==> #[trigger] final(self).spec_processed(
                    peer.0,
                    m,
                ),
            forall|m: u64|
                #[trigger] final(self).spec_processed(peer.0, m) <==> (old(self).spec_processed(
                    peer.0,
                    m,
                ) || m == msg_id || (msg_id > old(self).spec_cum(peer.0) + old(self).window_size
                    && m <= msg_id)),
            msg_id <= old(self).spec_cum(peer.0) ==> final(self).spec_cum(peer.0) == old(
                self,
            ).spec_cum(peer.0) && final(self).spec_gaps(peer.0) == old(self).spec_gaps(peer.0),
            msg_id == old(self).spec_cum(peer.0) + 1 ==> final(self).spec_cum(peer.0)
                == spec_absorb(msg_id, old(self).spec_gaps(peer.0)) && final(self).spec_cum(peer.0)
                >= msg_id,
            old(self).spec_cum(peer.0) + 1 < msg_id && msg_id <= old(self).spec_cum(peer.0) + old(
                self,
            ).window_size ==> final(self).spec_cum(peer.0) == old(self).spec_cum(peer.0),
            old(self).spec_cum(peer.0) + 1 < msg_id && msg_id > old(self).spec_cum(peer.0)
                + old(self).window_size ==> final(self).spec_cum(peer.0) == msg_id,
            forall|p: u64|
                p != peer.0 ==> #[trigger] final(self).spec_cum(p) == old(self).spec_cum(p)
                    && final(self).spec_gaps(p) == old(self).spec_gaps(p),
    {
        let cum0 = match self.cum_processed.get(&peer.0) {
            Some(v) => *v,
            None => 0,
        };
        if msg_id <= cum0 {
            return Ok(());
        }
        let gaps: Vec<u64> = match self.gap_window.remove(&peer.0) {
            Some(g) => g,
            None => Vec::new(),
        };
        let ghost old_gaps = old(self).spec_gaps(peer.0);
        assert(gaps@ == old_gaps);
        if msg_id == cum0 + 1 {
            let n = gaps.len();
            let mut cum = msg_id;
            let mut k: usize = 0;
            loop
                invariant
                    k <= n,
                    n == gaps@.len(),
                    gaps@ == old_gaps,
                    msg_id <= cum,
                    cum0 == msg_id - 1,
                    forall|i: int, j: int| 0 <= i < j < n ==> gaps@[i] < gaps@[j],
                    forall|i: int| 0 <= i < n ==> (#[trigger] gaps@[i]) > cum0,
                    forall|j: int| 0 <= j < k ==> (#[trigger] gaps@[j]) <= cum,
                    forall|m: u64|
                        cum0 < m <= cum ==> (m == msg_id || #[trigger] old_gaps.contains(m)),
                ensures
                    k <= n,
                    n == gaps@.len(),
                    gaps@ == old_gaps,
                    msg_id <= cum,
                    forall|j: int| 0 <= j < k ==> (#[trigger] gaps@[j]) <= cum,
                    forall|m: u64|
                        cum0 < m <= cum ==> (m == msg_id || #[trigger] old_gaps.contains(m)),
                    k < n ==> gaps@[k as int] > cum,
                    k < n ==> (cum == u64::MAX || gaps@[k as int] != cum + 1),
                decreases n - k,
            {
                if k >= n {
                    break;
                }
                let g = gaps[k];
                if g <= cum {
                    k = k + 1;
                } else if cum < u64::MAX && g == cum + 1 {
                    proof {
                        assert(old_gaps.contains(gaps@[k as int]));
                    }
                    cum = g;
                    k = k + 1;
                } else {
                    break;
                }
            }
            let mut remaining: Vec<u64> = Vec::new();
            let mut j: usize = k;
            while j < n
                invariant
                    k <= j <= n,
                    n == gaps@.len(),
                    gaps@ == old_gaps,
                    remaining@ == gaps@.subrange(k as int, j as int),
                decreases n - j,
            {
                remaining.push(gaps[j]);
                j = j + 1;
                assert(remaining@ =~= gaps@.subrange(k as int, j as int));
            }
            assert(remaining@ =~= gaps@.subrange(k as int, n as int));
            let ghost rem = remaining@;
            let ghost final_cum = cum;
            self.cum_processed.insert(peer.0, cum);
            self.gap_window.insert(peer.0, remaining);
            proof {
                lemma_dedup_absorb(old_gaps, rem, cum0, msg_id, final_cum, k as int);
                if final_cum < u64::MAX {
                    assert(!old_gaps.contains((final_cum + 1) as u64)) by {
                        if old_gaps.contains((final_cum + 1) as u64) {
                            let w = choose|w: int|
                                0 <= w < old_gaps.len() && old_gaps[w] == (final_cum + 1) as u64;
                            assert(w >= k);
                            assert((k as int) < old_gaps.len());
                            if w > k as int {
                                assert(old_gaps[k as int] < old_gaps[w]);
                            }
                            assert(false);
                        }
                    }
                }
                assert forall|m: u64| msg_id < m <= final_cum implies old_gaps.contains(m) by {
                    assert(cum0 < m <= final_cum);
                }
                lemma_absorb_value(msg_id, final_cum, old_gaps);
                assert(self.spec_cum(peer.0) == final_cum);
                assert(self.spec_gaps(peer.0) == rem);
                assert forall|p: u64| p != peer.0 implies #[trigger] self.spec_cum(p) == old(
                    self,
                ).spec_cum(p) && self.spec_gaps(p) == old(self).spec_gaps(p) by {}
                assert forall|m: u64| #[trigger] self.spec_processed(peer.0, m) <==> (old(
                    self,
                ).spec_processed(peer.0, m) || (m == msg_id && (msg_id == old(self).spec_cum(
                    peer.0,
                ) + 1 || msg_id <= old(self).spec_cum(peer.0) + old(self).window_size))) by {
                    assert(old(self).spec_processed(peer.0, m) == (m <= cum0 || old_gaps.contains(
                        m,
                    )));
                }
                assert(self.wf()) by {
                    assert forall|p: u64|
                        {
                            let g = #[trigger] self.spec_gaps(p);
                            (forall|i: int, j2: int| 0 <= i < j2 < g.len() ==> g[i] < g[j2]) && (
                            forall|i: int|
                                0 <= i < g.len() ==> (#[trigger] g[i]) > self.spec_cum(p) && g[i]
                                    <= self.spec_cum(p) + self.window_size)
                        } by {
                        if p == peer.0 {
                            assert forall|i: int| 0 <= i < rem.len() implies (#[trigger] rem[i])
                                > final_cum && rem[i] <= final_cum + self.window_size by {
                                assert(rem[i] == old_gaps[k + i]);
                                if k + i > k {
                                    assert(old_gaps[k as int] < old_gaps[k + i]);
                                }
                                assert(old_gaps[k + i] <= cum0 + old(self).window_size);
                            }
                            assert forall|i: int, j2: int| 0 <= i < j2 < rem.len() implies rem[i]
                                < rem[j2] by {
                                assert(rem[i] == old_gaps[k + i] && rem[j2] == old_gaps[k + j2]);
                            }
                        } else {
                            assert(self.spec_gaps(p) == old(self).spec_gaps(p));
                            assert(self.spec_cum(p) == old(self).spec_cum(p));
                            assert(old(self).wf());
                            let g0 = old(self).spec_gaps(p);
                            assert(forall|i: int, j2: int|
                                0 <= i < j2 < g0.len() ==> g0[i] < g0[j2]);
                        }
                    }
                }
            }
            return Ok(());
        }
        // Out of order: track the ID only when it is within the window.
        let within = msg_id - cum0 <= self.window_size;
        if within {
            let mut gaps = gaps;
            let ghost old_gaps2 = gaps@;
            insert_sorted_u64(&mut gaps, msg_id);
            self.gap_window.insert(peer.0, gaps);
            proof {
                assert(self.spec_gaps(peer.0) == gaps@);
                assert(self.spec_cum(peer.0) == old(self).spec_cum(peer.0));
                assert forall|m: u64| #[trigger] self.spec_processed(peer.0, m) <==> (old(
                    self,
                ).spec_processed(peer.0, m) || (m == msg_id && (msg_id == old(self).spec_cum(
                    peer.0,
                ) + 1 || msg_id <= old(self).spec_cum(peer.0) + old(self).window_size))) by {
                    assert(gaps@.contains(m) <==> (old_gaps2.contains(m) || m == msg_id));
                }
                assert(self.wf()) by {
                    assert forall|p: u64|
                        {
                            let g = #[trigger] self.spec_gaps(p);
                            (forall|a: int, b: int| 0 <= a < b < g.len() ==> g[a] < g[b]) && (
                            forall|a: int|
                                0 <= a < g.len() ==> (#[trigger] g[a]) > self.spec_cum(p) && g[a]
                                    <= self.spec_cum(p) + self.window_size)
                        } by {
                        if p == peer.0 {
                            assert forall|a: int| 0 <= a < gaps@.len() implies (
                            #[trigger] gaps@[a]) > cum0 && gaps@[a] <= cum0 + self.window_size by {
                                assert(gaps@.contains(gaps@[a]));
                                if gaps@[a] != msg_id {
                                    assert(old_gaps2.contains(gaps@[a]));
                                    let w = choose|w: int|
                                        0 <= w < old_gaps2.len() && (#[trigger] old_gaps2[w])
                                            == gaps@[a];
                                }
                            }
                        } else {
                            assert(self.spec_gaps(p) == old(self).spec_gaps(p));
                            assert(self.spec_cum(p) == old(self).spec_cum(p));
                            let g0 = old(self).spec_gaps(p);
                            assert(forall|a: int, b: int|
                                0 <= a < b < g0.len() ==> g0[a] < g0[b]);
                        }
                    }
                }
            }
        } else {
            // Beyond the window: jump the watermark to the ID so that it
            // and everything below count as processed for good.
            self.cum_processed.insert(peer.0, msg_id);
            let empty_gaps: Vec<u64> = Vec::new();
            self.gap_window.insert(peer.0, empty_gaps);
            proof {
                assert(self.spec_gaps(peer.0) =~= Seq::<u64>::empty());
                assert(self.spec_cum(peer.0) == msg_id);
                assert forall|m: u64| #[trigger] self.spec_processed(peer.0, m) <==> (old(
                    self,
                ).spec_processed(peer.0, m) || m == msg_id || (msg_id > cum0 + old(
                    self,
                ).window_size && m <= msg_id)) by {
                    if old(self).spec_processed(peer.0, m) {
                        if m > cum0 {
                            assert(old_gaps.contains(m));
                            let w = choose|w: int|
                                0 <= w < old_gaps.len() && (#[trigger] old_gaps[w]) == m;
                            assert(old_gaps[w] <= cum0 + old(self).window_size);
                        }
                    }
                }
                assert(self.wf()) by {
                    assert forall|p: u64|
                        {
                            let g = #[trigger] self.spec_gaps(p);
                            (forall|a: int, b: int| 0 <= a < b < g.len() ==> g[a] < g[b]) && (
                            forall|a: int|
                                0 <= a < g.len() ==> (#[trigger] g[a]) > self.spec_cum(p) && g[a]
                                    <= self.spec_cum(p) + self.window_size)
                        } by {
                        if p != peer.0 {
                            assert(self.spec_gaps(p) == old(self).spec_gaps(p));
                            assert(self.spec_cum(p) == old(self).spec_cum(p));
                            let g0 = old(self).spec_gaps(p);
                            assert(forall|a: int, b: int|
                                0 <= a < b < g0.len() ==> g0[a] < g0[b]);
                        }
                    }
                }
            }
        }
        Ok(())
    }

    /// Advance the watermark of `peer` to at least `id` and drop gap
    /// entries the new watermark covers. Afterwards an ID counts as
    /// processed exactly when it did before or it is at most `id`.
    pub fn advance_cum(&mut self, peer: Peer, id: u64) -> (r: Result<(), StorageError>)
        requires
            old(self).wf(),
        ensures
            r is Ok,
            final(self).wf(),
            final(self).window_size == old(self).window_size,
            final(self).spec_cum(peer.0) >= old(self).spec_cum(peer.0),
            forall|m: u64|
                #[trigger] final(self).spec_processed(peer.0, m) <==> (old(self).spec_processed(
                    peer.0,
                    m,
                ) || m <= id),
            forall|p: u64|
                p != peer.0 ==> #[trigger] final(self).spec_cum(p) == old(self).spec_cum(p)
                    && final(self).spec_gaps(p) == old(self).spec_gaps(p),
    {
        let cum0 = match self.cum_processed.get(&peer.0) {
            Some(v) => *v,
            None => 0,
        };
        if id <= cum0 {
            return Ok(());
        }
        let gaps: Vec<u64> = match self.gap_window.remove(&peer.0) {
            Some(g) => g,
            None => Vec::new(),
        };
        let ghost old_gaps = old(self).spec_gaps(peer.0);
        assert(gaps@ == old_gaps);
        let n = gaps.len();
        let mut kept: Vec<u64> = Vec::new();
        let mut i: usize = 0;
        while i < n
            invariant
                i <= n,
                n == gaps@.len(),
                gaps@ == old_gaps,
                forall|a: int, b: int| 0 <= a < b < n ==> gaps@[a] < gaps@[b],
                forall|a: int, b: int| 0 <= a < b < kept@.len() ==> kept@[a] < kept@[b],
                forall|m: u64|
                    #[trigger] kept@.contains(m) <==> (old_gaps.subrange(0, i as int).contains(m)
                        && m > id),
            decreases n - i,
        {
            let ghost prefix = old_gaps.subrange(0, i as int);
            let ghost kept_old = kept@;
            if gaps[i] > id {
                kept.push(gaps[i]);
            }
            i = i + 1;
            proof {
                let prefix2 = old_gaps.subrange(0, i as int);
                assert forall|m: u64| #[trigger] kept@.contains(m) <==> (prefix2.contains(m) && m
                    > id) by {
                    assert(prefix2 =~= prefix.push(old_gaps[i - 1]));
                    if kept@.contains(m) {
                        if kept_old.contains(m) {
                            assert(prefix.contains(m));
                            let w = choose|w: int| 0 <= w < prefix.len() && prefix[w] == m;
                            assert(prefix2[w] == m);
                        } else {
                            assert(m == old_gaps[i - 1]);
                            assert(prefix2[i - 1] == m);
                        }
                    }
                    if prefix2.contains(m) && m > id {
                        let w = choose|w: int| 0 <= w < prefix2.len() && prefix2[w] == m;
                        if w < prefix.len() {
                            assert(prefix[w] == m);
                            assert(kept_old.contains(m));
                            let w2 = choose|w2: int|
                                0 <= w2 < kept_old.len() && kept_old[w2] == m;
                            assert(kept@[w2] == m);
                        } else {
                            assert(m == old_gaps[i - 1]);
                            assert(kept@.last() == m);
                        }
                    }
                }
                assert forall|a: int, b: int|
                    0 <= a < b < kept@.len() implies kept@[a] < kept@[b] by {
                    if b == kept@.len() - 1 && kept@.len() > kept_old.len() {
                        assert(kept@[a] == kept_old[a]);
                        assert(kept_old.contains(kept_old[a]));
                        let w = choose|w: int| 0 <= w < prefix.len() && prefix[w] == kept@[a];
                        assert(old_gaps[w] == kept@[a]);
                        assert(kept@[b] == old_gaps[i - 1]);
                    } else {
                        assert(kept@[a] == kept_old[a] && kept@[b] == kept_old[b]);
                    }
                }
            }
        }
        self.cum_processed.insert(peer.0, id);
        self.gap_window.insert(peer.0, kept);
        proof {
            assert(old_gaps.subrange(0, n as int) =~= old_gaps);
            assert(self.spec_cum(peer.0) == id);
            assert(self.spec_gaps(peer.0) == kept@);
            assert forall|m: u64| #[trigger] self.spec_processed(peer.0, m) <==> (old(
                self,
            ).spec_processed(peer.0, m) || m <= id) by {
                assert(old(self).spec_processed(peer.0, m) == (m <= cum0 || old_gaps.contains(m)));
                assert(kept@.contains(m) <==> (old_gaps.contains(m) && m > id));
            }
            assert(self.wf()) by {
                assert forall|p: u64|
                    {
                        let g = #[trigger] self.spec_gaps(p);
                        (forall|a: int, b: int| 0 <= a < b < g.len() ==> g[a] < g[b]) && (forall|
                            a: int,
                        |
                            0 <= a < g.len() ==> (#[trigger] g[a]) > self.spec_cum(p) && g[a]
                                <= self.spec_cum(p) + self.window_size)
                    } by {
                    if p == peer.0 {
                        assert forall|a: int| 0 <= a < kept@.len() implies (#[trigger] kept@[a])
                            > id && kept@[a] <= id + self.window_size by {
                            assert(kept@.contains(kept@[a]));
                            assert(old_gaps.contains(kept@[a]));
                            let w = choose|w: int|
                                0 <= w < old_gaps.len() && (#[trigger] old_gaps[w]) == kept@[a];
                            assert(old_gaps[w] <= cum0 + self.window_size);
                        }
                    } else {
                        assert(self.spec_gaps(p) == old(self).spec_gaps(p));
                        assert(self.spec_cum(p) == old(self).spec_cum(p));
                        assert(old(self).wf());
                        let g0 = old(self).spec_gaps(p);
                        assert(forall|a: int, b: int| 0 <= a < b < g0.len() ==> g0[a] < g0[b]);
                    }
                }
            }
        }
        Ok(())
    }

    /// Persist state; nothing to do for the in-memory backend.
    pub fn snapshot(&self) -> (r: Result<(), StorageError>)
        ensures
            r is Ok,
    {
        Ok(())
    }
}

/// Whether the sorted vector holds `x`.
pub fn vec_contains_u64(v: &Vec<u64>, x: u64) -> (r: bool)
    ensures
        r == v@.contains(x),
{
    let n = v.len();
    let mut i: usize = 0;
    while i < n
        invariant
            i <= n,
            n == v@.len(),
            forall|j: int| 0 <= j < i ==> v@[j] != x,
        decreases n - i,
    {
        if v[i] == x {
            return true;
        }
        i = i + 1;
    }
    proof {
        if v@.contains(x) {
            let w = choose|w: int| 0 <= w < v@.len() && v@[w] == x;
        }
    }
    false
}

/// Insert `x` into the strictly sorted vector, keeping it sorted; a
/// duplicate changes nothing.
pub fn insert_sorted_u64(v: &mut Vec<u64>, x: u64)
    requires
        forall|a: int, b: int| 0 <= a < b < old(v)@.len() ==> old(v)@[a] < old(v)@[b],
    ensures
        forall|a: int, b: int| 0 <= a < b < final(v)@.len() ==> final(v)@[a] < final(v)@[b],
        forall|m: u64| #[trigger] final(v)@.contains(m) <==> (old(v)@.contains(m) || m == x),
{
    let ghost old_view = v@;
    let n = v.len();
    let mut i: usize = 0;
    loop
        invariant
            i <= n,
            n == v@.len(),
            v@ == old_view,
            forall|j: int| 0 <= j < i ==> (#[trigger] v@[j]) < x,
        ensures
            i <= n,
            v@ == old_view,
            forall|j: int| 0 <= j < i ==> (#[trigger] old_view[j]) < x,
            i < n ==> old_view[i as int] >= x,
        decreases n - i,
    {
        if i >= n {
            break;
        }
        if v[i] >= x {
            break;
        }
        i = i + 1;
    }
    if i < n {
        let existing = v[i];
        if existing == x {
            proof {
                assert(old_view.contains(x));
                assert forall|m: u64| #[trigger] v@.contains(m) <==> (old_view.contains(m) || m
                    == x) by {}
            }
            return;
        }
    }
    v.insert(i, x);
    proof {
        assert(v@ =~= old_view.insert(i as int, x));
        assert forall|a: int, b: int| 0 <= a < b < v@.len() implies v@[a] < v@[b] by {
            let ins = i as int;
            if b < ins {
                assert(v@[a] == old_view[a] && v@[b] == old_view[b]);
            } else if a > ins {
                assert(v@[a] == old_view[a - 1] && v@[b] == old_view[b - 1]);
            } else if a < ins && b == ins {
                assert(v@[a] == old_view[a]);
            } else if a == ins && b > ins {
                assert(v@[b] == old_view[b - 1]);
                assert(old_view[b - 1] >= old_view[ins]);
            } else {
                assert(v@[a] == old_view[a] && v@[b] == old_view[b - 1]);
                assert(old_view[b - 1] >= old_view[ins]);
            }
        }
        assert forall|m: u64| #[trigger] v@.contains(m) <==> (old_view.contains(m) || m == x) by {
            let ins = i as int;
            if v@.contains(m) {
                let w = choose|w: int| 0 <= w < v@.len() && v@[w] == m;
                if w < ins {
                    assert(old_view[w] == m);
                } else if w == ins {
                } else {
                    assert(old_view[w - 1] == m);
                }
            }
            if old_view.contains(m) {
                let w = choose|w: int| 0 <= w < old_view.len() && old_view[w] == m;
                if w < ins {
                    assert(v@[w] == m);
                } else {
                    assert(v@[w + 1] == m);
                }
            }
            if m == x {
                assert(v@[ins] == x);
            }
        }
    }
}

/// Absorbing a consecutive run of gap IDs into the watermark keeps the
/// processed set exactly: everything at or below the new watermark was the
/// marked ID, already covered, or a recorded gap.
pub proof fn lemma_dedup_absorb(
    old_gaps: Seq<u64>,
    rem: Seq<u64>,
    cum0: u64,
    msg_id: u64,
    final_cum: u64,
    k: int,
)
    requires
        0 <= k <= old_gaps.len(),
        rem == old_gaps.subrange(k, old_gaps.len() as int),
        msg_id == cum0 + 1,
        msg_id <= final_cum,
        forall|i: int, j: int| 0 <= i < j < old_gaps.len() ==> old_gaps[i] < old_gaps[j],
        forall|i: int| 0 <= i < old_gaps.len() ==> (#[trigger] old_gaps[i]) > cum0,
        forall|j: int| 0 <= j < k ==> (#[trigger] old_gaps[j]) <= final_cum,
        forall|m: u64| cum0 < m <= final_cum ==> (m == msg_id || #[trigger] old_gaps.contains(m)),
        k < old_gaps.len() ==> old_gaps[k] > final_cum,
    ensures
        forall|m: u64|
            (m <= final_cum || #[trigger] rem.contains(m)) <==> (m <= cum0 || old_gaps.contains(m)
                || m == msg_id),
        forall|i: int| 0 <= i < rem.len() ==> (#[trigger] rem[i]) > final_cum,
{
    assert forall|i: int| 0 <= i < rem.len() implies (#[trigger] rem[i]) > final_cum by {
        assert(rem[i] == old_gaps[k + i]);
        if k + i > k {
            assert(old_gaps[k] < old_gaps[k + i]);
        }
    }
    assert forall|m: u64|
        (m <= final_cum || #[trigger] rem.contains(m)) <==> (m <= cum0 || old_gaps.contains(m) || m
            == msg_id) by {
        if m <= final_cum {
            if m > cum0 {
                assert(m == msg_id || old_gaps.contains(m));
            }
        }
        if rem.contains(m) {
            let w = choose|w: int| 0 <= w < rem.len() && rem[w] == m;
            assert(old_gaps[k + w] == m);
        }
        if m <= cum0 {
            assert(m <= final_cum);
        }
        if m == msg_id {
            assert(m <= final_cum);
        }
        if old_gaps.contains(m) && m > final_cum {
            let w = choose|w: int| 0 <= w < old_gaps.len() && old_gaps[w] == m;
            assert(w >= k) by {
                if w < k {
                    assert(old_gaps[w] <= final_cum);
                }
            }
            assert(rem[w - k] == m);
            assert(rem.contains(m));
        }
    }
}

/// Filtering entries by a lower bound keeps their strict order, and every
/// kept entry stands somewhere in the original.
pub proof fn lemma_filter_keeps_order(entries: Seq<(u64, Seq<u8>)>, bound: u64)
    requires
        forall|i: int, j: int| 0 <= i < j < entries.len() ==> entries[i].0 < entries[j].0,
    ensures
        ({
            let filtered = entries.filter(|e: (u64, Seq<u8>)| e.0 > bound);
            &&& forall|i: int, j: int|
                0 <= i < j < filtered.len() ==> (#[trigger] filtered[i]).0 < (
                #[trigger] filtered[j]).0
            &&& forall|i: int|
                0 <= i < filtered.len() ==> exists|k: int|
                    0 <= k < entries.len() && entries[k] == #[trigger] filtered[i]
        }),
    decreases entries.len(),
{
    reveal_with_fuel(Seq::filter, 2);
    let f = |e: (u64, Seq<u8>)| e.0 > bound;
    let filtered = entries.filter(f);
    if entries.len() == 0 {
        assert(filtered =~= Seq::<(u64, Seq<u8>)>::empty());
    } else {
        let prefix = entries.drop_last();
        let pfiltered = prefix.filter(f);
        assert(forall|i: int, j: int| 0 <= i < j < prefix.len() ==> prefix[i].0 < prefix[j].0)
            by {
            assert(forall|i: int| 0 <= i < prefix.len() ==> prefix[i] == entries[i]);
        }
        lemma_filter_keeps_order(prefix, bound);
        assert(filtered == if f(entries.last()) {
            pfiltered.push(entries.last())
        } else {
            pfiltered
        });
        assert forall|i: int|
            0 <= i < filtered.len() implies exists|k: int|
                0 <= k < entries.len() && entries[k] == #[trigger] filtered[i] by {
            if i < pfiltered.len() {
                assert(filtered[i] == pfiltered[i]);
                let k0 = choose|k: int| 0 <= k < prefix.len() && prefix[k] == pfiltered[i];
                assert(entries[k0] == filtered[i]);
            } else {
                assert(filtered[i] == entries.last());
                assert(entries[entries.len() - 1] == entries.last());
            }
        }
        assert forall|i: int, j: int|
            0 <= i < j < filtered.len() implies (#[trigger] filtered[i]).0 < (
            #[trigger] filtered[j]).0 by {
            if j < pfiltered.len() {
                assert(filtered[i] == pfiltered[i] && filtered[j] == pfiltered[j]);
            } else {
                assert(filtered[j] == entries.last());
                assert(filtered[i] == pfiltered[i]);
                let k0 = choose|k: int| 0 <= k < prefix.len() && prefix[k] == pfiltered[i];
                assert(filtered[i] == entries[k0]);
                assert(entries[k0].0 < entries.last().0);
            }
        }
    }
}

} // verus!
