//! Chunking of large payloads into frames sharing a message ID, and
//! reassembly on the receive side.

use vstd::prelude::*;

use crate::frame::Frame;
use crate::header::FastHeader;
use crate::header::FLAG_CHUNKED;
use crate::header::FLAG_CHUNK_END;
use crate::meta::append_bytes;
use crate::meta::CBOR_BASE_MAP;

verus! {

/// Default chunk size: the default maximum frame size less room for the
/// headers and metadata.
pub const DEFAULT_CHUNK_SIZE: usize = 16 * 1024 * 1024 - 1024;

/// Chunk bookkeeping that a sender may add to metadata.
#[derive(Debug, Clone, PartialEq, Eq, Structural)]
pub struct ChunkMeta {
    /// Zero-based chunk index.
    pub no: u32,
    /// Total number of chunks.
    pub total: u32,
    /// Original message size in bytes.
    pub size: u32,
}

/// The number of chunks of `chunk_size` needed for `len` bytes.
pub open spec fn spec_chunk_count(len: int, chunk_size: int) -> int
    recommends
        chunk_size > 0,
{
    (len + chunk_size - 1) / chunk_size
}

/// The `i`-th chunk of `payload` when cut every `chunk_size` bytes.
pub open spec fn spec_chunk(payload: Seq<u8>, chunk_size: int, i: int) -> Seq<u8>
    recommends
        chunk_size > 0,
        0 <= i < spec_chunk_count(payload.len() as int, chunk_size),
{
    payload.subrange(
        i * chunk_size,
        if (i + 1) * chunk_size <= payload.len() {
            (i + 1) * chunk_size
        } else {
            payload.len() as int
        },
    )
}

/// The concatenation of a sequence of chunks.
pub open spec fn concat_chunks(chunks: Seq<Seq<u8>>) -> Seq<u8>
    decreases chunks.len(),
{
    if chunks.len() == 0 {
        Seq::<u8>::empty()
    } else {
        concat_chunks(chunks.drop_last()) + chunks.last()
    }
}

/// The header that the chunker puts on chunk `i` of `n`: the flags gain
/// `FLAG_CHUNKED`, and `FLAG_CHUNK_END` on the last chunk.
pub open spec fn spec_chunk_header(fast: FastHeader, i: int, n: int) -> FastHeader {
    FastHeader {
        flags: if i == n - 1 {
            (fast.flags | FLAG_CHUNKED) | FLAG_CHUNK_END
        } else {
            fast.flags | FLAG_CHUNKED
        },
        ..fast
    }
}

/// Splitter of large payloads into chunked frames.
pub struct Chunker {
    /// Bytes per chunk; always positive.
    pub chunk_size: usize,
}

impl Chunker {
    /// A chunker with the default chunk size.
    pub fn new() -> (r: Chunker)
        ensures
            r.chunk_size == DEFAULT_CHUNK_SIZE,
    {
        Chunker { chunk_size: DEFAULT_CHUNK_SIZE }
    }

    /// Split `payload` into frames of at most `chunk_size` payload bytes
    /// each, sharing the header's message ID; all frames carry
    /// `FLAG_CHUNKED` and the last also `FLAG_CHUNK_END`. An empty payload
    /// yields no frames. Each frame's metadata is the empty map.
    pub fn chunk_message(&self, fast_header: FastHeader, payload: Vec<u8>) -> (r: Vec<Frame>)
        requires
            self.chunk_size > 0,
        ensures
            payload@.len() == 0 ==> r@.len() == 0,
            payload@.len() > 0 ==> r@.len() == spec_chunk_count(
                payload@.len() as int,
                self.chunk_size as int,
            ),
            forall|i: int|
                0 <= i < r@.len() ==> (#[trigger] r@[i])@.payload_or_cipher == spec_chunk(
                    payload@,
                    self.chunk_size as int,
                    i,
                ),
            forall|i: int|
                0 <= i < r@.len() ==> (#[trigger] r@[i])@.fast == spec_chunk_header(
                    fast_header,
                    i,
                    r@.len() as int,
                ),
            forall|i: int|
                0 <= i < r@.len() ==> (#[trigger] r@[i])@.hint is None && r@[i]@.meta_raw =~= seq![
                    CBOR_BASE_MAP,
                ],
    {
        let mut frames: Vec<Frame> = Vec::new();
        if payload.len() == 0 {
            return frames;
        }
        let len = payload.len();
        let cs = self.chunk_size;
        let ghost total = spec_chunk_count(len as int, cs as int);
        proof {
            lemma_chunk_count_bounds(len as int, cs as int);
        }
        assert(total <= len);
        let mut offset: usize = 0;
        let mut chunk_no: usize = 0;
        while offset < len
            invariant
                0 < cs,
                len == payload@.len(),
                total == spec_chunk_count(len as int, cs as int),
                total <= len,
                offset <= len,
                offset == chunk_no * cs || (chunk_no == total && offset == len),
                chunk_no <= total,
                offset < len ==> chunk_no < total,
                offset == len ==> chunk_no == total,
                frames@.len() == chunk_no,
                forall|i: int|
                    0 <= i < frames@.len() ==> (#[trigger] frames@[i])@.payload_or_cipher
                        == spec_chunk(payload@, cs as int, i),
                forall|i: int|
                    0 <= i < frames@.len() ==> (#[trigger] frames@[i])@.fast == spec_chunk_header(
                        fast_header,
                        i,
                        total,
                    ),
                forall|i: int|
                    0 <= i < frames@.len() ==> (#[trigger] frames@[i])@.hint is None
                        && frames@[i]@.meta_raw =~= seq![CBOR_BASE_MAP],
            decreases len - offset,
        {
            assert(offset == chunk_no * cs);
            let remaining = len - offset;
            let chunk_len = if remaining < cs {
                remaining
            } else {
                cs
            };
            let chunk_end = offset + chunk_len;
            let mut chunk_data: Vec<u8> = Vec::new();
            let mut j: usize = offset;
            while j < chunk_end
                invariant
                    offset <= j <= chunk_end <= len,
                    len == payload@.len(),
                    chunk_data@ == payload@.subrange(offset as int, j as int),
                decreases chunk_end - j,
            {
                chunk_data.push(payload[j]);
                j = j + 1;
                assert(chunk_data@ =~= payload@.subrange(offset as int, j as int));
            }
            let is_last = chunk_end == len;
            let flags = if is_last {
                (fast_header.flags | FLAG_CHUNKED) | FLAG_CHUNK_END
            } else {
                fast_header.flags | FLAG_CHUNKED
            };
            let header = FastHeader { flags, ..fast_header };
            let mut meta_raw: Vec<u8> = Vec::new();
            meta_raw.push(CBOR_BASE_MAP);
            let frame = Frame::new(header, meta_raw, chunk_data);
            proof {
                lemma_chunk_last(len as int, cs as int, chunk_no as int);
                assert(chunk_end == (if (chunk_no + 1) * cs <= len {
                    (chunk_no + 1) * cs as int
                } else {
                    len as int
                }));
                assert(frame@.payload_or_cipher =~= spec_chunk(
                    payload@,
                    cs as int,
                    chunk_no as int,
                ));
                assert(is_last <==> chunk_no == total - 1);
            }
            frames.push(frame);
            offset = chunk_end;
            chunk_no = chunk_no + 1;
        }
        frames
    }
}

/// For a nonempty payload the chunk count is positive, and at most the
/// length.
pub proof fn lemma_chunk_count_bounds(len: int, cs: int)
    requires
        len > 0,
        cs > 0,
    ensures
        spec_chunk_count(len, cs) > 0,
        (spec_chunk_count(len, cs) - 1) * cs < len,
        spec_chunk_count(len, cs) * cs >= len,
        spec_chunk_count(len, cs) <= len,
{
    let n = spec_chunk_count(len, cs);
    assert(n == (len + cs - 1) / cs);
    assert(n * cs >= len && (n - 1) * cs < len && n > 0 && n <= len) by (nonlinear_arith)
        requires
            len > 0 && cs > 0 && n == (len + cs - 1) / cs,
    ;
}

/// Chunk `i` ends at the payload end exactly when it is the last chunk.
pub proof fn lemma_chunk_last(len: int, cs: int, i: int)
    requires
        len > 0,
        cs > 0,
        0 <= i < spec_chunk_count(len, cs),
    ensures
        i * cs < len,
        i * cs + cs == (i + 1) * cs,
        (i + 1) * cs >= len <==> i == spec_chunk_count(len, cs) - 1,
        i * cs + (if (i + 1) * cs <= len {
            cs
        } else {
            len - i * cs
        }) == (if (i + 1) * cs <= len {
            (i + 1) * cs
        } else {
            len
        }),
{
    let n = spec_chunk_count(len, cs);
    assert(n == (len + cs - 1) / cs);
    assert(i * cs < len && ((i + 1) * cs >= len <==> i == n - 1) && i * cs + cs == (i + 1) * cs)
        by (nonlinear_arith)
        requires
            len > 0 && cs > 0 && 0 <= i < n && n == (len + cs - 1) / cs,
    ;
}

/// The concatenation of the first `k` chunks of a payload is its prefix up
/// to where chunk `k` starts.
pub proof fn lemma_chunks_prefix(payload: Seq<u8>, cs: int, k: int)
    requires
        payload.len() > 0,
        cs > 0,
        0 <= k <= spec_chunk_count(payload.len() as int, cs),
    ensures
        concat_chunks(Seq::new(k as nat, |i: int| spec_chunk(payload, cs, i))) == payload.subrange(
            0,
            if k * cs <= payload.len() {
                k * cs
            } else {
                payload.len() as int
            },
        ),
    decreases k,
{
    let n = spec_chunk_count(payload.len() as int, cs);
    let chunks = Seq::new(k as nat, |i: int| spec_chunk(payload, cs, i));
    if k == 0 {
        assert(k * cs == 0) by (nonlinear_arith)
            requires
                k == 0,
        ;
        assert(concat_chunks(chunks) =~= payload.subrange(0, 0));
    } else {
        lemma_chunks_prefix(payload, cs, k - 1);
        let prev = Seq::new((k - 1) as nat, |i: int| spec_chunk(payload, cs, i));
        assert(chunks.drop_last() =~= prev);
        assert(chunks.last() == spec_chunk(payload, cs, k - 1));
        lemma_chunk_last(payload.len() as int, cs, k - 1);
        let a = (k - 1) * cs;
        assert(a + cs == k * cs);
        assert(a < payload.len());
        assert(concat_chunks(prev) == payload.subrange(0, a));
        let upper = if k * cs <= payload.len() {
            k * cs
        } else {
            payload.len() as int
        };
        assert(chunks.last() == payload.subrange(a, upper));
        assert(concat_chunks(chunks) == payload.subrange(0, a) + payload.subrange(a, upper));
        assert(payload.subrange(0, a) + payload.subrange(a, upper) =~= payload.subrange(
            0,
            upper,
        ));
    }
}

/// Chunking then concatenating in order restores the payload: the chunks
/// that `Chunker::chunk_message` emits for a nonempty payload concatenate
/// back to exactly that payload.
pub proof fn lemma_chunk_reassemble(payload: Seq<u8>, cs: int)
    requires
        payload.len() > 0,
        cs > 0,
    ensures
        concat_chunks(
            Seq::new(
                spec_chunk_count(payload.len() as int, cs) as nat,
                |i: int| spec_chunk(payload, cs, i),
            ),
        ) == payload,
{
    let n = spec_chunk_count(payload.len() as int, cs);
    lemma_chunk_count_bounds(payload.len() as int, cs);
    lemma_chunks_prefix(payload, cs, n);
    assert(payload.subrange(0, payload.len() as int) =~= payload);
}

/// Chunk then reassemble, in general. The frames that `chunk_message`
/// emits for a non-empty payload carry chunk `k` in frame `k`, with
/// `FLAG_CHUNK_END` on the last alone. Fed to `add_chunk` in order on a
/// fresh reassembler, its contract makes each non-final frame yield
/// nothing and push its chunk onto the buffered prefix, and the final
/// frame yield the concatenation of the buffer and its own chunk. This
/// law closes that chain: pushing chunk `k` onto the first `k` chunks
/// gives the first `k + 1`, and the concatenation the final frame yields
/// is exactly the original payload.
pub proof fn lemma_chunk_feed_reassembles(payload: Seq<u8>, cs: int)
    requires
        payload.len() > 0,
        cs > 0,
    ensures
        ({
            let n = spec_chunk_count(payload.len() as int, cs);
            let chunks = Seq::new(n as nat, |i: int| spec_chunk(payload, cs, i));
            &&& n >= 1
            &&& forall|k: int|
                0 <= k < n ==> #[trigger] chunks.subrange(0, k).push(chunks[k]) == chunks.subrange(
                    0,
                    k + 1,
                )
            &&& concat_chunks(chunks.subrange(0, n - 1).push(chunks[n - 1])) == payload
        }),
{
    let n = spec_chunk_count(payload.len() as int, cs);
    let chunks = Seq::new(n as nat, |i: int| spec_chunk(payload, cs, i));
    lemma_chunk_count_bounds(payload.len() as int, cs);
    assert forall|k: int| 0 <= k < n implies #[trigger] chunks.subrange(0, k).push(chunks[k])
        == chunks.subrange(0, k + 1) by {
        assert(chunks.subrange(0, k).push(chunks[k]) =~= chunks.subrange(0, k + 1));
    }
    assert(chunks.subrange(0, n - 1).push(chunks[n - 1]) =~= chunks);
    lemma_chunk_reassemble(payload, cs);
}

/// Collector of chunked frames, keyed by message ID.
pub struct Reassembler {
    /// For each message ID being reassembled, its chunks in arrival order.
    pub sessions: Vec<(u64, Vec<Vec<u8>>)>,
}

/// The chunks buffered for `msg_id`, when some are.
pub open spec fn spec_session_chunks(sessions: Seq<(u64, Seq<Seq<u8>>)>, msg_id: u64) -> Option<
    Seq<Seq<u8>>,
>
    decreases sessions.len(),
{
    if sessions.len() == 0 {
        None
    } else if sessions[0].0 == msg_id {
        Some(sessions[0].1)
    } else {
        spec_session_chunks(sessions.subrange(1, sessions.len() as int), msg_id)
    }
}

/// The mathematical value of the reassembler's buffer.
pub open spec fn sessions_view(sessions: Seq<(u64, Vec<Vec<u8>>)>) -> Seq<(u64, Seq<Seq<u8>>)> {
    sessions.map_values(
        |e: (u64, Vec<Vec<u8>>)| (e.0, e.1@.map_values(|c: Vec<u8>| c@)),
    )
}

impl View for Reassembler {
    type V = Seq<(u64, Seq<Seq<u8>>)>;

    open spec fn view(&self) -> Seq<(u64, Seq<Seq<u8>>)> {
        sessions_view(self.sessions@)
    }
}

impl Reassembler {
    /// Each message ID has at most one buffer.
    pub open spec fn wf(self) -> bool {
        forall|i: int, j: int|
            0 <= i < j < self.sessions@.len() ==> (#[trigger] self.sessions@[i]).0 != (
            #[trigger] self.sessions@[j]).0
    }

    /// An empty reassembler.
    pub fn new() -> (r: Reassembler)
        ensures
            r@ =~= Seq::<(u64, Seq<Seq<u8>>)>::empty(),
            r.wf(),
    {
        Reassembler { sessions: Vec::new() }
    }

    /// Add one frame. A frame without `FLAG_CHUNKED` is ignored. A chunk
    /// is appended to its message's buffer; on `FLAG_CHUNK_END` the
    /// concatenation of all buffered chunks is returned and the buffer for
    /// that message is dropped.
    pub fn add_chunk(&mut self, frame: Frame) -> (r: Option<Vec<u8>>)
        requires
            old(self).wf(),
        ensures
            final(self).wf(),
            frame.fast.flags & FLAG_CHUNKED == 0 ==> r is None && final(self)@ == old(self)@,
            frame.fast.flags & FLAG_CHUNKED != 0 && frame.fast.flags & FLAG_CHUNK_END == 0 ==> (r
                is None && spec_session_chunks(final(self)@, frame.fast.msg_id) == Some(
                (match spec_session_chunks(old(self)@, frame.fast.msg_id) {
                    Some(chunks) => chunks,
                    None => Seq::<Seq<u8>>::empty(),
                }).push(frame@.payload_or_cipher),
            ) && (forall|other: u64|
                other != frame.fast.msg_id ==> #[trigger] spec_session_chunks(final(self)@, other)
                    == spec_session_chunks(old(self)@, other))),
            frame.fast.flags & FLAG_CHUNKED != 0 && frame.fast.flags & FLAG_CHUNK_END != 0 ==> ((r
                matches Some(out) && out@ == concat_chunks(
                (match spec_session_chunks(old(self)@, frame.fast.msg_id) {
                    Some(chunks) => chunks,
                    None => Seq::<Seq<u8>>::empty(),
                }).push(frame@.payload_or_cipher),
            )) && spec_session_chunks(final(self)@, frame.fast.msg_id) is None && (forall|
                other: u64,
            |
                other != frame.fast.msg_id ==> #[trigger] spec_session_chunks(final(self)@, other)
                    == spec_session_chunks(old(self)@, other))),
    {
        if frame.fast.flags & FLAG_CHUNKED == 0 {
            return None;
        }
        let msg_id = frame.fast.msg_id;
        let n = self.sessions.len();
        let mut idx: usize = 0;
        loop
            invariant
                idx <= n,
                n == self.sessions@.len(),
                self == old(self),
                forall|j: int| 0 <= j < idx ==> (#[trigger] self.sessions@[j]).0 != msg_id,
            ensures
                idx <= n,
                self == old(self),
                forall|j: int| 0 <= j < idx ==> (#[trigger] self.sessions@[j]).0 != msg_id,
                idx < n ==> self.sessions@[idx as int].0 == msg_id,
                idx == n ==> spec_session_chunks(self@, msg_id) is None,
            decreases n - idx,
        {
            if idx >= n {
                proof {
                    lemma_session_lookup_index(sessions_view(self.sessions@), msg_id, idx as int);
                }
                break;
            }
            if self.sessions[idx].0 == msg_id {
                break;
            }
            idx = idx + 1;
        }
        let is_end = frame.fast.flags & FLAG_CHUNK_END != 0;
        let ghost old_sessions = self@;
        let ghost old_chunks = match spec_session_chunks(old_sessions, msg_id) {
            Some(chunks) => chunks,
            None => Seq::<Seq<u8>>::empty(),
        };
        if idx == self.sessions.len() {
            let mut chunks: Vec<Vec<u8>> = Vec::new();
            chunks.push(frame.payload_or_cipher);
            if is_end {
                let mut result: Vec<u8> = Vec::new();
                append_bytes(&mut result, chunks[0].as_slice());
                proof {
                    assert(spec_session_chunks(old_sessions, msg_id) is None);
                    let single = Seq::<Seq<u8>>::empty().push(frame@.payload_or_cipher);
                    assert(single.drop_last() =~= Seq::<Seq<u8>>::empty());
                    assert(single.last() == frame@.payload_or_cipher);
                    assert(concat_chunks(Seq::<Seq<u8>>::empty()) =~= Seq::<u8>::empty());
                    assert(concat_chunks(single) == concat_chunks(Seq::<Seq<u8>>::empty())
                        + frame@.payload_or_cipher);
                    assert(concat_chunks(single) =~= frame@.payload_or_cipher);
                    assert(result@ =~= frame@.payload_or_cipher);
                }
                return Some(result);
            }
            self.sessions.push((msg_id, chunks));
            proof {
                assert(spec_session_chunks(old_sessions, msg_id) is None);
                lemma_session_lookup_push(
                    old_sessions,
                    msg_id,
                    seq![frame@.payload_or_cipher],
                );
                assert(sessions_view(self.sessions@) =~~= old_sessions.push(
                    (msg_id, seq![frame@.payload_or_cipher]),
                ));
                assert(Seq::<Seq<u8>>::empty().push(frame@.payload_or_cipher) =~= seq![
                    frame@.payload_or_cipher,
                ]);
            }
            return None;
        }
        proof {
            lemma_session_lookup_index(sessions_view(self.sessions@), msg_id, idx as int);
        }
        if is_end {
            let entry = self.sessions.remove(idx);
            let (_, chunks) = entry;
            let mut result: Vec<u8> = Vec::new();
            let m = chunks.len();
            let mut j: usize = 0;
            while j < m
                invariant
                    j <= m,
                    m == chunks@.len(),
                    result@ == concat_chunks(
                        chunks@.map_values(|c: Vec<u8>| c@).subrange(0, j as int),
                    ),
                decreases m - j,
            {
                let ghost before = result@;
                append_bytes(&mut result, chunks[j].as_slice());
                j = j + 1;
                proof {
                    let mapped = chunks@.map_values(|c: Vec<u8>| c@);
                    assert(mapped.subrange(0, j as int).drop_last() =~= mapped.subrange(
                        0,
                        j - 1,
                    ));
                    assert(result@ =~= concat_chunks(mapped.subrange(0, j as int)));
                }
            }
            append_bytes(&mut result, frame.payload_or_cipher.as_slice());
            proof {
                let mapped = chunks@.map_values(|c: Vec<u8>| c@);
                assert(mapped.subrange(0, m as int) =~= mapped);
                assert(mapped == old_chunks);
                assert(old_chunks.push(frame@.payload_or_cipher).drop_last() =~= old_chunks);
                assert(result@ =~= concat_chunks(old_chunks.push(frame@.payload_or_cipher)));
                assert(forall|j: int|
                    0 <= j < old_sessions.len() ==> ((#[trigger] old_sessions[j]).0 == msg_id
                        ==> j == idx as int)) by {
                    assert(forall|j: int|
                        0 <= j < old_sessions.len() ==> (#[trigger] old_sessions[j]).0
                            == old(self).sessions@[j].0);
                }
                lemma_session_lookup_remove(old_sessions, msg_id, idx as int);
                assert(sessions_view(self.sessions@) =~~= old_sessions.remove(idx as int));
            }
            return Some(result);
        }
        let entry = &mut self.sessions[idx];
        proof {
            assert(old_sessions[idx as int].1 == old_chunks);
        }
        entry.1.push(frame.payload_or_cipher);
        proof {
            lemma_session_lookup_update(old_sessions, msg_id, idx as int, old_chunks.push(
                frame@.payload_or_cipher,
            ));
            assert(sessions_view(self.sessions@) =~~= old_sessions.update(
                idx as int,
                (msg_id, old_chunks.push(frame@.payload_or_cipher)),
            ));
        }
        None
    }
}

/// When no entry before `idx` has the key and `idx` is past the end, the
/// lookup misses; when the entry at `idx` is the first with the key, the
/// lookup finds it.
pub proof fn lemma_session_lookup_index(
    sessions: Seq<(u64, Seq<Seq<u8>>)>,
    msg_id: u64,
    idx: int,
)
    requires
        0 <= idx <= sessions.len(),
        forall|j: int| 0 <= j < idx ==> (#[trigger] sessions[j]).0 != msg_id,
    ensures
        idx == sessions.len() ==> spec_session_chunks(sessions, msg_id) is None,
        idx < sessions.len() && sessions[idx].0 == msg_id ==> spec_session_chunks(
            sessions,
            msg_id,
        ) == Some(sessions[idx].1),
    decreases idx,
{
    if idx > 0 {
        let tail = sessions.subrange(1, sessions.len() as int);
        assert(forall|j: int| 0 <= j < idx - 1 ==> (#[trigger] tail[j]).0 != msg_id);
        lemma_session_lookup_index(tail, msg_id, idx - 1);
    } else if idx < sessions.len() && sessions[idx].0 == msg_id {
    }
}

/// Appending a fresh entry makes its key found and leaves other keys as
/// they were.
pub proof fn lemma_session_lookup_push(
    sessions: Seq<(u64, Seq<Seq<u8>>)>,
    msg_id: u64,
    chunks: Seq<Seq<u8>>,
)
    requires
        spec_session_chunks(sessions, msg_id) is None,
    ensures
        spec_session_chunks(sessions.push((msg_id, chunks)), msg_id) == Some(chunks),
        forall|other: u64|
            other != msg_id ==> #[trigger] spec_session_chunks(sessions.push((msg_id, chunks)), other)
                == spec_session_chunks(sessions, other),
    decreases sessions.len(),
{
    let pushed = sessions.push((msg_id, chunks));
    if sessions.len() == 0 {
        assert(pushed[0] == (msg_id, chunks));
        assert(spec_session_chunks(pushed, msg_id) == Some(chunks));
        assert forall|other: u64| other != msg_id implies #[trigger] spec_session_chunks(
            pushed,
            other,
        ) == spec_session_chunks(sessions, other) by {
            let rest = pushed.subrange(1, pushed.len() as int);
            assert(rest =~= Seq::<(u64, Seq<Seq<u8>>)>::empty());
            assert(spec_session_chunks(rest, other) is None);
            assert(spec_session_chunks(pushed, other) == spec_session_chunks(rest, other));
            assert(spec_session_chunks(sessions, other) is None);
        }
    } else {
        let tail = sessions.subrange(1, sessions.len() as int);
        lemma_session_lookup_push(tail, msg_id, chunks);
        assert(pushed.subrange(1, pushed.len() as int) =~= tail.push((msg_id, chunks)));
        assert(pushed[0] == sessions[0]);
        assert(sessions[0].0 != msg_id) by {
            if sessions[0].0 == msg_id {
                assert(spec_session_chunks(sessions, msg_id) == Some(sessions[0].1));
            }
        }
        assert(spec_session_chunks(pushed, msg_id) == spec_session_chunks(
            tail.push((msg_id, chunks)),
            msg_id,
        ));
        assert forall|other: u64| other != msg_id implies #[trigger] spec_session_chunks(
            pushed,
            other,
        ) == spec_session_chunks(sessions, other) by {
            if sessions[0].0 == other {
            } else {
                assert(spec_session_chunks(pushed, other) == spec_session_chunks(
                    tail.push((msg_id, chunks)),
                    other,
                ));
                assert(spec_session_chunks(sessions, other) == spec_session_chunks(tail, other));
            }
        }
    }
}

/// Removing the first entry with a key makes it missing and leaves other
/// keys as they were, when no earlier entry has the key.
pub proof fn lemma_session_lookup_remove(
    sessions: Seq<(u64, Seq<Seq<u8>>)>,
    msg_id: u64,
    idx: int,
)
    requires
        0 <= idx < sessions.len(),
        sessions[idx].0 == msg_id,
        forall|j: int| 0 <= j < sessions.len() ==> ((#[trigger] sessions[j]).0 == msg_id ==> j == idx),
    ensures
        spec_session_chunks(sessions.remove(idx), msg_id) is None,
        forall|other: u64|
            other != msg_id ==> #[trigger] spec_session_chunks(sessions.remove(idx), other)
                == spec_session_chunks(sessions, other),
    decreases sessions.len(),
{
    let removed = sessions.remove(idx);
    let tail = sessions.subrange(1, sessions.len() as int);
    if idx == 0 {
        assert(removed =~= tail);
        assert(forall|j: int| 0 <= j < tail.len() ==> (#[trigger] tail[j]).0 != msg_id) by {
            assert(forall|j: int|
                0 <= j < tail.len() ==> #[trigger] tail[j] == sessions[j + 1]);
        }
        lemma_session_lookup_none(tail, msg_id);
        assert forall|other: u64| other != msg_id implies #[trigger] spec_session_chunks(
            removed,
            other,
        ) == spec_session_chunks(sessions, other) by {
            assert(spec_session_chunks(sessions, other) == spec_session_chunks(tail, other));
        }
    } else {
        assert(forall|j: int|
            0 <= j < tail.len() ==> ((#[trigger] tail[j]).0 == msg_id ==> j == idx - 1)) by {
            assert(forall|j: int|
                0 <= j < tail.len() ==> #[trigger] tail[j] == sessions[j + 1]);
        }
        lemma_session_lookup_remove(tail, msg_id, idx - 1);
        assert(removed[0] == sessions[0]);
        assert(removed.subrange(1, removed.len() as int) =~= tail.remove(idx - 1));
        assert(sessions[0].0 != msg_id);
        assert(spec_session_chunks(removed, msg_id) == spec_session_chunks(
            tail.remove(idx - 1),
            msg_id,
        ));
        assert forall|other: u64| other != msg_id implies #[trigger] spec_session_chunks(
            removed,
            other,
        ) == spec_session_chunks(sessions, other) by {
            if sessions[0].0 == other {
            } else {
                assert(spec_session_chunks(removed, other) == spec_session_chunks(
                    tail.remove(idx - 1),
                    other,
                ));
                assert(spec_session_chunks(sessions, other) == spec_session_chunks(tail, other));
            }
        }
    }
}

/// A key held by no entry is not found.
pub proof fn lemma_session_lookup_none(sessions: Seq<(u64, Seq<Seq<u8>>)>, msg_id: u64)
    requires
        forall|j: int| 0 <= j < sessions.len() ==> (#[trigger] sessions[j]).0 != msg_id,
    ensures
        spec_session_chunks(sessions, msg_id) is None,
    decreases sessions.len(),
{
    if sessions.len() > 0 {
        let tail = sessions.subrange(1, sessions.len() as int);
        assert(forall|j: int| 0 <= j < tail.len() ==> (#[trigger] tail[j]).0 != msg_id);
        lemma_session_lookup_none(tail, msg_id);
    }
}

/// Updating the entry at `idx` (same key) changes that key's chunks and
/// leaves other keys as they were, when no earlier entry has the key.
pub proof fn lemma_session_lookup_update(
    sessions: Seq<(u64, Seq<Seq<u8>>)>,
    msg_id: u64,
    idx: int,
    chunks: Seq<Seq<u8>>,
)
    requires
        0 <= idx < sessions.len(),
        sessions[idx].0 == msg_id,
        forall|j: int| 0 <= j < idx ==> (#[trigger] sessions[j]).0 != msg_id,
    ensures
        spec_session_chunks(sessions.update(idx, (msg_id, chunks)), msg_id) == Some(chunks),
        forall|other: u64|
            other != msg_id ==> #[trigger] spec_session_chunks(
                sessions.update(idx, (msg_id, chunks)),
                other,
            ) == spec_session_chunks(sessions, other),
    decreases idx,
{
    let updated = sessions.update(idx, (msg_id, chunks));
    let tail = sessions.subrange(1, sessions.len() as int);
    if idx == 0 {
        assert(updated[0] == (msg_id, chunks));
        assert(spec_session_chunks(updated, msg_id) == Some(chunks));
        assert forall|other: u64| other != msg_id implies #[trigger] spec_session_chunks(
            updated,
            other,
        ) == spec_session_chunks(sessions, other) by {
            assert(updated.subrange(1, updated.len() as int) =~= tail);
            assert(spec_session_chunks(updated, other) == spec_session_chunks(tail, other));
            assert(spec_session_chunks(sessions, other) == spec_session_chunks(tail, other));
        }
    } else {
        assert(forall|j: int|
            0 <= j < idx - 1 ==> (#[trigger] tail[j]).0 != msg_id) by {
            assert(forall|j: int|
                0 <= j < tail.len() ==> #[trigger] tail[j] == sessions[j + 1]);
        }
        assert(tail[idx - 1].0 == msg_id);
        lemma_session_lookup_update(tail, msg_id, idx - 1, chunks);
        assert(updated[0] == sessions[0]);
        assert(updated.subrange(1, updated.len() as int) =~= tail.update(
            idx - 1,
            (msg_id, chunks),
        ));
        assert(sessions[0].0 != msg_id);
        assert(spec_session_chunks(updated, msg_id) == spec_session_chunks(
            tail.update(idx - 1, (msg_id, chunks)),
            msg_id,
        ));
        assert forall|other: u64| other != msg_id implies #[trigger] spec_session_chunks(
            updated,
            other,
        ) == spec_session_chunks(sessions, other) by {
            if sessions[0].0 == other {
            } else {
                assert(spec_session_chunks(updated, other) == spec_session_chunks(
                    tail.update(idx - 1, (msg_id, chunks)),
                    other,
                ));
                assert(spec_session_chunks(sessions, other) == spec_session_chunks(tail, other));
            }
        }
    }
}

} // verus!
