//! Session state: configuration, statistics, and the per-connection
//! bookkeeping the frame pump keeps. The pump itself — the select over
//! socket reads, outbound messages and timers — lives outside the
//! library and feeds frames and clock readings in.

use vstd::prelude::*;

use crate::keepalive::KeepaliveState;
use crate::storage::StorageMode;

verus! {

/// Settings of one session. Times are milliseconds.
#[derive(Debug)]
pub struct SessionConfig {
    /// This node's ID.
    pub my_node_id: u64,
    /// Milliseconds between pings.
    pub ping_interval_ms: u64,
    /// Idle milliseconds before the session closes.
    pub idle_timeout_ms: u64,
    /// Whether the certificate identity must match the HELLO.
    pub verify_node_id: bool,
    /// Storage backend selection.
    pub storage_mode: StorageMode,
    /// Milliseconds between acknowledgments.
    pub ack_interval_ms: u64,
    /// Messages per acknowledgment batch.
    pub ack_batch_size: u32,
    /// Receive window in bytes.
    pub recv_window: u32,
}

impl Default for SessionConfig {
    /// Node 1, ten-second pings, a thirty-second idle timeout, identity
    /// verification on, in-memory storage, twenty-millisecond
    /// acknowledgment interval, batches of 256, a 32 MiB window.
    fn default() -> (r: SessionConfig)
        ensures
            r.my_node_id == 1,
            r.ping_interval_ms == 10_000,
            r.idle_timeout_ms == 30_000,
            r.verify_node_id,
            r.ack_interval_ms == 20,
            r.ack_batch_size == 256,
            r.recv_window == 32 * 1024 * 1024,
    {
        SessionConfig {
            my_node_id: 1,
            ping_interval_ms: 10_000,
            idle_timeout_ms: 30_000,
            verify_node_id: true,
            storage_mode: StorageMode::InMemory,
            ack_interval_ms: 20,
            ack_batch_size: 256,
            recv_window: 32 * 1024 * 1024,
        }
    }
}

/// Counters of one session.
#[derive(Debug, Clone, Copy, PartialEq, Eq, Structural)]
pub struct SessionStats {
    /// Bytes received.
    pub bytes_in: u64,
    /// Bytes sent.
    pub bytes_out: u64,
    /// When the last frame arrived, milliseconds; zero before any.
    pub last_frame_in: u64,
    /// When the last frame went out, milliseconds; zero before any.
    pub last_frame_out: u64,
    /// The last measured round trip, nanoseconds; zero before any.
    pub last_rtt: u64,
    /// Frames received.
    pub frames_received: u64,
    /// Frames sent.
    pub frames_sent: u64,
}

impl SessionStats {
    /// Zeroed counters.
    pub fn new() -> (r: SessionStats)
        ensures
            r.bytes_in == 0 && r.bytes_out == 0 && r.frames_received == 0 && r.frames_sent == 0,
            r.last_frame_in == 0 && r.last_frame_out == 0 && r.last_rtt == 0,
    {
        SessionStats {
            bytes_in: 0,
            bytes_out: 0,
            last_frame_in: 0,
            last_frame_out: 0,
            last_rtt: 0,
            frames_received: 0,
            frames_sent: 0,
        }
    }

    /// Count a received frame of `len` bytes at clock reading `now_ms`.
    pub fn record_frame_in(&mut self, len: usize, now_ms: u64)
        ensures
            final(self).frames_received == (if old(self).frames_received < u64::MAX {
                (old(self).frames_received + 1) as u64
            } else {
                u64::MAX
            }),
            final(self).last_frame_in == now_ms,
            final(self).bytes_out == old(self).bytes_out,
            final(self).frames_sent == old(self).frames_sent,
    {
        if self.frames_received < u64::MAX {
            self.frames_received = self.frames_received + 1;
        }
        if self.bytes_in <= u64::MAX - len as u64 {
            self.bytes_in = self.bytes_in + len as u64;
        }
        self.last_frame_in = now_ms;
    }

    /// Count a sent frame of `len` bytes at clock reading `now_ms`.
    pub fn record_frame_out(&mut self, len: usize, now_ms: u64)
        ensures
            final(self).frames_sent == (if old(self).frames_sent < u64::MAX {
                (old(self).frames_sent + 1) as u64
            } else {
                u64::MAX
            }),
            final(self).last_frame_out == now_ms,
            final(self).bytes_in == old(self).bytes_in,
            final(self).frames_received == old(self).frames_received,
    {
        if self.frames_sent < u64::MAX {
            self.frames_sent = self.frames_sent + 1;
        }
        if self.bytes_out <= u64::MAX - len as u64 {
            self.bytes_out = self.bytes_out + len as u64;
        }
        self.last_frame_out = now_ms;
    }
}

/// Per-connection bookkeeping of the frame pump.
#[derive(Debug)]
pub struct SessionState {
    /// The peer's verified node ID, once the HELLO has arrived.
    pub remote_node_id: Option<u64>,
    /// Outstanding pings.
    pub keepalive: KeepaliveState,
    /// Session counters.
    pub stats: SessionStats,
}

impl SessionState {
    /// A fresh session: no peer identified, no pings outstanding, zeroed
    /// counters.
    pub fn new() -> (r: SessionState)
        ensures
            r.remote_node_id is None,
            r.keepalive.outstanding@.len() == 0,
            r.stats.frames_received == 0 && r.stats.frames_sent == 0,
    {
        SessionState {
            remote_node_id: None,
            keepalive: KeepaliveState::new(),
            stats: SessionStats::new(),
        }
    }

    /// Accept a HELLO carrying `hello_node_id`, with the certificate's
    /// identity when the transport gave one. Under verification a
    /// mismatch is refused; otherwise the certificate identity, when
    /// present, is what counts, and the HELLO's otherwise.
    pub fn accept_hello(&mut self, hello_node_id: u64, tls_node_id: Option<u64>, verify: bool)
        -> (r: Result<u64, ()>)
        ensures
            verify && (tls_node_id matches Some(id) && id != hello_node_id) ==> r is Err
                && final(self).remote_node_id == old(self).remote_node_id,
            r matches Ok(id) ==> (id == (match tls_node_id {
                Some(t) => t,
                None => hello_node_id,
            }) && final(self).remote_node_id == Some(id)),
            !(verify && (tls_node_id matches Some(id) && id != hello_node_id)) ==> r is Ok,
    {
        match tls_node_id {
            Some(tls_id) => {
                if verify && tls_id != hello_node_id {
                    return Err(());
                }
                self.remote_node_id = Some(tls_id);
                Ok(tls_id)
            },
            None => {
                self.remote_node_id = Some(hello_node_id);
                Ok(hello_node_id)
            },
        }
    }

    /// Whether the session has been idle past the timeout at clock
    /// reading `now_ms`, measured from the last arrived frame.
    pub fn idle_timed_out(&self, idle_timeout_ms: u64, now_ms: u64) -> (r: bool)
        ensures
            r == (now_ms >= self.stats.last_frame_in && now_ms - self.stats.last_frame_in
                > idle_timeout_ms),
    {
        now_ms >= self.stats.last_frame_in && now_ms - self.stats.last_frame_in > idle_timeout_ms
    }
}

/// The reconnect delay that follows `current_ms`: doubled, capped at
/// thirty seconds — the backoff of an outbound dialer.
pub fn next_backoff_ms(current_ms: u64) -> (r: u64)
    ensures
        r == (if current_ms * 2 <= 30_000 {
            (current_ms * 2) as u64
        } else {
            30_000u64
        }),
{
    if current_ms <= 15_000 {
        current_ms * 2
    } else {
        30_000
    }
}

/// A marker for the session pump that the surrounding program runs; the
/// decisions it takes per frame live in the library's state machines.
#[derive(Debug, Clone, Copy, PartialEq, Eq, Structural)]
pub struct Session;

} // verus!
