//! Tracking of consecutive routing failures per destination, to tell when
//! a session is interrupted and when it has recovered.

use vstd::prelude::*;

use std::collections::HashMap;
use crate::clock::now_millis;

verus! {

broadcast use vstd::std_specs::hash::group_hash_axioms;

/// The failure record of one destination. Times are milliseconds.
#[derive(Debug, Clone, Copy, PartialEq, Eq, Structural)]
pub struct FailureInfo {
    /// Consecutive failures in the current window.
    pub count: u32,
    /// When the current run of failures began.
    pub first_failure: u64,
    /// When the last failure happened.
    pub last_failure: u64,
    /// Whether the interruption has already been announced.
    pub interruption_notified: bool,
}

/// Counts consecutive routing failures per destination inside a time
/// window; reaching the threshold announces an interruption once, and a
/// success afterwards announces recovery.
#[derive(Debug)]
pub struct RoutingFailureTracker {
    /// Per-destination failure records.
    pub failures: HashMap<u64, FailureInfo>,
    /// Failures needed to announce an interruption.
    pub failure_threshold: u32,
    /// The window length in milliseconds.
    pub failure_window_ms: u64,
}

impl RoutingFailureTracker {
    /// A tracker with the given threshold and window.
    pub fn new(failure_threshold: u32, failure_window_ms: u64) -> (r: RoutingFailureTracker)
        ensures
            r.failure_threshold == failure_threshold,
            r.failure_window_ms == failure_window_ms,
            forall|d: u64| !(#[trigger] r.failures@.contains_key(d)),
    {
        RoutingFailureTracker { failures: HashMap::new(), failure_threshold, failure_window_ms }
    }

    /// Record a failure toward `dst_node` at clock reading `now`. A
    /// failure after the window restarts the count at one; within the
    /// window the count grows by one, saturating. Yields the new count
    /// and whether the interruption threshold was crossed for the first
    /// time in this run.
    pub fn record_failure_at(&mut self, dst_node: u64, now: u64) -> (r: (u32, bool))
        ensures
            final(self).failure_threshold == old(self).failure_threshold,
            final(self).failure_window_ms == old(self).failure_window_ms,
            final(self).failures@.contains_key(dst_node),
            ({
                let info = final(self).failures@[dst_node];
                let started_over = !old(self).failures@.contains_key(dst_node) || (now >= old(self).failures@[dst_node].first_failure && now - old(self).failures@[dst_node].first_failure > old(self).failure_window_ms);
                &&& r.0 == info.count
                &&& info.last_failure == now
                &&& (started_over ==> info.count == 1 && info.first_failure == now)
                &&& (!started_over ==> info.first_failure == old(self).failures@[dst_node].first_failure)
                &&& (!started_over ==> info.count == (if old(self).failures@[dst_node].count
                    < u32::MAX {
                    (old(self).failures@[dst_node].count + 1) as u32
                } else {
                    u32::MAX
                }))
                &&& r.1 == (info.count >= old(self).failure_threshold
                    && !info.interruption_notified_before(old(self).failures@, dst_node,
                    started_over))
                &&& info.interruption_notified == (r.1 || (!started_over && old(self).failures@[dst_node].interruption_notified))
            }),
            forall|d: u64|
                d != dst_node ==> (#[trigger] final(self).failures@.contains_key(d)) == old(self).failures@.contains_key(d) && (old(self).failures@.contains_key(d) ==> final(self).failures@[d] == old(self).failures@[d]),
    {
        let threshold = self.failure_threshold;
        let window = self.failure_window_ms;
        let mut info = match self.failures.get(&dst_node) {
            Some(existing) => *existing,
            None => FailureInfo {
                count: 0,
                first_failure: now,
                last_failure: now,
                interruption_notified: false,
            },
        };
        let started_over = !self.failures.contains_key(&dst_node) || (now >= info.first_failure
            && now - info.first_failure > window);
        if started_over {
            info.count = 1;
            info.first_failure = now;
            info.interruption_notified = false;
        } else {
            if info.count < u32::MAX {
                info.count = info.count + 1;
            }
        }
        info.last_failure = now;
        let should_notify = info.count >= threshold && !info.interruption_notified;
        if should_notify {
            info.interruption_notified = true;
        }
        self.failures.insert(dst_node, info);
        (info.count, should_notify)
    }

    /// Record a failure toward `dst_node` now.
    pub fn record_failure(&mut self, dst_node: u64) -> (r: (u32, bool))
        ensures
            final(self).failure_threshold == old(self).failure_threshold,
            final(self).failure_window_ms == old(self).failure_window_ms,
            final(self).failures@.contains_key(dst_node),
    {
        let now = now_millis();
        self.record_failure_at(dst_node, now)
    }

    /// Record a success toward `dst_node`: the failure record is dropped,
    /// and the result says whether the destination had been announced as
    /// interrupted — in which case the caller announces recovery.
    pub fn record_success(&mut self, dst_node: u64) -> (r: bool)
        ensures
            final(self).failure_threshold == old(self).failure_threshold,
            final(self).failure_window_ms == old(self).failure_window_ms,
            r == (old(self).failures@.contains_key(dst_node)
                && old(self).failures@[dst_node].interruption_notified),
            !final(self).failures@.contains_key(dst_node),
            forall|d: u64|
                d != dst_node ==> (#[trigger] final(self).failures@.contains_key(d)) == old(self).failures@.contains_key(d) && (old(self).failures@.contains_key(d) ==> final(self).failures@[d] == old(self).failures@[d]),
    {
        match self.failures.remove(&dst_node) {
            Some(info) => info.interruption_notified,
            None => false,
        }
    }

    /// The current failure count of `dst_node`; zero when none is
    /// recorded.
    pub fn get_failure_count(&self, dst_node: u64) -> (r: u32)
        ensures
            r == (if self.failures@.contains_key(dst_node) {
                self.failures@[dst_node].count
            } else {
                0u32
            }),
    {
        match self.failures.get(&dst_node) {
            Some(info) => info.count,
            None => 0,
        }
    }

    /// Whether `dst_node` stands announced as interrupted.
    pub fn is_interrupted(&self, dst_node: u64) -> (r: bool)
        ensures
            r == (self.failures@.contains_key(dst_node)
                && self.failures@[dst_node].interruption_notified),
    {
        match self.failures.get(&dst_node) {
            Some(info) => info.interruption_notified,
            None => false,
        }
    }
}

impl FailureInfo {
    /// Whether the interruption had already been announced before this
    /// failure, for a run that did or did not start over.
    pub open spec fn interruption_notified_before(
        self,
        older: Map<u64, FailureInfo>,
        dst_node: u64,
        started_over: bool,
    ) -> bool {
        !started_over && older.contains_key(dst_node) && older[dst_node].interruption_notified
    }
}

} // verus!
