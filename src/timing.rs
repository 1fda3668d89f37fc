//! Timing decisions: the lease file's debounce, the restart backoff of
//! failed tasks and the retry schedule of bus calls.

use vstd::prelude::*;
use crate::text::{chars_of, contains_seq, has_sub, last_index, rfind_char, sub_chars};

verus! {

/// Quiet period over which changes of the lease file are coalesced.
pub const DEBOUNCE_MS: u64 = 2000;

/// First restart delay of a failed task.
pub const RESTART_INITIAL_MS: u64 = 500;

/// Longest restart delay.
pub const RESTART_CAP_MS: u64 = 30000;

/// The last component of a path.
pub open spec fn file_name(path: Seq<char>) -> Seq<char> {
    match last_index(path, '/') {
        Some(i) => path.subrange(i + 1, path.len() as int),
        None => path,
    }
}

/// Whether a change to this path concerns the lease file.
pub open spec fn is_lease_path(path: Seq<char>) -> bool {
    has_sub(file_name(path), "dhclient.leases"@)
}

/// Collects changes of the lease directory between ticks.
pub struct LeaseDebounce {
    pub dirty: bool,
}

impl LeaseDebounce {
    pub fn new() -> (r: LeaseDebounce)
        ensures
            !r.dirty,
    {
        LeaseDebounce { dirty: false }
    }

    /// A change to `path` marks the file for reading when it is the lease
    /// file.
    pub fn on_change(&mut self, path: &str)
        ensures
            final(self).dirty == (old(self).dirty || is_lease_path(path@)),
    {
        let cs = chars_of(path);
        let n = cs.len();
        let name = match rfind_char(&cs, '/') {
            Some(i) => sub_chars(&cs, i + 1, n),
            None => cs,
        };
        let pattern = chars_of("dhclient.leases");
        if contains_seq(&name, &pattern) {
            self.dirty = true;
        }
    }

    /// At a tick: whether to read the file now; the mark is cleared.
    pub fn on_tick(&mut self) -> (r: bool)
        ensures
            r == old(self).dirty,
            !final(self).dirty,
    {
        let r = self.dirty;
        self.dirty = false;
        r
    }
}

/// The delay after `current`: doubled, at most `RESTART_CAP_MS`.
pub fn next_restart_delay(current: u64) -> (r: u64)
    ensures
        r == if 2 * current <= RESTART_CAP_MS {
            2 * current
        } else {
            RESTART_CAP_MS as int
        },
{
    if current <= RESTART_CAP_MS / 2 {
        current * 2
    } else {
        RESTART_CAP_MS
    }
}

/// Delay before retry `attempt` (counted from 1) of a failed bus call:
/// 100, 400 and 1600 ms; none after the third.
pub fn bus_retry_delay(attempt: u32) -> (r: Option<u64>)
    ensures
        r == (if attempt == 1 {
            Some(100u64)
        } else if attempt == 2 {
            Some(400u64)
        } else if attempt == 3 {
            Some(1600u64)
        } else {
            None::<u64>
        }),
{
    if attempt == 1 {
        Some(100)
    } else if attempt == 2 {
        Some(400)
    } else if attempt == 3 {
        Some(1600)
    } else {
        None
    }
}

} // verus!
