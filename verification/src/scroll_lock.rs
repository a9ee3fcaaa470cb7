//! Two-way binding between a setting and the Scroll Lock toggle. A toggle
//! this side injects shows up late in the key state, so readings are
//! ignored until it settles or a timeout passes. The key state is read,
//! and the key pressed, by the caller; times are milliseconds of a
//! monotonic clock.

use vstd::prelude::*;

verus! {

/// How long an injected toggle may take to show in the key state.
pub const SCROLL_LOCK_SETTLE_TIMEOUT_MS: u64 = 500;

/// The binding's state: the value it holds, and when it last injected a
/// toggle that has not yet been seen.
#[derive(Debug, Clone, Copy, PartialEq, Eq, Structural)]
pub struct ScrollLockSync {
    pub state: bool,
    pub pending_since: Option<u64>,
}

/// Milliseconds from `since` to `now` (none when the clock reads earlier).
pub open spec fn elapsed(since: u64, now: u64) -> int {
    if now >= since {
        now - since
    } else {
        0
    }
}

/// The binding after [`ScrollLockSync::set`], and whether the key must be
/// toggled.
pub open spec fn set_result(s: ScrollLockSync, enabled: bool, current: bool, now: u64) -> (ScrollLockSync, bool) {
    if s.state == enabled {
        (s, false)
    } else if current != enabled {
        (ScrollLockSync { state: enabled, pending_since: Some(now) }, true)
    } else {
        (ScrollLockSync { state: enabled, pending_since: s.pending_since }, false)
    }
}

/// The binding after [`ScrollLockSync::poll`], and the value reported.
pub open spec fn poll_result(s: ScrollLockSync, current: bool, now: u64) -> (ScrollLockSync, Option<bool>) {
    if s.pending_since matches Some(since) && current != s.state && elapsed(since, now)
        < SCROLL_LOCK_SETTLE_TIMEOUT_MS {
        (s, None)
    } else if current != s.state {
        (ScrollLockSync { state: current, pending_since: None }, Some(current))
    } else {
        (ScrollLockSync { state: s.state, pending_since: None }, None)
    }
}

impl ScrollLockSync {
    /// A binding for the key state `current`, then set to `initial` (see
    /// [`ScrollLockSync::set`]); also says whether the key must be toggled.
    pub fn new(initial: bool, current: bool, now: u64) -> (r: (ScrollLockSync, bool))
        ensures
            r == set_result(ScrollLockSync { state: current, pending_since: None }, initial, current, now),
    {
        let mut sync = ScrollLockSync { state: current, pending_since: None };
        let toggle = sync.set(initial, current, now);
        (sync, toggle)
    }

    /// The setting changes to `enabled`, with the key reading `current`.
    /// When the key disagrees the caller must toggle it (the result says
    /// so), and readings are held back until the toggle shows.
    pub fn set(&mut self, enabled: bool, current: bool, now: u64) -> (toggle: bool)
        ensures
            (*final(self), toggle) == set_result(*old(self), enabled, current, now),
    {
        if self.state == enabled {
            return false;
        }
        self.state = enabled;
        if current != enabled {
            self.pending_since = Some(now);
            true
        } else {
            false
        }
    }

    /// The key reads `current`: returns the new value if it was toggled
    /// from elsewhere. While an injected toggle is still settling, a reading
    /// that disagrees is ignored.
    pub fn poll(&mut self, current: bool, now: u64) -> (changed: Option<bool>)
        ensures
            (*final(self), changed) == poll_result(*old(self), current, now),
    {
        match self.pending_since {
            Some(since) => {
                let waited = if now >= since {
                    now - since
                } else {
                    0
                };
                if current != self.state && waited < SCROLL_LOCK_SETTLE_TIMEOUT_MS {
                    return None;
                }
                self.pending_since = None;
            },
            None => {},
        }
        if current != self.state {
            self.state = current;
            Some(current)
        } else {
            None
        }
    }
}

/// A toggle the binding injected is not reported back as an outside
/// change while it settles: polling with the key still reading the old
/// value before the timeout reports nothing and keeps the new value.
pub proof fn law_injected_toggle_not_echoed(s: ScrollLockSync, enabled: bool, current: bool, t: u64, later: u64)
    requires
        set_result(s, enabled, current, t).1,
        t <= later,
        later - t < SCROLL_LOCK_SETTLE_TIMEOUT_MS,
    ensures
        poll_result(set_result(s, enabled, current, t).0, current, later) == (
            set_result(s, enabled, current, t).0,
            None::<bool>,
        ),
{
}

/// Once the key reads the value the binding holds, polling reports nothing
/// and nothing stays pending.
pub proof fn law_agreeing_key_reports_nothing(s: ScrollLockSync, now: u64)
    ensures
        poll_result(s, s.state, now) == (ScrollLockSync { state: s.state, pending_since: None }, None::<bool>),
{
}

} // verus!
