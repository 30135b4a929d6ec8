//! The counter bank of the tracker's observability surface: one signed
//! 64-bit counter per event of a fixed enumeration, updated with
//! saturating arithmetic.

use vstd::prelude::*;

verus! {

/// The events and gauges the tracker counts.
#[derive(Clone, Copy, Debug, PartialEq, Eq, Structural)]
pub enum StatsEvent {
    Torrents,
    TorrentsUpdates,
    Users,
    UsersUpdates,
    TimestampSave,
    TimestampTimeout,
    TimestampConsole,
    TimestampKeysTimeout,
    Seeds,
    Peers,
    Completed,
    WhitelistEnabled,
    Whitelist,
    WhitelistUpdates,
    BlacklistEnabled,
    Blacklist,
    BlacklistUpdates,
    Key,
    KeyUpdates,
    Tcp4NotFound,
    Tcp4Failure,
    Tcp4ConnectionsHandled,
    Tcp4ApiHandled,
    Tcp4AnnouncesHandled,
    Tcp4ScrapesHandled,
    Tcp6NotFound,
    Tcp6Failure,
    Tcp6ConnectionsHandled,
    Tcp6ApiHandled,
    Tcp6AnnouncesHandled,
    Tcp6ScrapesHandled,
    Udp4BadRequest,
    Udp4InvalidRequest,
    Udp4ConnectionsHandled,
    Udp4AnnouncesHandled,
    Udp4ScrapesHandled,
    Udp6BadRequest,
    Udp6InvalidRequest,
    Udp6ConnectionsHandled,
    Udp6AnnouncesHandled,
    Udp6ScrapesHandled,
}

/// The slot a counter lives in.
pub open spec fn event_index(e: StatsEvent) -> int {
    match e {
        StatsEvent::Torrents => 0,
        StatsEvent::TorrentsUpdates => 1,
        StatsEvent::Users => 2,
        StatsEvent::UsersUpdates => 3,
        StatsEvent::TimestampSave => 4,
        StatsEvent::TimestampTimeout => 5,
        StatsEvent::TimestampConsole => 6,
        StatsEvent::TimestampKeysTimeout => 7,
        StatsEvent::Seeds => 8,
        StatsEvent::Peers => 9,
        StatsEvent::Completed => 10,
        StatsEvent::WhitelistEnabled => 11,
        StatsEvent::Whitelist => 12,
        StatsEvent::WhitelistUpdates => 13,
        StatsEvent::BlacklistEnabled => 14,
        StatsEvent::Blacklist => 15,
        StatsEvent::BlacklistUpdates => 16,
        StatsEvent::Key => 17,
        StatsEvent::KeyUpdates => 18,
        StatsEvent::Tcp4NotFound => 19,
        StatsEvent::Tcp4Failure => 20,
        StatsEvent::Tcp4ConnectionsHandled => 21,
        StatsEvent::Tcp4ApiHandled => 22,
        StatsEvent::Tcp4AnnouncesHandled => 23,
        StatsEvent::Tcp4ScrapesHandled => 24,
        StatsEvent::Tcp6NotFound => 25,
        StatsEvent::Tcp6Failure => 26,
        StatsEvent::Tcp6ConnectionsHandled => 27,
        StatsEvent::Tcp6ApiHandled => 28,
        StatsEvent::Tcp6AnnouncesHandled => 29,
        StatsEvent::Tcp6ScrapesHandled => 30,
        StatsEvent::Udp4BadRequest => 31,
        StatsEvent::Udp4InvalidRequest => 32,
        StatsEvent::Udp4ConnectionsHandled => 33,
        StatsEvent::Udp4AnnouncesHandled => 34,
        StatsEvent::Udp4ScrapesHandled => 35,
        StatsEvent::Udp6BadRequest => 36,
        StatsEvent::Udp6InvalidRequest => 37,
        StatsEvent::Udp6ConnectionsHandled => 38,
        StatsEvent::Udp6AnnouncesHandled => 39,
        StatsEvent::Udp6ScrapesHandled => 40,
    }
}

pub const STATS_SLOTS: usize = 41;

fn event_index_exec(e: StatsEvent) -> (r: usize)
    ensures
        r == event_index(e),
        r < STATS_SLOTS,
{
    match e {
        StatsEvent::Torrents => 0,
        StatsEvent::TorrentsUpdates => 1,
        StatsEvent::Users => 2,
        StatsEvent::UsersUpdates => 3,
        StatsEvent::TimestampSave => 4,
        StatsEvent::TimestampTimeout => 5,
        StatsEvent::TimestampConsole => 6,
        StatsEvent::TimestampKeysTimeout => 7,
        StatsEvent::Seeds => 8,
        StatsEvent::Peers => 9,
        StatsEvent::Completed => 10,
        StatsEvent::WhitelistEnabled => 11,
        StatsEvent::Whitelist => 12,
        StatsEvent::WhitelistUpdates => 13,
        StatsEvent::BlacklistEnabled => 14,
        StatsEvent::Blacklist => 15,
        StatsEvent::BlacklistUpdates => 16,
        StatsEvent::Key => 17,
        StatsEvent::KeyUpdates => 18,
        StatsEvent::Tcp4NotFound => 19,
        StatsEvent::Tcp4Failure => 20,
        StatsEvent::Tcp4ConnectionsHandled => 21,
        StatsEvent::Tcp4ApiHandled => 22,
        StatsEvent::Tcp4AnnouncesHandled => 23,
        StatsEvent::Tcp4ScrapesHandled => 24,
        StatsEvent::Tcp6NotFound => 25,
        StatsEvent::Tcp6Failure => 26,
        StatsEvent::Tcp6ConnectionsHandled => 27,
        StatsEvent::Tcp6ApiHandled => 28,
        StatsEvent::Tcp6AnnouncesHandled => 29,
        StatsEvent::Tcp6ScrapesHandled => 30,
        StatsEvent::Udp4BadRequest => 31,
        StatsEvent::Udp4InvalidRequest => 32,
        StatsEvent::Udp4ConnectionsHandled => 33,
        StatsEvent::Udp4AnnouncesHandled => 34,
        StatsEvent::Udp4ScrapesHandled => 35,
        StatsEvent::Udp6BadRequest => 36,
        StatsEvent::Udp6InvalidRequest => 37,
        StatsEvent::Udp6ConnectionsHandled => 38,
        StatsEvent::Udp6AnnouncesHandled => 39,
        StatsEvent::Udp6ScrapesHandled => 40,
    }
}

/// `a + b` held within the bounds of `i64`.
pub open spec fn sat_add_i64(a: i64, b: i64) -> i64 {
    if a + b > i64::MAX {
        i64::MAX
    } else if a + b < i64::MIN {
        i64::MIN
    } else {
        (a + b) as i64
    }
}

/// The bank of counters, one slot per event.
pub struct StatsBank {
    pub counters: Vec<i64>,
}

impl StatsBank {
    pub open spec fn wf(self) -> bool {
        self.counters@.len() == STATS_SLOTS
    }

    pub open spec fn counter(self, e: StatsEvent) -> i64 {
        self.counters@[event_index(e)]
    }

    /// All counters start at zero.
    pub fn new() -> (r: StatsBank)
        ensures
            r.wf(),
            forall|e: StatsEvent| #[trigger] r.counter(e) == 0,
    {
        let counters: Vec<i64> = vec![0i64; 41];
        StatsBank { counters }
    }

    /// Adds `delta` to one counter, saturating; every other counter keeps
    /// its value. Hands the new value back.
    pub fn update_stats(&mut self, e: StatsEvent, delta: i64) -> (r: i64)
        requires
            old(self).wf(),
        ensures
            final(self).wf(),
            r == sat_add_i64(old(self).counter(e), delta),
            final(self).counter(e) == r,
            forall|e2: StatsEvent|
                event_index(e2) != event_index(e) ==> #[trigger] final(self).counter(e2) == old(
                    self,
                ).counter(e2),
    {
        let i = event_index_exec(e);
        let c = self.counters[i];
        let v: i64 = if delta >= 0 {
            if c > i64::MAX - delta {
                i64::MAX
            } else {
                c + delta
            }
        } else {
            if c < i64::MIN - delta {
                i64::MIN
            } else {
                c + delta
            }
        };
        self.counters.set(i, v);
        v
    }

    /// Pins one counter to a value; every other counter keeps its value.
    pub fn set_stats(&mut self, e: StatsEvent, value: i64) -> (r: i64)
        requires
            old(self).wf(),
        ensures
            final(self).wf(),
            r == value,
            final(self).counter(e) == value,
            forall|e2: StatsEvent|
                event_index(e2) != event_index(e) ==> #[trigger] final(self).counter(e2) == old(
                    self,
                ).counter(e2),
    {
        let i = event_index_exec(e);
        self.counters.set(i, value);
        value
    }

    /// One counter's value.
    pub fn get_stats(&self, e: StatsEvent) -> (r: i64)
        requires
            self.wf(),
        ensures
            r == self.counter(e),
    {
        self.counters[event_index_exec(e)]
    }
}

} // verus!
