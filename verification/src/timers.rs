//! When the periodic work of the main loop is due: saving the statistics,
//! polling the epoch information and building the block list.
use vstd::prelude::*;

verus! {

/// Milliseconds between two polls of the epoch information.
pub const GET_EPOCH_INFO_INTERVAL: u64 = 5000;

/// Milliseconds between two saves of the statistics.
pub const WRITE_STATS_INTERVAL: u64 = 60000;

/// Milliseconds between two runs of the block list.
pub const CREATE_IP_BLOCKLIST_INTERVAL: u64 = 120000;

/// When each kind of work was last done, in milliseconds.
#[derive(Clone, Copy, Debug, PartialEq, Eq, Structural)]
pub struct Timers {
    pub last_write: u64,
    pub last_get_epoch_info: u64,
    pub last_create_ip_blocklist: u64,
}

/// The work to do now, in this order: save the statistics, poll the epoch
/// information, build the block list (and save the statistics after it).
#[derive(Clone, Copy, Debug, PartialEq, Eq, Structural)]
pub struct Due {
    pub write_stats: bool,
    pub get_epoch_info: bool,
    pub create_ip_blocklist: bool,
}

impl Timers {
    /// The deadlines can be computed in 64 bits.
    pub open spec fn tick_fits(self) -> bool {
        &&& self.last_write + WRITE_STATS_INTERVAL <= u64::MAX
        &&& self.last_get_epoch_info + GET_EPOCH_INFO_INTERVAL <= u64::MAX
        &&& self.last_create_ip_blocklist + CREATE_IP_BLOCKLIST_INTERVAL <= u64::MAX
    }

    /// The work due at `now`: each kind once its interval has passed since
    /// it was last done.
    pub open spec fn due_at(self, now: u64) -> Due {
        Due {
            write_stats: now >= self.last_write + WRITE_STATS_INTERVAL,
            get_epoch_info: now >= self.last_get_epoch_info + GET_EPOCH_INFO_INTERVAL,
            create_ip_blocklist: now >= self.last_create_ip_blocklist + CREATE_IP_BLOCKLIST_INTERVAL,
        }
    }

    /// Every kind of work counts as just done at `now`.
    pub fn new(now: u64) -> (r: Timers)
        ensures
            r == (Timers { last_write: now, last_get_epoch_info: now, last_create_ip_blocklist: now }),
    {
        Timers { last_write: now, last_get_epoch_info: now, last_create_ip_blocklist: now }
    }

    /// Whether `tick` can compute its deadlines.
    pub fn tick_in_range(&self) -> (r: bool)
        ensures
            r == self.tick_fits(),
    {
        self.last_write <= u64::MAX - WRITE_STATS_INTERVAL && self.last_get_epoch_info <= u64::MAX
            - GET_EPOCH_INFO_INTERVAL && self.last_create_ip_blocklist <= u64::MAX
            - CREATE_IP_BLOCKLIST_INTERVAL
    }

    /// Decides the work due at `now` and records it as done; building the
    /// block list also saves the statistics.
    pub fn tick(&mut self, now: u64) -> (due: Due)
        requires
            old(self).tick_fits(),
        ensures
            due == old(self).due_at(now),
            final(self).last_write == if due.write_stats || due.create_ip_blocklist {
                now
            } else {
                old(self).last_write
            },
            final(self).last_get_epoch_info == if due.get_epoch_info {
                now
            } else {
                old(self).last_get_epoch_info
            },
            final(self).last_create_ip_blocklist == if due.create_ip_blocklist {
                now
            } else {
                old(self).last_create_ip_blocklist
            },
    {
        let write_stats = now >= self.last_write + WRITE_STATS_INTERVAL;
        if write_stats {
            self.last_write = now;
        }
        let get_epoch_info = now >= self.last_get_epoch_info + GET_EPOCH_INFO_INTERVAL;
        if get_epoch_info {
            self.last_get_epoch_info = now;
        }
        let create_ip_blocklist = now >= self.last_create_ip_blocklist
            + CREATE_IP_BLOCKLIST_INTERVAL;
        if create_ip_blocklist {
            self.last_create_ip_blocklist = now;
            self.last_write = now;
        }
        Due { write_stats, get_epoch_info, create_ip_blocklist }
    }
}

} // verus!
