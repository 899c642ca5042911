//! The counters gathered over a batch of records.

use vstd::prelude::*;

use crate::maps::{EventCounts, LogonCounts, event_counts, logon_counts};

verus! {

/// `c + 1`, held at `usize::MAX`.
pub open spec fn bumped(c: usize) -> usize {
    if c < usize::MAX {
        (c + 1) as usize
    } else {
        c
    }
}

/// The counters of one batch of records: how many there were, the file they
/// came from, the first and last timestamps, occurrences of each event ID and
/// logon outcomes of each user.
pub struct EventMetrics {
    pub total: usize,
    pub filepath: String,
    pub start_time: String,
    pub end_time: String,
    pub stats_list: EventCounts,
    pub stats_login_list: LogonCounts,
}

impl EventMetrics {
    /// Counters with the given record total, file and time range, and no
    /// events or logons counted yet.
    pub fn new(total: usize, filepath: String, start_time: String, end_time: String) -> (r:
        EventMetrics)
        ensures
            r.total == total,
            r.filepath@ == filepath@,
            r.start_time@ == start_time@,
            r.end_time@ == end_time@,
            event_counts(r.stats_list) == Map::<Seq<char>, usize>::empty(),
            logon_counts(r.stats_login_list) == Map::<Seq<char>, (usize, usize)>::empty(),
    {
        EventMetrics {
            total,
            filepath,
            start_time,
            end_time,
            stats_list: EventCounts::empty(),
            stats_login_list: LogonCounts::empty(),
        }
    }

    /// Counts one more occurrence of `event_id`.
    pub fn add_event(&mut self, event_id: String)
        ensures
            event_counts(final(self).stats_list) == event_counts(old(self).stats_list).insert(
                event_id@,
                if event_counts(old(self).stats_list).contains_key(event_id@) {
                    bumped(event_counts(old(self).stats_list)[event_id@])
                } else {
                    1
                },
            ),
            final(self).total == old(self).total,
            final(self).filepath == old(self).filepath,
            final(self).start_time == old(self).start_time,
            final(self).end_time == old(self).end_time,
            final(self).stats_login_list == old(self).stats_login_list,
    {
        let n: usize = match self.stats_list.get(&event_id) {
            Some(c) => if c < usize::MAX {
                c + 1
            } else {
                c
            },
            None => 1,
        };
        self.stats_list.insert(event_id, n);
    }

    /// Counts one more logon of `user_key`, a successful one where
    /// `successful` holds and a failed one otherwise.
    pub fn add_logon(&mut self, user_key: String, successful: bool)
        ensures
            ({
                let old_map = logon_counts(old(self).stats_login_list);
                let c = if old_map.contains_key(user_key@) {
                    old_map[user_key@]
                } else {
                    (0usize, 0usize)
                };
                logon_counts(final(self).stats_login_list) == old_map.insert(
                    user_key@,
                    if successful {
                        (bumped(c.0), c.1)
                    } else {
                        (c.0, bumped(c.1))
                    },
                )
            }),
            final(self).total == old(self).total,
            final(self).filepath == old(self).filepath,
            final(self).start_time == old(self).start_time,
            final(self).end_time == old(self).end_time,
            final(self).stats_list == old(self).stats_list,
    {
        let c: (usize, usize) = match self.stats_login_list.get(&user_key) {
            Some(c) => c,
            None => (0, 0),
        };
        let s: usize = if successful && c.0 < usize::MAX {
            c.0 + 1
        } else {
            c.0
        };
        let f: usize = if !successful && c.1 < usize::MAX {
            c.1 + 1
        } else {
            c.1
        };
        self.stats_login_list.insert(user_key, (s, f));
    }
}

} // verus!
