//! The keyed counters and the title catalog, held in `hashbrown` maps.
//!
//! Each map sits in a private field of a struct that Verus treats as opaque;
//! what it holds is named by a spec function, and each operation on it states
//! its effect over that name.

use vstd::prelude::*;

use crate::order::{distinct_keys, keyed_view, lists_map};

verus! {

/// Occurrences of each event ID.
#[verifier::external_body]
pub struct EventCounts {
    map: hashbrown::HashMap<String, usize>,
}

/// What an `EventCounts` holds: event ID to number of occurrences.
pub uninterp spec fn event_counts(m: EventCounts) -> Map<Seq<char>, usize>;

impl EventCounts {
    /// Relies on `hashbrown::HashMap::new`: the map starts empty.
    #[verifier::external_body]
    pub(crate) fn empty() -> (r: EventCounts)
        ensures
            event_counts(r) =~= Map::empty(),
    {
        EventCounts { map: hashbrown::HashMap::new() }
    }

    /// Relies on `hashbrown::HashMap::get`: the count stored under `id`, if any.
    #[verifier::external_body]
    pub(crate) fn get(&self, id: &String) -> (r: Option<usize>)
        ensures
            r == (if event_counts(*self).contains_key(id@) {
                Some(event_counts(*self)[id@])
            } else {
                None::<usize>
            }),
    {
        self.map.get(id).copied()
    }

    /// Relies on `hashbrown::HashMap::insert`: `id` now maps to `n`, the other
    /// entries stay.
    #[verifier::external_body]
    pub(crate) fn insert(&mut self, id: String, n: usize)
        ensures
            event_counts(*final(self)) == event_counts(*old(self)).insert(id@, n),
    {
        self.map.insert(id, n);
    }

    /// Relies on `hashbrown::HashMap::iter`: each entry once, in an order
    /// that the map does not fix.
    #[verifier::external_body]
    pub(crate) fn entries(&self) -> (r: Vec<(String, usize)>)
        ensures
            lists_map(keyed_view(r@), event_counts(*self)),
            distinct_keys(keyed_view(r@)),
    {
        self.map.iter().map(|(k, v)| (k.clone(), *v)).collect()
    }
}

/// Logon outcomes of each user: the successful ones in slot 0, the failed
/// ones in slot 1.
#[verifier::external_body]
pub struct LogonCounts {
    map: hashbrown::HashMap<String, [usize; 2]>,
}

/// What a `LogonCounts` holds: user key to (successful, failed) logons.
pub uninterp spec fn logon_counts(m: LogonCounts) -> Map<Seq<char>, (usize, usize)>;

impl LogonCounts {
    /// Relies on `hashbrown::HashMap::new`: the map starts empty.
    #[verifier::external_body]
    pub(crate) fn empty() -> (r: LogonCounts)
        ensures
            logon_counts(r) =~= Map::empty(),
    {
        LogonCounts { map: hashbrown::HashMap::new() }
    }

    /// Relies on `hashbrown::HashMap::get`: the pair stored under `user`, if any.
    #[verifier::external_body]
    pub(crate) fn get(&self, user: &String) -> (r: Option<(usize, usize)>)
        ensures
            r == (if logon_counts(*self).contains_key(user@) {
                Some(logon_counts(*self)[user@])
            } else {
                None::<(usize, usize)>
            }),
    {
        self.map.get(user).map(|c| (c[0], c[1]))
    }

    /// Relies on `hashbrown::HashMap::insert`: `user` now maps to `c`, the
    /// other entries stay.
    #[verifier::external_body]
    pub(crate) fn insert(&mut self, user: String, c: (usize, usize))
        ensures
            logon_counts(*final(self)) == logon_counts(*old(self)).insert(user@, c),
    {
        self.map.insert(user, [c.0, c.1]);
    }

    /// Relies on `hashbrown::HashMap::iter`: each entry once, in an order
    /// that the map does not fix.
    #[verifier::external_body]
    pub(crate) fn entries(&self) -> (r: Vec<(String, (usize, usize))>)
        ensures
            lists_map(keyed_view(r@), logon_counts(*self)),
            distinct_keys(keyed_view(r@)),
    {
        self.map.iter().map(|(k, c)| (k.clone(), (c[0], c[1]))).collect()
    }
}

/// Display titles of event IDs.
#[verifier::external_body]
pub struct EventCatalog {
    map: hashbrown::HashMap<String, String>,
}

/// What an `EventCatalog` holds: event ID to title.
pub uninterp spec fn catalog_titles(c: EventCatalog) -> Map<Seq<char>, Seq<char>>;

impl EventCatalog {
    /// Relies on `hashbrown::HashMap::new`: the map starts empty.
    #[verifier::external_body]
    fn empty() -> (r: EventCatalog)
        ensures
            catalog_titles(r) =~= Map::empty(),
    {
        EventCatalog { map: hashbrown::HashMap::new() }
    }

    /// Relies on `hashbrown::HashMap::get`: the title stored under `id`, if any.
    #[verifier::external_body]
    fn lookup(&self, id: &String) -> (r: Option<String>)
        ensures
            match r {
                Some(t) => catalog_titles(*self).contains_key(id@) && t@ == catalog_titles(*self)[id@],
                None => !catalog_titles(*self).contains_key(id@),
            },
    {
        self.map.get(id).cloned()
    }

    /// Relies on `hashbrown::HashMap::insert`: `id` now maps to `title`, the
    /// other entries stay.
    #[verifier::external_body]
    fn store(&mut self, id: String, title: String)
        ensures
            catalog_titles(*final(self)) == catalog_titles(*old(self)).insert(id@, title@),
    {
        self.map.insert(id, title);
    }

    /// A catalog with no titles.
    pub fn new() -> (r: EventCatalog)
        ensures
            catalog_titles(r) =~= Map::empty(),
    {
        EventCatalog::empty()
    }

    /// Records `title` as the title of `id`, replacing an earlier one.
    pub fn add_title(&mut self, id: String, title: String)
        ensures
            catalog_titles(*final(self)) == catalog_titles(*old(self)).insert(id@, title@),
    {
        self.store(id, title);
    }

    /// The title of `id`, or `None` where the catalog has none.
    pub fn get_event_id(&self, id: &String) -> (r: Option<String>)
        ensures
            match r {
                Some(t) => catalog_titles(*self).contains_key(id@) && t@ == catalog_titles(*self)[id@],
                None => !catalog_titles(*self).contains_key(id@),
            },
    {
        self.lookup(id)
    }
}

} // verus!
