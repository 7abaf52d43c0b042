//! Shared service state: the freshness-gated rating cache and the
//! name-to-identity cache.
//!
//! Each cache is a vector of key/value pairs with pairwise distinct
//! keys; `assoc_map` gives the map it denotes.  A rating record fetched
//! at time `T` serves queries for strictly less than 24 hours after
//! `T`; after that the entry is stale and a refresh replaces it whole.
//! A failed refresh changes nothing.

use vstd::prelude::*;
use vstd::pervasive::VecAdditionalExecFns;

use crate::assoc::{assoc_map, lemma_assoc_map_contains, lemma_assoc_map_index,
    lemma_assoc_map_update, unique_keys};
use crate::error::Error;
use crate::labels::str_eq;
use crate::tvshow::Ratings;

verus! {

/// Seconds in the freshness window: a cached record serves for strictly
/// less than 24 hours.
pub const FRESH_WINDOW_SECONDS: i64 = 86400;

/// Whether a record fetched at `fetched_at` is still fresh at `now`
/// (both in seconds): freshness is the strict test `now - fetched_at <
/// 24h`.
pub open spec fn is_fresh(fetched_at: int, now: int) -> bool {
    now - fetched_at < FRESH_WINDOW_SECONDS
}

/// The freshness boundary: 23h59m and even 23h59m59s after the fetch
/// are fresh; exactly 24 hours, and anything later, is stale.
pub proof fn lemma_freshness_boundary(t: int)
    ensures
        is_fresh(t, t + 86340),
        is_fresh(t, t + 86399),
        !is_fresh(t, t + 86400),
        !is_fresh(t, t + 86401),
{
}

/// A resolved show identity: the stable external id and the display
/// title.
#[derive(Debug)]
pub struct IdAndTitle {
    pub id: String,
    pub title: String,
}

impl View for IdAndTitle {
    type V = (Seq<char>, Seq<char>);

    open spec fn view(&self) -> (Seq<char>, Seq<char>) {
        (self.id@, self.title@)
    }
}

impl IdAndTitle {
    /// An equal copy.
    pub fn duplicate(&self) -> (r: IdAndTitle)
        ensures
            r@ == self@,
    {
        IdAndTitle { id: self.id.clone(), title: self.title.clone() }
    }
}

/// One cache slot: when the record was fetched (seconds) and the record
/// itself.
#[derive(Debug)]
pub struct Entry {
    pub date: i64,
    pub ratings: Ratings,
}

impl View for Entry {
    type V = (int, <Ratings as View>::V);

    open spec fn view(&self) -> (int, <Ratings as View>::V) {
        (self.date as int, self.ratings@)
    }
}

impl Entry {
    /// An equal copy.
    pub fn duplicate(&self) -> (r: Entry)
        ensures
            r@ == self@,
            r.date == self.date,
            r.ratings.wf() == self.ratings.wf(),
    {
        Entry { date: self.date, ratings: self.ratings.duplicate() }
    }
}

/// Service configuration.
#[derive(Debug)]
pub struct Opt {
    pub log_level: String,
    pub addr: String,
    pub port: u16,
    pub static_dir: String,
    pub url_prefix: String,
}

impl Default for Opt {
    /// The stock configuration.
    fn default() -> (r: Opt)
        ensures
            r.log_level@ == "info"@,
            r.addr@ == "::1"@,
            r.port == 8080,
            r.static_dir@ == "./dist"@,
            r.url_prefix@ == "http://localhost:8080"@,
    {
        Opt {
            log_level: "info".to_owned(),
            addr: "::1".to_owned(),
            port: 8080,
            static_dir: "./dist".to_owned(),
            url_prefix: "http://localhost:8080".to_owned(),
        }
    }
}

impl Opt {
    /// An equal copy, field for field.
    pub fn duplicate(&self) -> (r: Opt)
        ensures
            r.log_level@ == self.log_level@,
            r.addr@ == self.addr@,
            r.port == self.port,
            r.static_dir@ == self.static_dir@,
            r.url_prefix@ == self.url_prefix@,
    {
        Opt {
            log_level: self.log_level.clone(),
            addr: self.addr.clone(),
            port: self.port,
            static_dir: self.static_dir.clone(),
            url_prefix: self.url_prefix.clone(),
        }
    }
}

/// Relies on `chrono::Utc::now`: the current wall-clock time as seconds
/// since the epoch.  Nothing is assumed about the value.
#[verifier::external_body]
fn now_timestamp() -> i64 {
    chrono::Utc::now().timestamp()
}

/// Position of the entry keyed by `id`, or the length if there is
/// none.
fn find_entry_index(entries: &Vec<(String, Entry)>, id: &String) -> (r: usize)
    ensures
        r <= entries@.len(),
        forall|k: int| 0 <= k < r ==> entries@[k].0@ != id@,
        r < entries@.len() ==> entries@[r as int].0@ == id@,
{
    let mut i: usize = 0;
    while i < entries.len()
        invariant
            i <= entries@.len(),
            forall|k: int| 0 <= k < i ==> entries@[k].0@ != id@,
        decreases entries@.len() - i,
    {
        if entries[i].0 == *id {
            return i;
        }
        i = i + 1;
    }
    i
}

/// Position of the identity keyed by `name`, or the length if there is
/// none.
fn find_name_index(names: &Vec<(String, IdAndTitle)>, name: &str) -> (r: usize)
    ensures
        r <= names@.len(),
        forall|k: int| 0 <= k < r ==> names@[k].0@ != name@,
        r < names@.len() ==> names@[r as int].0@ == name@,
{
    let mut i: usize = 0;
    while i < names.len()
        invariant
            i <= names@.len(),
            forall|k: int| 0 <= k < i ==> names@[k].0@ != name@,
        decreases names@.len() - i,
    {
        if str_eq(names[i].0.as_str(), name) {
            return i;
        }
        i = i + 1;
    }
    i
}

/// The shared state: the rating cache keyed by show id, the identity
/// cache keyed by the searched name, and the configuration.
#[derive(Debug)]
pub struct AppState {
    pub entries: Vec<(String, Entry)>,
    pub names: Vec<(String, IdAndTitle)>,
    pub opt: Opt,
}

impl AppState {
    /// The rating cache as key/value pairs, in insertion order.
    pub open spec fn entry_pairs(self) -> Seq<(Seq<char>, (int, <Ratings as View>::V))> {
        Seq::new(self.entries@.len(), |i: int| (self.entries@[i].0@, self.entries@[i].1@))
    }

    /// The map the rating cache denotes: show id to fetch time and
    /// record.
    pub open spec fn entries_map(self) -> Map<Seq<char>, (int, <Ratings as View>::V)> {
        assoc_map(self.entry_pairs())
    }

    /// The identity cache as key/value pairs, in insertion order.
    pub open spec fn name_pairs(self) -> Seq<(Seq<char>, (Seq<char>, Seq<char>))> {
        Seq::new(self.names@.len(), |i: int| (self.names@[i].0@, self.names@[i].1@))
    }

    /// The map the identity cache denotes: searched name to identity.
    pub open spec fn names_map(self) -> Map<Seq<char>, (Seq<char>, Seq<char>)> {
        assoc_map(self.name_pairs())
    }

    /// At most one entry per key in either cache; fetch times are
    /// nonnegative; cached records are well-formed.
    pub open spec fn wf(self) -> bool {
        &&& unique_keys(self.entry_pairs())
        &&& unique_keys(self.name_pairs())
        &&& forall|i: int|
            0 <= i < self.entries@.len() ==> self.entries@[i].1.date >= 0
                && self.entries@[i].1.ratings.wf()
    }

    /// A fresh state with empty caches.
    pub fn new(opt: Opt) -> (r: AppState)
        ensures
            r.wf(),
            r.entries_map() == Map::<Seq<char>, (int, <Ratings as View>::V)>::empty(),
            r.names_map() == Map::<Seq<char>, (Seq<char>, Seq<char>)>::empty(),
            r.opt == opt,
    {
        AppState { entries: Vec::new(), names: Vec::new(), opt }
    }

    /// Serves the cached entry for `ident` if there is one and it is
    /// still fresh at `now`; a stale or missing entry yields nothing.
    pub fn check(&self, ident: &IdAndTitle, now: i64) -> (r: Option<&Entry>)
        requires
            self.wf(),
        ensures
            match r {
                Some(e) => self.entries_map().contains_key(ident.id@) && e@ == self.entries_map()[ident.id@]
                    && is_fresh(e.date as int, now as int) && e.ratings.wf(),
                None => self.entries_map().contains_key(ident.id@) ==> !is_fresh(
                    self.entries_map()[ident.id@].0,
                    now as int,
                ),
            },
    {
        let mut i: usize = 0;
        while i < self.entries.len()
            invariant
                self.wf(),
                i <= self.entries@.len(),
                forall|k: int| 0 <= k < i ==> self.entries@[k].0@ != ident.id@,
            decreases self.entries@.len() - i,
        {
            if self.entries[i].0 == ident.id {
                proof {
                    lemma_assoc_map_index(self.entry_pairs(), i as int);
                }
                let e = &self.entries[i].1;
                let fresh = if e.date <= now {
                    now - e.date < FRESH_WINDOW_SECONDS
                } else {
                    true
                };
                if fresh {
                    return Some(e);
                } else {
                    return None;
                }
            }
            i = i + 1;
        }
        proof {
            lemma_assoc_map_contains(self.entry_pairs(), ident.id@);
        }
        None
    }

    /// `check` at the current wall-clock time.  Whatever the clock
    /// said, a served entry is the one cached for `ident`.
    pub fn check_now(&self, ident: &IdAndTitle) -> (r: Option<&Entry>)
        requires
            self.wf(),
        ensures
            match r {
                Some(e) => self.entries_map().contains_key(ident.id@) && e@ == self.entries_map()[ident.id@]
                    && e.ratings.wf(),
                None => true,
            },
    {
        let now = now_timestamp();
        self.check(ident, now)
    }

    /// Installs a freshly aggregated record for `ident`, or propagates
    /// the aggregation failure.  A failed refresh leaves the whole
    /// state unchanged, any pre-existing entry for `ident` included; a
    /// successful one replaces the entry atomically and returns an
    /// equal copy of the record.
    pub fn update(&mut self, ident: &IdAndTitle, now: i64, fetched: Result<Ratings, Error>) -> (r:
        Result<Ratings, Error>)
        requires
            old(self).wf(),
            now >= 0,
            fetched is Ok ==> fetched.unwrap().wf(),
        ensures
            final(self).wf(),
            match fetched {
                Ok(rec) => {
                    &&& final(self).entries_map() == old(self).entries_map().insert(
                        ident.id@,
                        (now as int, rec@),
                    )
                    &&& final(self).names == old(self).names
                    &&& final(self).opt == old(self).opt
                    &&& r is Ok
                    &&& r.unwrap()@ == rec@
                    &&& r.unwrap().wf()
                },
                Err(e) => *final(self) == *old(self) && r == Err::<Ratings, Error>(e),
            },
    {
        match fetched {
            Err(e) => Err(e),
            Ok(rec) => {
                let copy = rec.duplicate();
                let entry = Entry { date: now, ratings: rec };
                let i = find_entry_index(&self.entries, &ident.id);
                let ghost before = *self;
                if i < self.entries.len() {
                    proof {
                        lemma_assoc_map_update(
                            self.entry_pairs(),
                            i as int,
                            (now as int, entry.ratings@),
                        );
                    }
                    self.entries.set(i, (ident.id.clone(), entry));
                    proof {
                        assert(self.entry_pairs() =~= before.entry_pairs().update(
                            i as int,
                            (before.entry_pairs()[i as int].0, (now as int, copy@)),
                        ));
                        assert(unique_keys(self.entry_pairs())) by {
                            assert(forall|k: int|
                                0 <= k < self.entries@.len() ==> self.entry_pairs()[k].0
                                    == before.entry_pairs()[k].0);
                        }
                        assert(self.name_pairs() =~= before.name_pairs());
                    }
                } else {
                    self.entries.push((ident.id.clone(), entry));
                    proof {
                        assert(self.entry_pairs().drop_last() =~= before.entry_pairs());
                        assert(self.entry_pairs().last() == (ident.id@, (now as int, copy@)));
                        assert forall|a: int, b: int|
                            0 <= a < b < self.entry_pairs().len() implies self.entry_pairs()[a].0
                            != self.entry_pairs()[b].0 by {
                            assert(self.entry_pairs()[a].0 == before.entry_pairs()[a].0);
                            if b < before.entries@.len() {
                                assert(self.entry_pairs()[b].0 == before.entry_pairs()[b].0);
                            } else {
                                assert(self.entry_pairs()[b].0 == ident.id@);
                                assert(before.entries@[a].0@ != ident.id@);
                            }
                        }
                        assert(self.name_pairs() =~= before.name_pairs());
                    }
                }
                Ok(copy)
            },
        }
    }

    /// `update` at the current wall-clock time.  The record installed
    /// on success is exactly the fetched one; only the recorded fetch
    /// time comes from the clock.
    pub fn update_now(&mut self, ident: &IdAndTitle, fetched: Result<Ratings, Error>) -> (r:
        Result<Ratings, Error>)
        requires
            old(self).wf(),
            fetched is Ok ==> fetched.unwrap().wf(),
        ensures
            final(self).wf(),
            match fetched {
                Ok(rec) => {
                    &&& exists|t: int|
                        t >= 0 && final(self).entries_map() == old(self).entries_map().insert(
                            ident.id@,
                            (t, rec@),
                        )
                    &&& final(self).names == old(self).names
                    &&& final(self).opt == old(self).opt
                    &&& r is Ok
                    &&& r.unwrap()@ == rec@
                    &&& r.unwrap().wf()
                },
                Err(e) => *final(self) == *old(self) && r == Err::<Ratings, Error>(e),
            },
    {
        let now = now_timestamp();
        let now = if now < 0 {
            0
        } else {
            now
        };
        self.update(ident, now, fetched)
    }

    /// The identity cached for `name`, if any.
    pub fn cached_identity(&self, name: &str) -> (r: Option<&IdAndTitle>)
        requires
            self.wf(),
        ensures
            match r {
                Some(ident) => self.names_map().contains_key(name@) && ident@ == self.names_map()[name@],
                None => !self.names_map().contains_key(name@),
            },
    {
        let mut i: usize = 0;
        while i < self.names.len()
            invariant
                self.wf(),
                i <= self.names@.len(),
                forall|k: int| 0 <= k < i ==> self.names@[k].0@ != name@,
            decreases self.names@.len() - i,
        {
            if str_eq(self.names[i].0.as_str(), name) {
                proof {
                    lemma_assoc_map_index(self.name_pairs(), i as int);
                }
                return Some(&self.names[i].1);
            }
            i = i + 1;
        }
        proof {
            lemma_assoc_map_contains(self.name_pairs(), name@);
        }
        None
    }

    /// Remembers the identity resolved for `name`; a second write for
    /// the same name wins.  The rating cache is untouched.
    pub fn store_identity(&mut self, name: &str, ident: IdAndTitle)
        requires
            old(self).wf(),
        ensures
            final(self).wf(),
            final(self).names_map() == old(self).names_map().insert(name@, ident@),
            final(self).entries == old(self).entries,
            final(self).opt == old(self).opt,
    {
        let i = find_name_index(&self.names, name);
        let ghost before = *self;
        let ghost identv = ident@;
        if i < self.names.len() {
            proof {
                lemma_assoc_map_update(self.name_pairs(), i as int, identv);
            }
            self.names.set(i, (name.to_owned(), ident));
            proof {
                assert(self.name_pairs() =~= before.name_pairs().update(
                    i as int,
                    (before.name_pairs()[i as int].0, identv),
                ));
                assert(unique_keys(self.name_pairs())) by {
                    assert(forall|k: int|
                        0 <= k < self.names@.len() ==> self.name_pairs()[k].0
                            == before.name_pairs()[k].0);
                }
                assert(self.entry_pairs() =~= before.entry_pairs());
            }
        } else {
            self.names.push((name.to_owned(), ident));
            proof {
                assert(self.name_pairs().drop_last() =~= before.name_pairs());
                assert(self.name_pairs().last() == (name@, identv));
                assert forall|a: int, b: int|
                    0 <= a < b < self.name_pairs().len() implies self.name_pairs()[a].0
                    != self.name_pairs()[b].0 by {
                    assert(self.name_pairs()[a].0 == before.name_pairs()[a].0);
                    if b < before.names@.len() {
                        assert(self.name_pairs()[b].0 == before.name_pairs()[b].0);
                    } else {
                        assert(self.name_pairs()[b].0 == name@);
                        assert(before.names@[a].0@ != name@);
                    }
                }
                assert(self.entry_pairs() =~= before.entry_pairs());
            }
        }
    }

    /// The show names resolved so far, in insertion order.
    pub fn resolved_names(&self) -> (r: Vec<String>)
        ensures
            r@.len() == self.names@.len(),
            forall|i: int| 0 <= i < r@.len() ==> r@[i]@ == self.names@[i].0@,
    {
        let mut r: Vec<String> = Vec::new();
        let mut i: usize = 0;
        while i < self.names.len()
            invariant
                i <= self.names@.len(),
                r@.len() == i,
                forall|k: int| 0 <= k < i ==> r@[k]@ == self.names@[k].0@,
            decreases self.names@.len() - i,
        {
            r.push(self.names[i].0.clone());
            i = i + 1;
        }
        r
    }
}

} // verus!

