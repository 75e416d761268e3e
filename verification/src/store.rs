//! An in-process model of the backing document store: the singleton
//! counter row, the shortened-URL records, and the analytics events.
//!
//! The physical database behind the original narrow interface (find,
//! insert, atomic increment) is a collaborator outside this crate; the
//! operations here give that interface an exact meaning that the service
//! layer is verified against.

use vstd::prelude::*;
use crate::analytics::Analytics;
use crate::url::Url;

verus! {

/// A store-level failure, reported to callers and never unwound further.
#[derive(Clone, Copy, Debug, PartialEq, Eq, Structural)]
pub enum StoreError {
    Unavailable,
}

/// The abstract contents of the store: the counter row (absent until the
/// first initialization), the URL records and the analytics events, both
/// in insertion order.
#[verifier::ext_equal]
pub struct StoreContents {
    pub counter: Option<u64>,
    pub urls: Seq<Url>,
    pub events: Seq<Analytics>,
}

/// The record store. Records are only ever inserted, never mutated or
/// deleted; the counter row only ever increases once present.
pub struct Store {
    counter: Option<u64>,
    urls: Vec<Url>,
    events: Vec<Analytics>,
}

impl View for Store {
    type V = StoreContents;

    closed spec fn view(&self) -> StoreContents {
        StoreContents { counter: self.counter, urls: self.urls@, events: self.events@ }
    }
}

/// What one counter bootstrap does to the store: it leaves every record
/// in place, returns zero and creates the counter row holding zero when
/// the row was absent, and otherwise returns the stored count untouched.
pub open spec fn bootstrap_step(pre: StoreContents, post: StoreContents, count: u64) -> bool {
    &&& post.counter == Some(count)
    &&& (pre.counter matches Some(c) ==> count == c)
    &&& (pre.counter is None ==> count == 0)
    &&& post.urls == pre.urls
    &&& post.events == pre.events
}

/// At most one initialization ever takes effect: after any bootstrap, a
/// further bootstrap observes the same count and writes nothing, so any
/// number of serialized bootstraps create exactly one counter row.
pub proof fn lemma_bootstrap_once(
    pre: StoreContents,
    mid: StoreContents,
    post: StoreContents,
    c1: u64,
    c2: u64,
)
    requires
        bootstrap_step(pre, mid, c1),
        bootstrap_step(mid, post, c2),
    ensures
        c2 == c1,
        post == mid,
{
}

/// The first record whose identifier equals `id`, scanning in insertion
/// order, if any record matches.
pub open spec fn url_lookup(urls: Seq<Url>, id: Seq<char>) -> Option<Url>
    decreases urls.len(),
{
    if urls.len() == 0 {
        None
    } else if urls[0].id@ == id {
        Some(urls[0])
    } else {
        url_lookup(urls.drop_first(), id)
    }
}

impl Store {
    /// A store with no counter row and no records.
    pub fn new() -> (s: Store)
        ensures
            s@.counter is None,
            s@.urls == Seq::<Url>::empty(),
            s@.events == Seq::<Analytics>::empty(),
    {
        Store { counter: None, urls: Vec::new(), events: Vec::new() }
    }

    /// The counter bootstrap: if no counter row exists, create one holding
    /// zero and return zero; otherwise return the stored count unchanged.
    pub fn read_or_init(&mut self) -> (count: u64)
        ensures
            bootstrap_step(old(self)@, final(self)@, count),
    {
        match self.counter {
            Some(c) => c,
            None => {
                self.counter = Some(0);
                0
            },
        }
    }

    /// The atomic counter increment: adds one to the stored count as a
    /// single store-side operation.
    pub fn increment_counter(&mut self) -> (r: Result<(), StoreError>)
        requires
            old(self)@.counter matches Some(c) && c < u64::MAX,
        ensures
            r is Ok,
            old(self)@.counter matches Some(c) ==> final(self)@.counter == Some((c + 1) as u64),
            final(self)@.urls == old(self)@.urls,
            final(self)@.events == old(self)@.events,
    {
        match self.counter {
            Some(c) => {
                self.counter = Some(c + 1);
                Ok(())
            },
            None => Err(StoreError::Unavailable),
        }
    }

    /// Appends one shortened-URL record.
    pub fn insert_url(&mut self, record: Url) -> (r: Result<(), StoreError>)
        ensures
            r is Ok,
            final(self)@.urls == old(self)@.urls.push(record),
            final(self)@.counter == old(self)@.counter,
            final(self)@.events == old(self)@.events,
    {
        self.urls.push(record);
        Ok(())
    }

    /// Looks a record up by its identifier: the first match in insertion
    /// order, or `None` when no record carries the identifier.
    pub fn find_url(&self, id: &String) -> (r: Option<Url>)
        ensures
            r == url_lookup(self@.urls, id@),
    {
        let n = self.urls.len();
        let mut i: usize = 0;
        proof {
            assert(self@.urls.subrange(0, n as int) =~= self@.urls);
        }
        while i < n
            invariant
                0 <= i <= n,
                n == self@.urls.len(),
                url_lookup(self@.urls, id@) == url_lookup(self@.urls.subrange(i as int, n as int), id@),
            decreases n - i,
        {
            if self.urls[i].id == *id {
                proof {
                    assert(self@.urls.subrange(i as int, n as int)[0] == self@.urls[i as int]);
                }
                return Some(self.urls[i].clone());
            }
            proof {
                assert(self@.urls.subrange(i as int, n as int)[0] == self@.urls[i as int]);
                assert(self@.urls.subrange(i as int, n as int).drop_first()
                    =~= self@.urls.subrange(i as int + 1, n as int));
            }
            i += 1;
        }
        proof {
            assert(self@.urls.subrange(n as int, n as int).len() == 0);
        }
        None
    }

    /// Appends one analytics event.
    pub fn insert_event(&mut self, event: Analytics) -> (r: Result<(), StoreError>)
        ensures
            r is Ok,
            final(self)@.events == old(self)@.events.push(event),
            final(self)@.counter == old(self)@.counter,
            final(self)@.urls == old(self)@.urls,
    {
        self.events.push(event);
        Ok(())
    }

    /// How many analytics events the store holds.
    pub fn event_len(&self) -> (n: usize)
        ensures
            n == self@.events.len(),
    {
        self.events.len()
    }

    /// The analytics event at one position, in insertion order.
    pub fn event_at(&self, i: usize) -> (e: &Analytics)
        requires
            i < self@.events.len(),
        ensures
            *e == self@.events[i as int],
    {
        &self.events[i]
    }
}

} // verus!
