//! The shortener service: it allocates identifiers from the counter,
//! persists the issued records, resolves identifiers back to URLs, and
//! rolls stored analytics events up into summaries.

use vstd::prelude::*;
use crate::analytics::{
    category_counts, category_of_event, classify_user_agent, find_header,
    lemma_category_counts_le, lemma_os_counts_le, matching_count, os_counts, os_of_event,
    user_agent_of, AnalyticResults, Analytics,
};
use crate::codec::{decoded_of, encode_value, encoded_of};
use crate::store::{url_lookup, Store, StoreError};
use crate::url::{link_prefix, Url};

verus! {

/// The record's identifier decodes back to the counter value `v`.
pub open spec fn decodes_to(u: Url, v: u64) -> bool {
    decoded_of(u.id@) == Some(seq![v])
}

/// The counter value a record's identifier decodes to.
pub open spec fn decoded_value(u: Url) -> u64 {
    choose|v: u64| decodes_to(u, v)
}

/// The service. It owns the in-process mirror of the counter value and
/// the handle to the record store; every issued record's identifier
/// decodes to the one counter value it was allocated from, and those
/// values never repeat, so no identifier is ever issued twice.
pub struct Shortener {
    id: u64,
    store: Store,
}

impl Shortener {
    /// The in-process mirror of the counter: the value the next record
    /// will be allocated from.
    pub closed spec fn next_local_id(&self) -> u64 {
        self.id
    }

    /// The issued records, in insertion order.
    pub closed spec fn stored_urls(&self) -> Seq<Url> {
        self.store@.urls
    }

    /// The captured analytics events, in insertion order.
    pub closed spec fn stored_events(&self) -> Seq<Analytics> {
        self.store@.events
    }

    /// The durable counter row.
    pub closed spec fn counter_row(&self) -> Option<u64> {
        self.store@.counter
    }

    /// The service invariant: the durable counter agrees with the
    /// in-process mirror, every stored record decodes to a counter value
    /// below the mirror, and no two records decode to the same value.
    pub open spec fn wf(&self) -> bool {
        &&& self.counter_row() == Some(self.next_local_id())
        &&& forall|j: int|
            0 <= j < self.stored_urls().len() ==> decodes_to(
                #[trigger] self.stored_urls()[j],
                decoded_value(self.stored_urls()[j]),
            )
        &&& forall|j: int|
            0 <= j < self.stored_urls().len() ==> decoded_value(#[trigger] self.stored_urls()[j])
                < self.next_local_id()
        &&& forall|j1: int, j2: int|
            0 <= j1 < j2 < self.stored_urls().len() ==> decoded_value(self.stored_urls()[j1])
                != decoded_value(self.stored_urls()[j2])
    }

    /// A service over a fresh store: the bootstrap finds no counter row,
    /// creates one holding zero, and starts the mirror there.
    pub fn new() -> (s: Shortener)
        ensures
            s.wf(),
            s.next_local_id() == 0,
            s.stored_urls().len() == 0,
            s.stored_events().len() == 0,
    {
        let mut store = Store::new();
        let id = store.read_or_init();
        Shortener { id, store }
    }

    /// The counter value the next identifier will be allocated from.
    pub fn current_counter(&self) -> (n: u64)
        ensures
            n == self.next_local_id(),
    {
        self.id
    }

    /// Allocates the next identifier: encodes the mirrored counter value,
    /// asks the store for the atomic increment, and advances the mirror
    /// only once the increment has succeeded.
    pub fn next_id(&mut self) -> (hashed: String)
        requires
            old(self).wf(),
            old(self).next_local_id() < u64::MAX,
        ensures
            final(self).wf(),
            hashed@ == encoded_of(old(self).next_local_id()),
            decoded_of(hashed@) == Some(seq![old(self).next_local_id()]),
            final(self).next_local_id() == old(self).next_local_id() + 1,
            final(self).stored_urls() == old(self).stored_urls(),
            final(self).stored_events() == old(self).stored_events(),
    {
        let hashed = encode_value(self.id);
        match self.store.increment_counter() {
            Ok(()) => {
                self.id = self.id + 1;
            },
            Err(_) => {},
        }
        proof {
            lemma_records_carry_over(old(self), self);
        }
        hashed
    }

    /// Shortens a URL: allocates an identifier, builds the record with
    /// the derived link, and persists it. The identifier decodes to the
    /// counter value it was allocated from, which no earlier or later
    /// record shares.
    pub fn shorten(&mut self, url: &str) -> (r: Result<Url, StoreError>)
        requires
            old(self).wf(),
            old(self).next_local_id() < u64::MAX,
        ensures
            final(self).wf(),
            final(self).next_local_id() == old(self).next_local_id() + 1,
            final(self).stored_events() == old(self).stored_events(),
            r matches Ok(rec) && {
                &&& rec.id@ == encoded_of(old(self).next_local_id())
                &&& decodes_to(rec, old(self).next_local_id())
                &&& rec.long_url@ == url@
                &&& rec.link@ == link_prefix() + rec.id@
                &&& !rec.archived
                &&& final(self).stored_urls() == old(self).stored_urls().push(rec)
            },
    {
        let ghost n0 = self.id;
        let hashed = self.next_id();
        let record = Url::new_record(hashed, url.to_owned());
        let stored = record.clone();
        match self.store.insert_url(stored) {
            Ok(()) => {},
            Err(_) => {},
        }
        proof {
            assert(decodes_to(record, n0));
            let v = decoded_value(record);
            assert(decodes_to(record, v));
            assert(seq![v][0] == v && seq![n0][0] == n0);
            assert(self.stored_urls() == old(self).stored_urls().push(record));
            assert(self.stored_urls().last() == record);
            assert(forall|j: int|
                0 <= j < old(self).stored_urls().len() ==> self.stored_urls()[j] == old(
                    self,
                ).stored_urls()[j]);
        }
        Ok(record)
    }

    /// Resolves an identifier: the original URL of the first record that
    /// carries it, or nothing when no record does.
    pub fn get_original_url(&self, id: String) -> (r: Option<String>)
        ensures
            match r {
                Some(u) => url_lookup(self.stored_urls(), id@) matches Some(rec)
                    && rec.long_url@ == u@,
                None => url_lookup(self.stored_urls(), id@) is None,
            },
    {
        match self.store.find_url(&id) {
            Some(rec) => Some(rec.long_url),
            None => None,
        }
    }

    /// Persists one captured analytics event. The outcome never reaches
    /// the caller of the redirect that triggered the capture.
    pub fn process_analytics(&mut self, analytics: Analytics)
        requires
            old(self).wf(),
        ensures
            final(self).wf(),
            final(self).stored_events() == old(self).stored_events().push(analytics),
            final(self).stored_urls() == old(self).stored_urls(),
            final(self).next_local_id() == old(self).next_local_id(),
    {
        match self.store.insert_event(analytics) {
            Ok(()) => {},
            Err(_) => {},
        }
        proof {
            lemma_records_carry_over(old(self), self);
        }
    }

    /// Rolls up the stored events for an identifier: every matching event
    /// is counted, and each one whose user-agent header is present and
    /// classifiable contributes to the device-category and
    /// operating-system tallies.
    pub fn get_analytics(&self, id: String) -> (r: AnalyticResults)
        ensures
            r.count as nat == matching_count(self.stored_events(), id@),
            r.devices@ == category_counts(self.stored_events(), id@),
            r.client_os@ == os_counts(self.stored_events(), id@),
            r.devices.wf(),
            r.client_os.wf(),
    {
        let ua_key: String = "User-Agent".to_owned();
        let mut results = AnalyticResults::new();
        let n = self.store.event_len();
        let mut i: usize = 0;
        proof {
            assert(self.stored_events().take(0) =~= Seq::<Analytics>::empty());
        }
        while i < n
            invariant
                0 <= i <= n,
                n == self.stored_events().len(),
                ua_key@ == "User-Agent"@,
                results.count <= i,
                results.count as nat == matching_count(self.stored_events().take(i as int), id@),
                results.devices@ == category_counts(self.stored_events().take(i as int), id@),
                results.client_os@ == os_counts(self.stored_events().take(i as int), id@),
                results.devices.wf(),
                results.client_os.wf(),
            decreases n - i,
        {
            let e = self.store.event_at(i);
            proof {
                assert(self.stored_events().take(i as int + 1).drop_last() =~= self.stored_events(
                ).take(i as int));
                assert(self.stored_events().take(i as int + 1).last() == self.stored_events()[i as int]);
            }
            if e.id == id {
                results.count = results.count + 1;
                match find_header(&e.headers, &ua_key) {
                    Some(ua) => {
                        match classify_user_agent(ua.as_str()) {
                            Some(pair) => {
                                proof {
                                    lemma_category_counts_le(
                                        self.stored_events().take(i as int),
                                        id@,
                                    );
                                    lemma_os_counts_le(self.stored_events().take(i as int), id@);
                                    assert(user_agent_of(self.stored_events()[i as int]) == Some(
                                        ua@,
                                    ));
                                    assert(category_of_event(self.stored_events()[i as int])
                                        == Some(pair.0@));
                                    assert(os_of_event(self.stored_events()[i as int]) == Some(
                                        pair.1@,
                                    ));
                                }
                                results.devices.bump(&pair.0);
                                results.client_os.bump(&pair.1);
                            },
                            None => {},
                        }
                    },
                    None => {},
                }
            }
            i += 1;
        }
        proof {
            assert(self.stored_events().take(n as int) =~= self.stored_events());
        }
        results
    }
}

/// When an operation leaves the records in place and does not lower the
/// counter mirror, the per-record invariant conditions carry over.
proof fn lemma_records_carry_over(pre: &Shortener, post: &Shortener)
    requires
        pre.wf(),
        post.stored_urls() =~= pre.stored_urls(),
        post.next_local_id() >= pre.next_local_id(),
    ensures
        forall|j: int|
            0 <= j < post.stored_urls().len() ==> decodes_to(
                #[trigger] post.stored_urls()[j],
                decoded_value(post.stored_urls()[j]),
            ),
        forall|j: int|
            0 <= j < post.stored_urls().len() ==> decoded_value(#[trigger] post.stored_urls()[j])
                < post.next_local_id(),
        forall|j1: int, j2: int|
            0 <= j1 < j2 < post.stored_urls().len() ==> decoded_value(post.stored_urls()[j1])
                != decoded_value(post.stored_urls()[j2]),
{
    assert forall|j: int|
        0 <= j < post.stored_urls().len() implies decodes_to(
        #[trigger] post.stored_urls()[j],
        decoded_value(post.stored_urls()[j]),
    ) && decoded_value(post.stored_urls()[j]) < post.next_local_id() by {
        assert(post.stored_urls()[j] == pre.stored_urls()[j]);
        assert(decodes_to(pre.stored_urls()[j], decoded_value(pre.stored_urls()[j])));
        assert(decoded_value(pre.stored_urls()[j]) < pre.next_local_id());
    }
    assert forall|j1: int, j2: int|
        0 <= j1 < j2 < post.stored_urls().len() implies decoded_value(post.stored_urls()[j1])
        != decoded_value(post.stored_urls()[j2]) by {
        assert(post.stored_urls()[j1] == pre.stored_urls()[j1]);
        assert(post.stored_urls()[j2] == pre.stored_urls()[j2]);
        assert(decoded_value(pre.stored_urls()[j1]) != decoded_value(pre.stored_urls()[j2]));
    }
}

/// Records made from different counter values carry different
/// identifiers: an identifier decodes to the one value it encodes.
pub proof fn lemma_distinct_values_distinct_ids(rec1: Url, rec2: Url, v1: u64, v2: u64)
    requires
        decodes_to(rec1, v1),
        decodes_to(rec2, v2),
        v1 != v2,
    ensures
        rec1.id@ != rec2.id@,
{
    if rec1.id@ == rec2.id@ {
        assert(seq![v1][0] == v1 && seq![v2][0] == v2);
    }
}

/// No two records held by a valid service carry the same identifier, so
/// successive shortenings never hand out the same identifier twice.
pub proof fn lemma_ids_distinct(s: &Shortener, j1: int, j2: int)
    requires
        s.wf(),
        0 <= j1 < s.stored_urls().len(),
        0 <= j2 < s.stored_urls().len(),
        j1 != j2,
    ensures
        s.stored_urls()[j1].id@ != s.stored_urls()[j2].id@,
{
    let u1 = s.stored_urls()[j1];
    let u2 = s.stored_urls()[j2];
    lemma_distinct_values_distinct_ids(u1, u2, decoded_value(u1), decoded_value(u2));
}

/// A lookup finds the record at `k` when its identifier matches and no
/// earlier record's does.
proof fn lemma_url_lookup_at(urls: Seq<Url>, id: Seq<char>, k: int)
    requires
        0 <= k < urls.len(),
        urls[k].id@ == id,
        forall|j: int| 0 <= j < k ==> urls[j].id@ != id,
    ensures
        url_lookup(urls, id) == Some(urls[k]),
    decreases urls.len(),
{
    if k > 0 {
        assert(forall|j: int| 0 <= j < k - 1 ==> urls.drop_first()[j].id@ != id);
        assert(urls.drop_first()[k - 1] == urls[k]);
        lemma_url_lookup_at(urls.drop_first(), id, k - 1);
    }
}

/// After a shorten, resolving the returned record's identifier finds
/// exactly that record, and so returns exactly the URL that was
/// shortened.
pub proof fn lemma_resolve_after_shorten(s: &Shortener, rec: Url)
    requires
        s.wf(),
        s.stored_urls().len() > 0,
        s.stored_urls().last() == rec,
    ensures
        url_lookup(s.stored_urls(), rec.id@) == Some(rec),
{
    let last = s.stored_urls().len() - 1;
    assert forall|j: int| 0 <= j < last implies s.stored_urls()[j].id@ != rec.id@ by {
        lemma_ids_distinct(s, j, last);
    }
    lemma_url_lookup_at(s.stored_urls(), rec.id@, last);
}

/// Resolving an identifier that no record carries finds nothing.
pub proof fn lemma_resolve_absent(urls: Seq<Url>, id: Seq<char>)
    requires
        forall|j: int| 0 <= j < urls.len() ==> urls[j].id@ != id,
    ensures
        url_lookup(urls, id) is None,
    decreases urls.len(),
{
    if urls.len() > 0 {
        assert(forall|j: int| 0 <= j < urls.drop_first().len() ==> urls.drop_first()[j].id@ != id);
        lemma_resolve_absent(urls.drop_first(), id);
    }
}

} // verus!
