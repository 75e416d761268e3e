//! Per-redirect analytics: the captured event, the user-agent
//! classification, and the rollup summary computed from stored events.

use vstd::prelude::*;

verus! {

/// What the external user-agent classifier assigns to a user-agent string:
/// a device-category label and an operating-system label, or `None` when
/// the string is unclassifiable.
pub uninterp spec fn classified_of(ua: Seq<char>) -> Option<(Seq<char>, Seq<char>)>;

/// Relies on `woothee::parser::Parser::parse`: the classification is a
/// pure lookup over the user-agent string, so the category and
/// operating-system labels depend on that string alone.
#[verifier::external_body]
pub(crate) fn classify_user_agent(ua: &str) -> (r: Option<(String, String)>)
    ensures
        match r {
            Some(p) => classified_of(ua@) == Some((p.0@, p.1@)),
            None => classified_of(ua@) is None,
        },
{
    match woothee::parser::Parser::new().parse(ua) {
        Some(res) => Some((res.category.to_string(), res.os.to_string())),
        None => None,
    }
}

/// One analytics event, captured on a successful redirect: the resolved
/// identifier, the request headers, the client address, and the capture
/// time.
pub struct Analytics {
    pub id: String,
    pub headers: Vec<(String, String)>,
    pub ip: String,
    pub time: i64,
}

impl Analytics {
    /// A new event stamped with the current clock reading.
    pub fn new(id: String, headers: Vec<(String, String)>, ip: String) -> (r: Analytics)
        ensures
            r.id@ == id@,
            r.headers@ == headers@,
            r.ip@ == ip@,
    {
        Analytics { id, headers, ip, time: crate::clock::now_timestamp_millis() }
    }
}

/// The value of the first header with the given name, if any.
pub open spec fn header_value(headers: Seq<(String, String)>, name: Seq<char>) -> Option<Seq<char>>
    decreases headers.len(),
{
    if headers.len() == 0 {
        None
    } else if headers[0].0@ == name {
        Some(headers[0].1@)
    } else {
        header_value(headers.drop_first(), name)
    }
}

/// The user-agent string an event carries, if any.
pub open spec fn user_agent_of(e: Analytics) -> Option<Seq<char>> {
    header_value(e.headers@, "User-Agent"@)
}

/// The device category of an event: the classification of its user-agent
/// header, when the header is present and classifiable.
pub open spec fn category_of_event(e: Analytics) -> Option<Seq<char>> {
    match user_agent_of(e) {
        None => None,
        Some(ua) => match classified_of(ua) {
            None => None,
            Some(p) => Some(p.0),
        },
    }
}

/// The operating-system label of an event, under the same conditions.
pub open spec fn os_of_event(e: Analytics) -> Option<Seq<char>> {
    match user_agent_of(e) {
        None => None,
        Some(ua) => match classified_of(ua) {
            None => None,
            Some(p) => Some(p.1),
        },
    }
}

/// Finds the first header with the given name, scanning in order.
pub(crate) fn find_header<'a>(headers: &'a Vec<(String, String)>, name: &String) -> (r: Option<
    &'a String,
>)
    ensures
        match r {
            Some(v) => header_value(headers@, name@) == Some(v@),
            None => header_value(headers@, name@) is None,
        },
{
    let n = headers.len();
    let mut i: usize = 0;
    proof {
        assert(headers@.subrange(0, n as int) =~= headers@);
    }
    while i < n
        invariant
            0 <= i <= n,
            n == headers@.len(),
            header_value(headers@, name@) == header_value(
                headers@.subrange(i as int, n as int),
                name@,
            ),
        decreases n - i,
    {
        proof {
            assert(headers@.subrange(i as int, n as int)[0] == headers@[i as int]);
        }
        if headers[i].0 == *name {
            return Some(&headers[i].1);
        }
        proof {
            assert(headers@.subrange(i as int, n as int).drop_first() =~= headers@.subrange(
                i as int + 1,
                n as int,
            ));
        }
        i += 1;
    }
    None
}

/// The count a label has in a tally, zero when the label is absent.
pub open spec fn count_or_zero(m: Map<Seq<char>, nat>, k: Seq<char>) -> nat {
    if m.contains_key(k) {
        m[k]
    } else {
        0
    }
}

/// The tally with one more occurrence of a label.
pub open spec fn bump_count(m: Map<Seq<char>, nat>, k: Seq<char>) -> Map<Seq<char>, nat> {
    m.insert(k, count_or_zero(m, k) + 1)
}

/// How many events carry the given identifier.
pub open spec fn matching_count(events: Seq<Analytics>, id: Seq<char>) -> nat
    decreases events.len(),
{
    if events.len() == 0 {
        0
    } else {
        matching_count(events.drop_last(), id) + if events.last().id@ == id {
            1nat
        } else {
            0nat
        }
    }
}

/// The device-category tally over the events carrying the given
/// identifier: one occurrence per event whose user-agent is classifiable.
pub open spec fn category_counts(events: Seq<Analytics>, id: Seq<char>) -> Map<Seq<char>, nat>
    decreases events.len(),
{
    if events.len() == 0 {
        Map::empty()
    } else {
        let m = category_counts(events.drop_last(), id);
        if events.last().id@ == id {
            match category_of_event(events.last()) {
                Some(c) => bump_count(m, c),
                None => m,
            }
        } else {
            m
        }
    }
}

/// The operating-system tally over the same events.
pub open spec fn os_counts(events: Seq<Analytics>, id: Seq<char>) -> Map<Seq<char>, nat>
    decreases events.len(),
{
    if events.len() == 0 {
        Map::empty()
    } else {
        let m = os_counts(events.drop_last(), id);
        if events.last().id@ == id {
            match os_of_event(events.last()) {
                Some(c) => bump_count(m, c),
                None => m,
            }
        } else {
            m
        }
    }
}

/// An exact tally of labels, viewed as a map from label to count.
pub struct CountMap {
    entries: Vec<(String, u64)>,
}

/// The map a list of labelled counts stands for, later entries taking
/// precedence.
pub open spec fn map_of(entries: Seq<(String, u64)>) -> Map<Seq<char>, nat>
    decreases entries.len(),
{
    if entries.len() == 0 {
        Map::empty()
    } else {
        map_of(entries.drop_last()).insert(entries.last().0@, entries.last().1 as nat)
    }
}

impl View for CountMap {
    type V = Map<Seq<char>, nat>;

    closed spec fn view(&self) -> Map<Seq<char>, nat> {
        map_of(self.entries@)
    }
}

impl CountMap {
    /// Each label appears in at most one entry.
    pub closed spec fn wf(&self) -> bool {
        forall|i: int, j: int|
            0 <= i < j < self.entries@.len() ==> self.entries@[i].0@ != self.entries@[j].0@
    }

    /// An empty tally.
    pub fn new() -> (r: CountMap)
        ensures
            r@ == Map::<Seq<char>, nat>::empty(),
            r.wf(),
    {
        CountMap { entries: Vec::new() }
    }

    /// The position of the entry holding a label, if one does.
    fn find_index(&self, key: &String) -> (r: Option<usize>)
        ensures
            match r {
                Some(i) => i < self.entries@.len() && self.entries@[i as int].0@ == key@,
                None => forall|j: int| 0 <= j < self.entries@.len() ==> self.entries@[j].0@ != key@,
            },
    {
        let n = self.entries.len();
        let mut i: usize = 0;
        while i < n
            invariant
                0 <= i <= n,
                n == self.entries@.len(),
                forall|j: int| 0 <= j < i ==> self.entries@[j].0@ != key@,
            decreases n - i,
        {
            if self.entries[i].0 == *key {
                return Some(i);
            }
            i += 1;
        }
        None
    }

    /// The count recorded for a label, or `None` when the label is absent.
    pub fn get(&self, key: &String) -> (r: Option<u64>)
        requires
            self.wf(),
        ensures
            match r {
                Some(v) => self@.contains_key(key@) && self@[key@] == v as nat,
                None => !self@.contains_key(key@),
            },
    {
        match self.find_index(key) {
            Some(i) => {
                proof {
                    lemma_map_of_found(self.entries@, i as int);
                }
                Some(self.entries[i].1)
            },
            None => {
                proof {
                    lemma_map_of_absent(self.entries@, key@);
                }
                None
            },
        }
    }

    /// How many distinct labels the tally holds.
    pub fn len(&self) -> (n: usize)
        requires
            self.wf(),
        ensures
            n == self@.dom().len(),
    {
        proof {
            lemma_map_of_dom_len(self.entries@);
        }
        self.entries.len()
    }

    /// The labelled count at one position, for walking the tally.
    pub fn pair_at(&self, i: usize) -> (p: &(String, u64))
        requires
            self.wf(),
            i < self@.dom().len(),
        ensures
            self@.contains_key(p.0@),
            self@[p.0@] == p.1 as nat,
    {
        proof {
            lemma_map_of_dom_len(self.entries@);
            lemma_map_of_found(self.entries@, i as int);
        }
        &self.entries[i]
    }

    /// Records one more occurrence of a label.
    pub fn bump(&mut self, key: &String)
        requires
            old(self).wf(),
            count_or_zero(old(self)@, key@) < u64::MAX,
        ensures
            final(self).wf(),
            final(self)@ == bump_count(old(self)@, key@),
    {
        match self.find_index(key) {
            Some(i) => {
                proof {
                    lemma_map_of_found(self.entries@, i as int);
                }
                let v = self.entries[i].1;
                let label = self.entries[i].0.clone();
                self.entries.set(i, (label, v + 1));
                proof {
                    assert(forall|k: int|
                        0 <= k < self.entries@.len() ==> self.entries@[k].0@ == old(
                            self,
                        ).entries@[k].0@);
                    lemma_map_of_update(old(self).entries@, self.entries@, i as int);
                    assert(self@ =~= bump_count(old(self)@, key@));
                }
            },
            None => {
                proof {
                    lemma_map_of_absent(self.entries@, key@);
                }
                self.entries.push((key.clone(), 1));
                proof {
                    assert(self.entries@.drop_last() =~= old(self).entries@);
                    assert(self@ =~= bump_count(old(self)@, key@));
                }
            },
        }
    }
}

/// When entry `i` holds a label that no later entry repeats, the map gives
/// that entry's count for the label.
proof fn lemma_map_of_found(entries: Seq<(String, u64)>, i: int)
    requires
        0 <= i < entries.len(),
        forall|j: int| i < j < entries.len() ==> entries[j].0@ != entries[i].0@,
    ensures
        map_of(entries).contains_key(entries[i].0@),
        map_of(entries)[entries[i].0@] == entries[i].1 as nat,
    decreases entries.len(),
{
    if i + 1 < entries.len() {
        assert(entries.drop_last()[i] == entries[i]);
        lemma_map_of_found(entries.drop_last(), i);
    }
}

/// A label held by no entry is absent from the map.
proof fn lemma_map_of_absent(entries: Seq<(String, u64)>, key: Seq<char>)
    requires
        forall|j: int| 0 <= j < entries.len() ==> entries[j].0@ != key,
    ensures
        !map_of(entries).contains_key(key),
    decreases entries.len(),
{
    if entries.len() > 0 {
        lemma_map_of_absent(entries.drop_last(), key);
    }
}

/// With distinct labels, every entry's label is in the map's domain and
/// the domain is exactly as large as the entry list.
proof fn lemma_map_of_dom_len(entries: Seq<(String, u64)>)
    requires
        forall|i: int, j: int| 0 <= i < j < entries.len() ==> entries[i].0@ != entries[j].0@,
    ensures
        map_of(entries).dom().finite(),
        map_of(entries).dom().len() == entries.len(),
    decreases entries.len(),
{
    if entries.len() > 0 {
        lemma_map_of_dom_len(entries.drop_last());
        lemma_map_of_absent(entries.drop_last(), entries.last().0@);
    }
}

/// Replacing entry `i` by the same label with a new count updates the map
/// at that label alone, provided the labels are distinct.
proof fn lemma_map_of_update(before: Seq<(String, u64)>, after: Seq<(String, u64)>, i: int)
    requires
        0 <= i < before.len(),
        after.len() == before.len(),
        after[i].0@ == before[i].0@,
        forall|j: int| 0 <= j < before.len() && j != i ==> after[j] == before[j],
        forall|j1: int, j2: int| 0 <= j1 < j2 < before.len() ==> before[j1].0@ != before[j2].0@,
    ensures
        map_of(after) =~= map_of(before).insert(before[i].0@, after[i].1 as nat),
    decreases before.len(),
{
    if i == before.len() - 1 {
        assert(after.drop_last() =~= before.drop_last());
    } else {
        assert(after.drop_last()[i] == after[i]);
        assert(before.drop_last()[i] == before[i]);
        assert(forall|j1: int, j2: int|
            0 <= j1 < j2 < before.drop_last().len() ==> before.drop_last()[j1].0@
                != before.drop_last()[j2].0@);
        lemma_map_of_update(before.drop_last(), after.drop_last(), i);
        assert(after.last() == before.last());
        assert(before[i].0@ != before.last().0@);
        assert(map_of(after) =~= map_of(before).insert(before[i].0@, after[i].1 as nat));
    }
}

/// No category is ever counted more often than there are events.
pub(crate) proof fn lemma_category_counts_le(events: Seq<Analytics>, id: Seq<char>)
    ensures
        forall|k: Seq<char>| #[trigger]
            count_or_zero(category_counts(events, id), k) <= events.len(),
    decreases events.len(),
{
    if events.len() > 0 {
        lemma_category_counts_le(events.drop_last(), id);
        assert forall|k: Seq<char>| #[trigger]
            count_or_zero(category_counts(events, id), k) <= events.len() by {
            assert(count_or_zero(category_counts(events.drop_last(), id), k)
                <= events.drop_last().len());
        }
    }
}

/// No operating system is ever counted more often than there are events.
pub(crate) proof fn lemma_os_counts_le(events: Seq<Analytics>, id: Seq<char>)
    ensures
        forall|k: Seq<char>| #[trigger] count_or_zero(os_counts(events, id), k) <= events.len(),
    decreases events.len(),
{
    if events.len() > 0 {
        lemma_os_counts_le(events.drop_last(), id);
        assert forall|k: Seq<char>| #[trigger]
            count_or_zero(os_counts(events, id), k) <= events.len() by {
            assert(count_or_zero(os_counts(events.drop_last(), id), k)
                <= events.drop_last().len());
        }
    }
}

/// An identifier with no events rolls up to a zero count and empty
/// tallies.
pub proof fn lemma_counts_no_matching(events: Seq<Analytics>, id: Seq<char>)
    requires
        forall|j: int| 0 <= j < events.len() ==> events[j].id@ != id,
    ensures
        matching_count(events, id) == 0,
        category_counts(events, id) == Map::<Seq<char>, nat>::empty(),
        os_counts(events, id) == Map::<Seq<char>, nat>::empty(),
    decreases events.len(),
{
    if events.len() > 0 {
        assert(events.last().id@ != id);
        assert(forall|j: int|
            0 <= j < events.drop_last().len() ==> events.drop_last()[j].id@ != id);
        lemma_counts_no_matching(events.drop_last(), id);
    }
}

/// The rollup returned for an identifier: how many events it has, and the
/// operating-system and device-category tallies over them.
pub struct AnalyticResults {
    pub count: u64,
    pub client_os: CountMap,
    pub devices: CountMap,
}

impl AnalyticResults {
    /// An all-zero rollup.
    pub fn new() -> (r: AnalyticResults)
        ensures
            r.count == 0,
            r.client_os@ == Map::<Seq<char>, nat>::empty(),
            r.devices@ == Map::<Seq<char>, nat>::empty(),
            r.client_os.wf(),
            r.devices.wf(),
    {
        AnalyticResults { count: 0, client_os: CountMap::new(), devices: CountMap::new() }
    }
}

} // verus!
