use indexmap::IndexMap;
use vstd::prelude::*;

use crate::ids::RequestId;

verus! {

/// Order in which queued requests are served.
#[derive(Debug, Clone, Copy, PartialEq, Eq, Structural)]
pub enum SchedulingPolicy {
    FCFS,
    Priority,
}

/// What the queue keeps of one request: its id, its priority and its arrival
/// time in nanoseconds on the process's monotonic clock.
pub type Entry = (RequestId, i32, u64);

/// `indexmap::IndexMap`, the insertion-ordered hash map.
#[verifier::external_type_specification]
#[verifier::external_body]
#[verifier::reject_recursive_types(K)]
#[verifier::reject_recursive_types(V)]
#[verifier::reject_recursive_types(S)]
pub struct ExIndexMap<K, V, S>(indexmap::IndexMap<K, V, S>);

/// The entries of an index map, in the map's own order.
pub uninterp spec fn entries_of(entries: IndexMap<RequestId, (i32, u64)>) -> Seq<Entry>;

/// Some entry of `s` has the id `id`.
pub open spec fn has_id(s: Seq<Entry>, id: RequestId) -> bool {
    exists|i: int| 0 <= i < s.len() && (#[trigger] s[i]).0 == id
}

/// No id occurs twice.
pub open spec fn distinct_ids(s: Seq<Entry>) -> bool {
    forall|i: int, j: int| 0 <= i < j < s.len() ==> (#[trigger] s[i]).0 != (#[trigger] s[j]).0
}

/// `s` with `e` in the place of the entry of the same id, or at the end where
/// there is none.
pub open spec fn upsert(s: Seq<Entry>, e: Entry) -> Seq<Entry> {
    if has_id(s, e.0) {
        Seq::new(s.len(), |i: int| if s[i].0 == e.0 { e } else { s[i] })
    } else {
        s.push(e)
    }
}

/// `s` without the entry of the given id, the others in their order.
pub open spec fn without(s: Seq<Entry>, id: RequestId) -> Seq<Entry> {
    s.filter(|e: Entry| e.0 != id)
}

/// The ids of the entries, in order.
pub open spec fn ids_of(s: Seq<Entry>) -> Seq<RequestId> {
    Seq::new(s.len(), |i: int| s[i].0)
}

/// `a` is served strictly before `b`: a higher priority, or the same priority
/// and an earlier arrival.
pub open spec fn ahead(a: Entry, b: Entry) -> bool {
    a.1 > b.1 || (a.1 == b.1 && a.2 < b.2)
}

/// `s` with `e` placed behind every entry that `e` is not ahead of.
pub open spec fn insert_in_order(s: Seq<Entry>, e: Entry) -> Seq<Entry>
    decreases s.len(),
{
    if s.len() > 0 && ahead(e, s.last()) {
        insert_in_order(s.drop_last(), e).push(s.last())
    } else {
        s.push(e)
    }
}

/// The stable sort of `s` by priority, then arrival.
pub open spec fn priority_order(s: Seq<Entry>) -> Seq<Entry>
    decreases s.len(),
{
    if s.len() == 0 {
        s
    } else {
        insert_in_order(priority_order(s.drop_last()), s.last())
    }
}

/// No entry stands behind one that it is ahead of.
pub open spec fn in_priority_order(s: Seq<Entry>) -> bool {
    forall|i: int, j: int| 0 <= i < j < s.len() ==> !ahead(#[trigger] s[j], #[trigger] s[i])
}

/// `IndexMap::new`: an empty map.
#[verifier::external_body]
fn new_entries() -> (entries: IndexMap<RequestId, (i32, u64)>)
    ensures
        entries_of(entries) == Seq::<Entry>::empty(),
{
    IndexMap::new()
}

/// `IndexMap::insert`: an equal key keeps its place and gets the new value;
/// a new key goes last.
#[verifier::external_body]
fn insert_entry(entries: &mut IndexMap<RequestId, (i32, u64)>, entry: Entry)
    ensures
        entries_of(*final(entries)) == upsert(entries_of(*old(entries)), entry),
{
    entries.insert(entry.0, (entry.1, entry.2));
}

/// `IndexMap::shift_remove`: takes the pair of the key out, if there is one,
/// and keeps the order of the others.
#[verifier::external_body]
fn shift_remove(entries: &mut IndexMap<RequestId, (i32, u64)>, id: RequestId) -> (removed: Option<
    (i32, u64),
>)
    ensures
        entries_of(*final(entries)) == without(entries_of(*old(entries)), id),
        removed is Some <==> has_id(entries_of(*old(entries)), id),
{
    entries.shift_remove(&id)
}

/// `IndexMap::shift_remove_index`: takes out the pair at `index`, `None` where
/// the map is not that long.
#[verifier::external_body]
fn shift_remove_index(entries: &mut IndexMap<RequestId, (i32, u64)>, index: usize) -> (removed:
    Option<(RequestId, (i32, u64))>)
    ensures
        index < entries_of(*old(entries)).len() ==> {
            let taken = entries_of(*old(entries))[index as int];
            &&& removed == Some((taken.0, (taken.1, taken.2)))
            &&& entries_of(*final(entries)) == entries_of(*old(entries)).remove(index as int)
        },
        index >= entries_of(*old(entries)).len() ==> removed is None && entries_of(*final(entries))
            == entries_of(*old(entries)),
{
    entries.shift_remove_index(index)
}

/// `IndexMap::get_index`: the pair at `index`, `None` where the map is not that
/// long.
#[verifier::external_body]
fn get_index(entries: &IndexMap<RequestId, (i32, u64)>, index: usize) -> (found: Option<Entry>)
    ensures
        found == if index < entries_of(*entries).len() {
            Some(entries_of(*entries)[index as int])
        } else {
            None
        },
{
    entries.get_index(index).map(|(id, value)| (*id, value.0, value.1))
}

/// `IndexMap::get`: the value of the key, `None` where the map lacks it.
#[verifier::external_body]
fn get_value(entries: &IndexMap<RequestId, (i32, u64)>, id: RequestId) -> (found: Option<
    (i32, u64),
>)
    ensures
        found is Some <==> has_id(entries_of(*entries), id),
        found matches Some(value) ==> entries_of(*entries).contains((id, value.0, value.1)),
{
    entries.get(&id).copied()
}

/// `IndexMap::contains_key`.
#[verifier::external_body]
fn contains_key(entries: &IndexMap<RequestId, (i32, u64)>, id: RequestId) -> (found: bool)
    ensures
        found == has_id(entries_of(*entries), id),
{
    entries.contains_key(&id)
}

/// `IndexMap::len`.
#[verifier::external_body]
fn entry_count(entries: &IndexMap<RequestId, (i32, u64)>) -> (len: usize)
    ensures
        len == entries_of(*entries).len(),
{
    entries.len()
}

/// `IndexMap::keys`: the keys in the map's order.
#[verifier::external_body]
fn keys(entries: &IndexMap<RequestId, (i32, u64)>) -> (ids: Vec<RequestId>)
    ensures
        ids@ == ids_of(entries_of(*entries)),
{
    entries.keys().copied().collect()
}

/// `IndexMap::drain` over the full range: hands out all pairs in order and
/// leaves the map empty.
#[verifier::external_body]
fn drain_all(entries: &mut IndexMap<RequestId, (i32, u64)>) -> (taken: Vec<Entry>)
    ensures
        taken@ == entries_of(*old(entries)),
        entries_of(*final(entries)) == Seq::<Entry>::empty(),
{
    entries.drain(..).map(|(id, value)| (id, value.0, value.1)).collect()
}

/// Ordered request queue for first-come-first-served and priority scheduling.
///
/// Under `FCFS` requests keep the order in which they came. Under `Priority`
/// they stand by priority, highest first, and by arrival among equals.
#[derive(Debug)]
pub struct RequestQueue {
    entries: IndexMap<RequestId, (i32, u64)>,
    policy: SchedulingPolicy,
}

impl RequestQueue {
    /// The queued entries, front first.
    pub closed spec fn view(&self) -> Seq<Entry> {
        entries_of(self.entries)
    }

    pub closed spec fn spec_policy(&self) -> SchedulingPolicy {
        self.policy
    }

    /// Ids are distinct, and a priority queue is in priority order.
    pub open spec fn wf(&self) -> bool {
        &&& distinct_ids(self@)
        &&& self.spec_policy() is Priority ==> in_priority_order(self@)
    }

    pub fn new(policy: SchedulingPolicy) -> (queue: Self)
        ensures
            queue.wf(),
            queue@ == Seq::<Entry>::empty(),
            queue.spec_policy() == policy,
    {
        RequestQueue { entries: new_entries(), policy }
    }

    pub fn policy(&self) -> (policy: SchedulingPolicy)
        ensures
            policy == self.spec_policy(),
    {
        self.policy
    }

    /// Put a request into the queue.
    ///
    /// Under `FCFS` it goes last; under `Priority` to its place in the order.
    /// A request that is queued already gets the new priority and arrival.
    pub fn push(&mut self, request_id: RequestId, priority: i32, arrival_time: u64)
        requires
            old(self).wf(),
        ensures
            final(self).wf(),
            final(self).spec_policy() == old(self).spec_policy(),
            final(self)@ == pushed(
                old(self)@,
                (request_id, priority, arrival_time),
                old(self).spec_policy(),
            ),
    {
        let entry: Entry = (request_id, priority, arrival_time);
        proof {
            lemma_upsert_distinct(self@, entry);
        }
        insert_entry(&mut self.entries, entry);
        if self.policy == SchedulingPolicy::Priority {
            self.sort_by_priority();
        }
    }

    /// Take the request to schedule next: the front of the queue.
    pub fn pop(&mut self) -> (front: Option<RequestId>)
        requires
            old(self).wf(),
        ensures
            final(self).wf(),
            final(self).spec_policy() == old(self).spec_policy(),
            old(self)@.len() == 0 ==> front is None && final(self)@ == old(self)@,
            old(self)@.len() > 0 ==> front == Some(old(self)@[0].0) && final(self)@
                == old(self)@.skip(1),
    {
        assert(self@.len() > 0 ==> self@.remove(0) =~= self@.skip(1));
        match shift_remove_index(&mut self.entries, 0) {
            Some(pair) => Some(pair.0),
            None => None,
        }
    }

    /// The request at the front, which stays in the queue.
    pub fn peek(&self) -> (front: Option<RequestId>)
        ensures
            front == if self@.len() > 0 {
                Some(self@[0].0)
            } else {
                None
            },
    {
        match get_index(&self.entries, 0) {
            Some(entry) => Some(entry.0),
            None => None,
        }
    }

    /// Remove a request. The others keep their order.
    pub fn remove(&mut self, request_id: RequestId) -> (found: bool)
        requires
            old(self).wf(),
        ensures
            final(self).wf(),
            final(self).spec_policy() == old(self).spec_policy(),
            final(self)@ == without(old(self)@, request_id),
            found == has_id(old(self)@, request_id),
    {
        proof {
            lemma_without(self@, request_id);
        }
        shift_remove(&mut self.entries, request_id).is_some()
    }

    /// Take one request out, and keep the order of the rest of the queue.
    pub fn pop_request(&mut self, request_id: RequestId) -> (taken: Option<RequestId>)
        requires
            old(self).wf(),
        ensures
            final(self).wf(),
            final(self).spec_policy() == old(self).spec_policy(),
            final(self)@ == without(old(self)@, request_id),
            taken == if has_id(old(self)@, request_id) {
                Some(request_id)
            } else {
                None
            },
    {
        if self.remove(request_id) {
            Some(request_id)
        } else {
            None
        }
    }

    pub fn len(&self) -> (len: usize)
        ensures
            len == self@.len(),
    {
        entry_count(&self.entries)
    }

    pub fn is_empty(&self) -> (empty: bool)
        ensures
            empty == (self@.len() == 0),
    {
        entry_count(&self.entries) == 0
    }

    /// The queued request ids, front first.
    pub fn iter(&self) -> (ids: Vec<RequestId>)
        ensures
            ids@ == ids_of(self@),
    {
        keys(&self.entries)
    }

    pub fn contains(&self, request_id: RequestId) -> (found: bool)
        ensures
            found == has_id(self@, request_id),
    {
        contains_key(&self.entries, request_id)
    }

    /// The priority of a queued request.
    pub fn priority_of(&self, request_id: RequestId) -> (priority: Option<i32>)
        requires
            self.wf(),
        ensures
            priority is Some <==> has_id(self@, request_id),
            forall|i: int|
                0 <= i < self@.len() && (#[trigger] self@[i]).0 == request_id ==> priority == Some(
                    self@[i].1,
                ),
    {
        match get_value(&self.entries, request_id) {
            Some(value) => Some(value.0),
            None => None,
        }
    }

    /// Sort by priority, highest first, then by arrival, earliest first.
    fn sort_by_priority(&mut self)
        requires
            distinct_ids(old(self)@),
        ensures
            distinct_ids(final(self)@),
            in_priority_order(final(self)@),
            final(self).spec_policy() == old(self).spec_policy(),
            final(self)@ == priority_order(old(self)@),
    {
        let taken: Vec<Entry> = drain_all(&mut self.entries);
        let sorted: Vec<Entry> = stable_sort(&taken);
        proof {
            lemma_priority_order(taken@);
        }
        let mut i: usize = 0;
        while i < sorted.len()
            invariant
                i <= sorted.len(),
                distinct_ids(sorted@),
                self.spec_policy() == old(self).spec_policy(),
                self@ == sorted@.take(i as int),
            decreases sorted.len() - i,
        {
            assert(!has_id(self@, sorted@[i as int].0));
            insert_entry(&mut self.entries, sorted[i]);
            i = i + 1;
            assert(self@ =~= sorted@.take(i as int));
        }
        assert(sorted@.take(i as int) =~= sorted@);
    }
}

/// What a push makes of the queued entries.
pub open spec fn pushed(s: Seq<Entry>, e: Entry, policy: SchedulingPolicy) -> Seq<Entry> {
    match policy {
        SchedulingPolicy::FCFS => upsert(s, e),
        SchedulingPolicy::Priority => priority_order(upsert(s, e)),
    }
}

/// Stable insertion sort into serving order.
fn stable_sort(entries: &Vec<Entry>) -> (sorted: Vec<Entry>)
    ensures
        sorted@ == priority_order(entries@),
{
    let mut sorted: Vec<Entry> = Vec::new();
    let mut i: usize = 0;
    assert(entries@.take(0) =~= Seq::<Entry>::empty());
    while i < entries.len()
        invariant
            i <= entries.len(),
            sorted@ == priority_order(entries@.take(i as int)),
        decreases entries.len() - i,
    {
        let e: Entry = entries[i];
        let mut j: usize = sorted.len();
        while j > 0 && (e.1 > sorted[j - 1].1 || (e.1 == sorted[j - 1].1 && e.2 < sorted[j - 1].2))
            invariant
                j <= sorted.len(),
                forall|k: int| j <= k < sorted.len() ==> ahead(e, #[trigger] sorted@[k]),
            decreases j,
        {
            j = j - 1;
        }
        proof {
            lemma_insert_position(sorted@, e, j as int);
            assert(entries@.take(i as int + 1).drop_last() =~= entries@.take(i as int));
        }
        sorted.insert(j, e);
        i = i + 1;
    }
    assert(entries@.take(i as int) =~= entries@);
    sorted
}

proof fn lemma_insert_position(s: Seq<Entry>, e: Entry, j: int)
    requires
        0 <= j <= s.len(),
        forall|k: int| j <= k < s.len() ==> ahead(e, #[trigger] s[k]),
        j > 0 ==> !ahead(e, s[j - 1]),
    ensures
        insert_in_order(s, e) == s.insert(j, e),
    decreases s.len(),
{
    if j < s.len() {
        lemma_insert_position(s.drop_last(), e, j);
        assert(s.drop_last().insert(j, e).push(s.last()) =~= s.insert(j, e));
    } else {
        assert(s.insert(j, e) =~= s.push(e));
    }
}

proof fn lemma_upsert_distinct(s: Seq<Entry>, e: Entry)
    requires
        distinct_ids(s),
    ensures
        distinct_ids(upsert(s, e)),
{
}

proof fn lemma_insert_in_order(s: Seq<Entry>, e: Entry)
    ensures
        insert_in_order(s, e).len() == s.len() + 1,
        insert_in_order(s, e).to_multiset() == s.to_multiset().insert(e),
        in_priority_order(s) ==> in_priority_order(insert_in_order(s, e)),
        forall|i: int|
            0 <= i < insert_in_order(s, e).len() ==> #[trigger] insert_in_order(s, e)[i] == e
                || s.contains(insert_in_order(s, e)[i]),
    decreases s.len(),
{
    broadcast use vstd::seq_lib::group_to_multiset_ensures;

    if s.len() > 0 && ahead(e, s.last()) {
        let front = s.drop_last();
        lemma_insert_in_order(front, e);
        let r = insert_in_order(front, e);
        assert(front.push(s.last()) =~= s);
        assert(s.to_multiset() =~= front.to_multiset().insert(s.last()));
        assert(insert_in_order(s, e).to_multiset() =~= r.to_multiset().insert(s.last()));
        assert(front.to_multiset().insert(e).insert(s.last()) =~= front.to_multiset().insert(
            s.last(),
        ).insert(e));
        assert forall|i: int| 0 <= i < insert_in_order(s, e).len() implies #[trigger] insert_in_order(
            s,
            e,
        )[i] == e || s.contains(insert_in_order(s, e)[i]) by {
            if i < r.len() {
                assert(r[i] == e || front.contains(r[i]));
                if front.contains(r[i]) {
                    let k = choose|k: int| 0 <= k < front.len() && front[k] == r[i];
                    assert(s[k] == r[i]);
                }
            } else {
                assert(s[s.len() - 1] == s.last());
            }
        }
        if in_priority_order(s) {
            assert(in_priority_order(front));
            assert forall|i: int, j: int| 0 <= i < j < insert_in_order(s, e).len() implies !ahead(
                #[trigger] insert_in_order(s, e)[j],
                #[trigger] insert_in_order(s, e)[i],
            ) by {
                if j == r.len() {
                    assert(r[i] == e || front.contains(r[i]));
                    if front.contains(r[i]) {
                        let k = choose|k: int| 0 <= k < front.len() && front[k] == r[i];
                        assert(s[k] == r[i]);
                    }
                }
            }
        }
    } else {
        assert(insert_in_order(s, e) == s.push(e));
        assert(s.push(e).to_multiset() =~= s.to_multiset().insert(e));
        assert forall|i: int| 0 <= i < s.push(e).len() implies #[trigger] s.push(e)[i] == e
            || s.contains(s.push(e)[i]) by {
            if i < s.len() {
                assert(s[i] == s.push(e)[i]);
            }
        }
        if in_priority_order(s) && s.len() > 0 {
            assert forall|i: int| 0 <= i < s.len() implies !ahead(e, #[trigger] s[i]) by {
                if i < s.len() - 1 {
                    assert(!ahead(s[s.len() - 1], s[i]));
                }
            }
        }
    }
}

/// Priority order is a permutation of the queue, and leaves no request behind
/// one that it is ahead of. Distinct ids stay distinct.
pub proof fn lemma_priority_order(s: Seq<Entry>)
    ensures
        priority_order(s).len() == s.len(),
        priority_order(s).to_multiset() == s.to_multiset(),
        in_priority_order(priority_order(s)),
        distinct_ids(s) ==> distinct_ids(priority_order(s)),
        forall|id: RequestId| has_id(priority_order(s), id) <==> #[trigger] has_id(s, id),
    decreases s.len(),
{
    broadcast use vstd::seq_lib::group_to_multiset_ensures;

    if s.len() > 0 {
        lemma_priority_order(s.drop_last());
        lemma_insert_in_order(priority_order(s.drop_last()), s.last());
        assert(s.drop_last().push(s.last()) =~= s);
        assert(s.to_multiset() =~= s.drop_last().to_multiset().insert(s.last()));
    }
    assert forall|id: RequestId| has_id(priority_order(s), id) <==> #[trigger] has_id(s, id) by {
        if has_id(s, id) {
            let i = choose|i: int| 0 <= i < s.len() && (#[trigger] s[i]).0 == id;
            assert(s.contains(s[i]));
            assert(s.to_multiset().count(s[i]) > 0);
            assert(priority_order(s).to_multiset().count(s[i]) > 0);
            assert(priority_order(s).contains(s[i]));
        }
        if has_id(priority_order(s), id) {
            let p = priority_order(s);
            let i = choose|i: int| 0 <= i < p.len() && (#[trigger] p[i]).0 == id;
            assert(p.contains(p[i]));
            assert(p.to_multiset().count(p[i]) > 0);
            assert(s.to_multiset().count(p[i]) > 0);
            assert(s.contains(p[i]));
        }
    }
    if distinct_ids(s) {
        lemma_distinct_transfers(s, priority_order(s));
    }
}

proof fn lemma_distinct_transfers(s: Seq<Entry>, t: Seq<Entry>)
    requires
        distinct_ids(s),
        s.to_multiset() == t.to_multiset(),
    ensures
        distinct_ids(t),
{
    broadcast use vstd::seq_lib::group_to_multiset_ensures;

    assert forall|i: int, j: int| 0 <= i < j < t.len() implies (#[trigger] t[i]).0 != (
    #[trigger] t[j]).0 by {
        if t[i].0 == t[j].0 {
            assert(t.contains(t[i]) && t.contains(t[j]));
            assert(t.to_multiset().count(t[i]) > 0 && t.to_multiset().count(t[j]) > 0);
            assert(s.to_multiset().count(t[i]) > 0 && s.to_multiset().count(t[j]) > 0);
            assert(s.contains(t[i]) && s.contains(t[j]));
            let a = choose|a: int| 0 <= a < s.len() && s[a] == t[i];
            let b = choose|b: int| 0 <= b < s.len() && s[b] == t[j];
            assert(a == b);
            assert(t[i] == t[j]);
            s.lemma_multiset_has_no_duplicates();
            assert(s.no_duplicates());
            t.lemma_multiset_has_no_duplicates_conv();
        }
    }
}

/// Removing an id keeps every other entry, in the same relative order, and
/// leaves the id nowhere.
pub proof fn lemma_without(s: Seq<Entry>, id: RequestId)
    ensures
        !has_id(without(s, id), id),
        forall|e: Entry| e.0 != id ==> (without(s, id).contains(e) <==> #[trigger] s.contains(e)),
        distinct_ids(s) ==> distinct_ids(without(s, id)),
        in_priority_order(s) ==> in_priority_order(without(s, id)),
        !has_id(s, id) ==> without(s, id) == s,
        distinct_ids(s) && has_id(s, id) ==> without(s, id).len() == s.len() - 1,
        without(s, id).len() <= s.len(),
    decreases s.len(),
{
    reveal(Seq::filter);
    let keep = |e: Entry| e.0 != id;
    if s.len() > 0 {
        let front = s.drop_last();
        let last = s.last();
        lemma_without(front, id);
        let w = without(front, id);
        assert(without(s, id) == if keep(last) {
            w.push(last)
        } else {
            w
        });
        assert(front.push(last) =~= s);
        assert forall|e: Entry| s.contains(e) <==> #[trigger] front.contains(e) || e == last by {
            if front.contains(e) {
                let k = choose|k: int| 0 <= k < front.len() && front[k] == e;
                assert(s[k] == e);
            }
            if s.contains(e) {
                let k = choose|k: int| 0 <= k < s.len() && s[k] == e;
                assert(k == s.len() - 1 || front[k] == e);
            }
            assert(s[s.len() - 1] == last);
        }
        assert forall|e: Entry| e.0 != id implies (without(s, id).contains(e)
            <==> #[trigger] s.contains(e)) by {
            assert(w.contains(e) <==> front.contains(e));
            if keep(last) {
                assert(w.push(last)[w.len() as int] == last);
                if w.contains(e) {
                    let k = choose|k: int| 0 <= k < w.len() && w[k] == e;
                    assert(w.push(last)[k] == e);
                }
                if w.push(last).contains(e) {
                    let k = choose|k: int| 0 <= k < w.push(last).len() && w.push(last)[k] == e;
                    assert(k == w.len() || w[k] == e);
                }
            }
        }
        assert forall|i: int| 0 <= i < w.len() implies exists|k: int|
            0 <= k < front.len() && front[k] == #[trigger] w[i] by {
            assert(w.contains(w[i]));
            assert(w[i].0 != id) by {
                if w[i].0 == id {
                    assert(has_id(w, id));
                }
            }
            assert(front.contains(w[i]));
        }
        assert forall|i: int| 0 <= i < front.len() implies #[trigger] s[i] == front[i] by {}
        if has_id(s, id) && !(last.0 == id) {
            let k = choose|k: int| 0 <= k < s.len() && (#[trigger] s[k]).0 == id;
            assert(front[k].0 == id);
        }
        if has_id(front, id) {
            let k = choose|k: int| 0 <= k < front.len() && (#[trigger] front[k]).0 == id;
            assert(s[k].0 == id);
        }
        if last.0 == id {
            assert(s[s.len() - 1].0 == id);
        }
    }
}

/// The entries with this priority and this arrival.
pub open spec fn same_rank(priority: i32, arrival: u64) -> spec_fn(Entry) -> bool {
    |e: Entry| e.1 == priority && e.2 == arrival
}

proof fn lemma_insert_stable(s: Seq<Entry>, e: Entry, priority: i32, arrival: u64)
    ensures
        insert_in_order(s, e).filter(same_rank(priority, arrival)) == s.push(e).filter(
            same_rank(priority, arrival),
        ),
    decreases s.len(),
{
    reveal(Seq::filter);
    let rank = same_rank(priority, arrival);
    assert(s.push(e).drop_last() =~= s);
    if s.len() > 0 && ahead(e, s.last()) {
        let front = s.drop_last();
        lemma_insert_stable(front, e, priority, arrival);
        assert(front.push(e).drop_last() =~= front);
        let placed = insert_in_order(front, e);
        assert(placed.push(s.last()).drop_last() =~= placed);
        assert(s.filter(rank) == if rank(s.last()) {
            front.filter(rank).push(s.last())
        } else {
            front.filter(rank)
        });
        assert(front.push(e).filter(rank) == if rank(e) {
            front.filter(rank).push(e)
        } else {
            front.filter(rank)
        });
        assert(s.push(e).filter(rank) == if rank(e) {
            s.filter(rank).push(e)
        } else {
            s.filter(rank)
        });
        assert(placed.push(s.last()).filter(rank) == if rank(s.last()) {
            placed.filter(rank).push(s.last())
        } else {
            placed.filter(rank)
        });
    }
}

/// Requests of equal priority and arrival leave a priority queue in the order
/// in which they stood before it was sorted.
pub proof fn lemma_priority_order_stable(s: Seq<Entry>, priority: i32, arrival: u64)
    ensures
        priority_order(s).filter(same_rank(priority, arrival)) == s.filter(
            same_rank(priority, arrival),
        ),
    decreases s.len(),
{
    reveal(Seq::filter);
    if s.len() > 0 {
        let front = s.drop_last();
        lemma_priority_order_stable(front, priority, arrival);
        lemma_insert_stable(priority_order(front), s.last(), priority, arrival);
        assert(priority_order(front).push(s.last()).drop_last() =~= priority_order(front));
    }
}

/// In a priority queue a request of higher priority comes before one of lower priority, and
/// of the same priority the one that arrived first comes first. A push keeps the others
/// and puts the request itself in.
pub proof fn lemma_highest_priority_first(s: Seq<Entry>, e: Entry)
    requires
        distinct_ids(s),
    ensures
        ({
            let q = pushed(s, e, SchedulingPolicy::Priority);
            &&& forall|i: int, j: int|
                0 <= i < j < q.len() ==> {
                    let a = #[trigger] q[i];
                    let b = #[trigger] q[j];
                    a.1 > b.1 || a.1 == b.1 && a.2 <= b.2
                }
            &&& q.contains(e)
            &&& forall|other: Entry|
                other.0 != e.0 ==> (s.contains(other) <==> #[trigger] q.contains(other))
            &&& forall|other: Entry| other.0 == e.0 && #[trigger] q.contains(other) ==> other == e
        }),
{
    broadcast use vstd::seq_lib::group_to_multiset_ensures;

    let u = upsert(s, e);
    let q = pushed(s, e, SchedulingPolicy::Priority);
    lemma_priority_order(u);
    assert forall|i: int, j: int| 0 <= i < j < q.len() implies ({
        let a = #[trigger] q[i];
        let b = #[trigger] q[j];
        a.1 > b.1 || a.1 == b.1 && a.2 <= b.2
    }) by {
        assert(!ahead(q[j], q[i]));
    }
    assert forall|other: Entry| #[trigger] q.contains(other) <==> u.contains(other) by {
        assert(q.to_multiset().count(other) == u.to_multiset().count(other));
    }
    assert(u.contains(e)) by {
        if has_id(s, e.0) {
            let i = choose|i: int| 0 <= i < s.len() && (#[trigger] s[i]).0 == e.0;
            assert(u[i] == e);
        } else {
            assert(u[s.len() as int] == e);
        }
    }
    assert forall|other: Entry| other.0 != e.0 implies (s.contains(other) <==> #[trigger] q.contains(
        other,
    )) by {
        if s.contains(other) {
            let i = choose|i: int| 0 <= i < s.len() && s[i] == other;
            assert(u[i] == other);
        }
        if u.contains(other) {
            let i = choose|i: int| 0 <= i < u.len() && u[i] == other;
            assert(s[i] == other);
        }
    }
    assert forall|other: Entry| other.0 == e.0 && #[trigger] q.contains(other) implies other
        == e by {
        let i = choose|i: int| 0 <= i < u.len() && u[i] == other;
        if i < s.len() && !has_id(s, e.0) {
            assert(s[i].0 == e.0);
        }
    }
}

/// Under first-come-first-served a new request waits behind all others, so
/// requests leave in the order in which they came.
pub proof fn lemma_fcfs_appends(s: Seq<Entry>, e: Entry)
    requires
        !has_id(s, e.0),
    ensures
        pushed(s, e, SchedulingPolicy::FCFS) == s.push(e),
        ids_of(pushed(s, e, SchedulingPolicy::FCFS)) == ids_of(s).push(e.0),
{
    assert(ids_of(s.push(e)) =~= ids_of(s).push(e.0));
}

} // verus!
