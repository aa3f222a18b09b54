use vstd::prelude::*;

verus! {

// ---------------------------------------------------------------------------
// A memoizing cache in front of an expensive asynchronous computation.
//
// The cache itself is a sequential state machine; the surrounding runtime
// performs the computations and reports their outcomes back. `get` answers
// from a fresh entry, asks the caller to wait when a computation for the key
// is already in flight, or asks it to start one — so at most one computation
// per key can ever be started while another is pending. Entries are kept in
// least-recently-used order (least recent first), expire after the
// configured time-to-live, and when the map is full a new key evicts the
// least recently used ready entry; pending entries are never evicted.
// ---------------------------------------------------------------------------

enum SlotState<V> {
    Ready { value: V, inserted_at: u64 },
    Pending,
}

struct Slot<V> {
    key: String,
    state: SlotState<V>,
}

/// Abstract image of one cache entry.
pub enum EntryModel<V> {
    Ready { value: V, inserted_at: u64 },
    Pending,
}

/// Abstract image of one slot: its key and its entry.
pub struct SlotModel<V> {
    pub key: Seq<char>,
    pub entry: EntryModel<V>,
}

spec fn slot_model<V>(s: Slot<V>) -> SlotModel<V> {
    SlotModel {
        key: s.key@,
        entry: match s.state {
            SlotState::Ready { value, inserted_at } => EntryModel::Ready { value, inserted_at },
            SlotState::Pending => EntryModel::Pending,
        },
    }
}

spec fn views<V>(s: Seq<Slot<V>>) -> Seq<SlotModel<V>> {
    s.map(|i: int, sl: Slot<V>| slot_model(sl))
}

/// First slot holding `key`, searching from `i`.
pub open spec fn key_search_from<V>(m: Seq<SlotModel<V>>, key: Seq<char>, i: int) -> Option<int>
    decreases m.len() - i,
{
    if i < 0 || i >= m.len() {
        None
    } else if m[i].key == key {
        Some(i)
    } else {
        key_search_from(m, key, i + 1)
    }
}

pub open spec fn find_key<V>(m: Seq<SlotModel<V>>, key: Seq<char>) -> Option<int> {
    key_search_from(m, key, 0)
}

/// First ready slot, searching from `i`: the least recently used entry that
/// is not pending.
pub open spec fn ready_search_from<V>(m: Seq<SlotModel<V>>, i: int) -> Option<int>
    decreases m.len() - i,
{
    if i < 0 || i >= m.len() {
        None
    } else if m[i].entry is Ready {
        Some(i)
    } else {
        ready_search_from(m, i + 1)
    }
}

pub open spec fn first_ready<V>(m: Seq<SlotModel<V>>) -> Option<int> {
    ready_search_from(m, 0)
}

/// No two slots hold the same key.
pub open spec fn distinct_keys<V>(m: Seq<SlotModel<V>>) -> bool {
    forall|i: int, j: int| 0 <= i < j < m.len() ==> m[i].key != m[j].key
}

/// An entry inserted at `inserted_at` is still fresh at `now` under `ttl`.
pub open spec fn fresh_at(inserted_at: u64, now: u64, ttl: Option<u64>) -> bool {
    match ttl {
        None => true,
        Some(t) => now - inserted_at <= t,
    }
}

/// Make room if the map is full — dropping the least recently used ready
/// slot, never a pending one — and append a pending slot for `key`, which
/// must not be present.
pub open spec fn insert_pending<V>(m: Seq<SlotModel<V>>, cap: int, key: Seq<char>) -> Seq<
    SlotModel<V>,
> {
    let m1 = if m.len() >= cap {
        match first_ready(m) {
            Some(j) => m.remove(j),
            None => m,
        }
    } else {
        m
    };
    m1.push(SlotModel { key, entry: EntryModel::Pending })
}

/// What `get` answers.
pub enum GetOutcome<V> {
    /// A fresh entry exists; its value is returned.
    Hit(V),
    /// A computation for the key is in flight: wait for its result.
    Wait,
    /// No usable entry: the caller must start the computation.
    MustCompute,
}

/// The transition `get` takes: the new entry sequence and the answer.
pub open spec fn get_model<V>(
    m: Seq<SlotModel<V>>,
    cap: int,
    ttl: Option<u64>,
    key: Seq<char>,
    now: u64,
) -> (Seq<SlotModel<V>>, GetOutcome<V>) {
    match find_key(m, key) {
        Some(i) => match m[i].entry {
            EntryModel::Pending => (m, GetOutcome::Wait),
            EntryModel::Ready { value, inserted_at } => {
                if fresh_at(inserted_at, now, ttl) {
                    (m.remove(i).push(m[i]), GetOutcome::Hit(value))
                } else {
                    (insert_pending(m.remove(i), cap, key), GetOutcome::MustCompute)
                }
            },
        },
        None => (insert_pending(m, cap, key), GetOutcome::MustCompute),
    }
}

/// The transition a successful computation takes: the pending slot becomes
/// ready, stamped with the completion time, and moves to most recent.
pub open spec fn complete_model<V>(
    m: Seq<SlotModel<V>>,
    key: Seq<char>,
    value: V,
    now: u64,
) -> Seq<SlotModel<V>> {
    match find_key(m, key) {
        Some(i) => m.remove(i).push(
            SlotModel { key, entry: EntryModel::Ready { value, inserted_at: now } },
        ),
        None => m,
    }
}

/// The transition a failed computation takes: the pending slot is dropped,
/// so the next `get` starts a fresh attempt; no value is stored.
pub open spec fn fail_model<V>(m: Seq<SlotModel<V>>, key: Seq<char>) -> Seq<SlotModel<V>> {
    match find_key(m, key) {
        Some(i) => {
            if m[i].entry is Pending {
                m.remove(i)
            } else {
                m
            }
        },
        None => m,
    }
}

/// Memoizing cache wrapping one asynchronous computation: time-based expiry,
/// bounded capacity with least-recently-used eviction, and at most one
/// in-flight computation per key.
pub struct MemoizingCache<V> {
    slots: Vec<Slot<V>>,
    ttl: Option<u64>,
    capacity: usize,
}

impl<V: Clone> MemoizingCache<V> {
    /// The entries, least recently used first.
    pub closed spec fn view(self) -> Seq<SlotModel<V>> {
        views(self.slots@)
    }

    pub closed spec fn spec_ttl(self) -> Option<u64> {
        self.ttl
    }

    pub closed spec fn spec_capacity(self) -> int {
        self.capacity as int
    }

    /// Keys are unique and the capacity is positive.
    pub open spec fn wf(self) -> bool {
        &&& distinct_keys(self.view())
        &&& self.spec_capacity() >= 1
    }

    /// An empty cache for the given time-to-live (`None`: entries never
    /// expire by age) and capacity.
    pub fn new(ttl: Option<u64>, capacity: usize) -> (r: Self)
        requires
            capacity >= 1,
        ensures
            r.view() == Seq::<SlotModel<V>>::empty(),
            r.spec_ttl() == ttl,
            r.spec_capacity() == capacity,
            r.wf(),
    {
        let r = MemoizingCache { slots: Vec::new(), ttl, capacity };
        proof {
            assert(r.view() =~= Seq::<SlotModel<V>>::empty());
        }
        r
    }

    pub fn len(&self) -> (r: usize)
        ensures
            r == self.view().len(),
    {
        self.slots.len()
    }

    /// Look up `key` at time `now`: answer from a fresh entry, report an
    /// in-flight computation, or register a pending slot and ask the caller
    /// to compute. Exactly the transition [`get_model`] describes.
    pub fn get(&mut self, key: &String, now: u64) -> (r: GetOutcome<V>)
        requires
            old(self).wf(),
        ensures
            final(self).wf(),
            final(self).spec_ttl() == old(self).spec_ttl(),
            final(self).spec_capacity() == old(self).spec_capacity(),
            ({
                let (m2, o) = get_model(
                    old(self).view(),
                    old(self).spec_capacity(),
                    old(self).spec_ttl(),
                    key@,
                    now,
                );
                &&& final(self).view() == m2
                &&& match (r, o) {
                    (GetOutcome::Hit(v), GetOutcome::Hit(w)) => cloned(w, v),
                    (GetOutcome::Wait, GetOutcome::Wait) => true,
                    (GetOutcome::MustCompute, GetOutcome::MustCompute) => true,
                    _ => false,
                }
            }),
    {
        let iopt = self.find_index(key);
        match iopt {
            Some(i) => {
                let probe: Option<Option<V>> = match &self.slots[i].state {
                    SlotState::Pending => None,
                    SlotState::Ready { value, inserted_at } => {
                        if is_fresh(*inserted_at, now, &self.ttl) {
                            Some(Some(value.clone()))
                        } else {
                            Some(None)
                        }
                    },
                };
                match probe {
                    None => GetOutcome::Wait,
                    Some(Some(v)) => {
                        let ghost m = self.view();
                        let slot = self.slots.remove(i);
                        proof {
                            lemma_views_remove(old(self).slots@, i as int);
                        }
                        self.slots.push(slot);
                        proof {
                            lemma_views_push(old(self).slots@.remove(i as int), slot);
                            assert(self.view() =~= m.remove(i as int).push(m[i as int]));
                            lemma_distinct_after_touch(m, i as int);
                        }
                        GetOutcome::Hit(v)
                    },
                    Some(None) => {
                        let ghost m = self.view();
                        self.slots.remove(i);
                        proof {
                            lemma_found_key(m, key@, 0);
                            lemma_views_remove(old(self).slots@, i as int);
                            lemma_distinct_remove(m, i as int);
                            lemma_no_key_after_remove(m, i as int);
                        }
                        self.push_pending(key);
                        GetOutcome::MustCompute
                    },
                }
            },
            None => {
                self.push_pending(key);
                GetOutcome::MustCompute
            },
        }
    }

    /// Store the result of a computation for `key` at time `now`. The slot
    /// becomes ready and most recent. Exactly [`complete_model`].
    pub fn complete(&mut self, key: &String, value: V, now: u64)
        requires
            old(self).wf(),
        ensures
            final(self).wf(),
            final(self).spec_ttl() == old(self).spec_ttl(),
            final(self).spec_capacity() == old(self).spec_capacity(),
            final(self).view() == complete_model(old(self).view(), key@, value, now),
    {
        let iopt = self.find_index(key);
        match iopt {
            Some(i) => {
                let ghost m = self.view();
                self.slots.remove(i);
                proof {
                    lemma_found_key(m, key@, 0);
                    lemma_views_remove(old(self).slots@, i as int);
                    lemma_distinct_remove(m, i as int);
                    lemma_no_key_after_remove(m, i as int);
                }
                let slot = Slot { key: key.clone(), state: SlotState::Ready { value, inserted_at: now } };
                let ghost pre = self.slots@;
                self.slots.push(slot);
                proof {
                    lemma_views_push(pre, slot);
                    assert(self.view() =~= complete_model(m, key@, value, now));
                    lemma_distinct_push_new(views(pre), slot_model(slot));
                }
            },
            None => {},
        }
    }

    /// Drop the pending slot for `key` after a failed computation, so the
    /// next `get` triggers a fresh attempt. Exactly [`fail_model`].
    pub fn fail(&mut self, key: &String)
        requires
            old(self).wf(),
        ensures
            final(self).wf(),
            final(self).spec_ttl() == old(self).spec_ttl(),
            final(self).spec_capacity() == old(self).spec_capacity(),
            final(self).view() == fail_model(old(self).view(), key@),
    {
        let iopt = self.find_index(key);
        match iopt {
            Some(i) => {
                let pending = match &self.slots[i].state {
                    SlotState::Pending => true,
                    SlotState::Ready { .. } => false,
                };
                if pending {
                    let ghost m = self.view();
                    self.slots.remove(i);
                    proof {
                        lemma_views_remove(old(self).slots@, i as int);
                        lemma_distinct_remove(m, i as int);
                    }
                }
            },
            None => {},
        }
    }

    /// Append a pending slot for a key that is not present, evicting the
    /// least recently used ready slot when the map is full.
    fn push_pending(&mut self, key: &String)
        requires
            old(self).wf(),
            find_key(old(self).view(), key@) is None,
        ensures
            final(self).wf(),
            final(self).spec_ttl() == old(self).spec_ttl(),
            final(self).spec_capacity() == old(self).spec_capacity(),
            final(self).view() == insert_pending(old(self).view(), old(self).spec_capacity(), key@),
    {
        let ghost m = self.view();
        if self.slots.len() >= self.capacity {
            let jopt = self.find_ready_index();
            match jopt {
                Some(j) => {
                    self.slots.remove(j);
                    proof {
                        lemma_views_remove(old(self).slots@, j as int);
                        lemma_distinct_remove(m, j as int);
                        lemma_find_key_remove_none(m, key@, j as int);
                    }
                },
                None => {},
            }
        }
        let slot = Slot { key: key.clone(), state: SlotState::Pending };
        let ghost pre = self.slots@;
        self.slots.push(slot);
        proof {
            lemma_views_push(pre, slot);
            assert(self.view() =~= insert_pending(m, old(self).spec_capacity(), key@));
            lemma_distinct_push_new(views(pre), slot_model(slot));
        }
    }

    /// Index of the slot holding `key`, if any.
    fn find_index(&self, key: &String) -> (r: Option<usize>)
        ensures
            match r {
                Some(i) => find_key(self.view(), key@) == Some(i as int) && i < self.view().len(),
                None => find_key(self.view(), key@) is None,
            },
    {
        let ghost m = self.view();
        let mut i: usize = 0;
        while i < self.slots.len()
            invariant
                i <= self.slots@.len(),
                m == self.view(),
                m.len() == self.slots@.len(),
                find_key(m, key@) == key_search_from(m, key@, i as int),
            decreases self.slots@.len() - i,
        {
            if self.slots[i].key == *key {
                return Some(i);
            }
            i = i + 1;
        }
        None
    }

    /// Index of the least recently used ready slot, if any.
    fn find_ready_index(&self) -> (r: Option<usize>)
        ensures
            match r {
                Some(j) => first_ready(self.view()) == Some(j as int) && j < self.view().len(),
                None => first_ready(self.view()) is None,
            },
    {
        let ghost m = self.view();
        let mut i: usize = 0;
        while i < self.slots.len()
            invariant
                i <= self.slots@.len(),
                m == self.view(),
                m.len() == self.slots@.len(),
                first_ready(m) == ready_search_from(m, i as int),
            decreases self.slots@.len() - i,
        {
            let ready = match &self.slots[i].state {
                SlotState::Ready { .. } => true,
                SlotState::Pending => false,
            };
            if ready {
                return Some(i);
            }
            i = i + 1;
        }
        None
    }
}

fn is_fresh(inserted_at: u64, now: u64, ttl: &Option<u64>) -> (r: bool)
    ensures
        r == fresh_at(inserted_at, now, *ttl),
{
    match ttl {
        None => true,
        Some(t) => match inserted_at.checked_add(*t) {
            Some(s) => now <= s,
            None => true,
        },
    }
}

// ---------------------------------------------------------------------------
// Laws.
// ---------------------------------------------------------------------------

pub open spec fn entry_value<V>(e: EntryModel<V>) -> V {
    match e {
        EntryModel::Ready { value, .. } => value,
        EntryModel::Pending => arbitrary(),
    }
}

pub open spec fn entry_time<V>(e: EntryModel<V>) -> u64 {
    match e {
        EntryModel::Ready { inserted_at, .. } => inserted_at,
        EntryModel::Pending => arbitrary(),
    }
}

/// Single-flight: once a `get` has answered `MustCompute` for a key, every
/// further `get` for that key answers `Wait` until the computation is
/// reported complete or failed — so concurrent callers can never start a
/// second computation for the same key.
pub proof fn lemma_single_flight<V>(
    m: Seq<SlotModel<V>>,
    cap: int,
    ttl: Option<u64>,
    key: Seq<char>,
    now1: u64,
    now2: u64,
)
    requires
        distinct_keys(m),
        get_model(m, cap, ttl, key, now1).1 is MustCompute,
    ensures
        get_model(get_model(m, cap, ttl, key, now1).0, cap, ttl, key, now2).1 is Wait,
        get_model(get_model(m, cap, ttl, key, now1).0, cap, ttl, key, now2).0 == get_model(
            m,
            cap,
            ttl,
            key,
            now1,
        ).0,
{
    let mp = match find_key(m, key) {
        Some(i) => {
            lemma_found_key(m, key, 0);
            lemma_no_key_after_remove(m, i);
            m.remove(i)
        },
        None => m,
    };
    assert(find_key(mp, key) is None);
    let m1 = if mp.len() >= cap {
        match first_ready(mp) {
            Some(j) => {
                lemma_found_ready(mp, 0);
                lemma_find_key_remove_none(mp, key, j);
                mp.remove(j)
            },
            None => mp,
        }
    } else {
        mp
    };
    assert(find_key(m1, key) is None);
    let sl = SlotModel::<V> { key, entry: EntryModel::Pending };
    let m2 = m1.push(sl);
    lemma_search_none_all(m1, key, 0);
    lemma_search_finds(m2, key, 0, m1.len() as int);
    assert(get_model(m, cap, ttl, key, now1).0 == m2);
    assert(m2[m1.len() as int].entry is Pending);
}

/// Expiry: a ready entry within its time-to-live answers the lookup itself,
/// with no recomputation; one older than the time-to-live forces a fresh
/// computation.
pub proof fn lemma_ttl_behavior<V>(
    m: Seq<SlotModel<V>>,
    cap: int,
    ttl: Option<u64>,
    key: Seq<char>,
    now: u64,
)
    requires
        find_key(m, key) is Some,
        m[find_key(m, key)->Some_0].entry is Ready,
    ensures
        ({
            let i = find_key(m, key)->Some_0;
            let e = m[i].entry;
            &&& fresh_at(entry_time(e), now, ttl) ==> get_model(m, cap, ttl, key, now) == (
            m.remove(i).push(m[i]), GetOutcome::Hit(entry_value(e)))
            &&& !fresh_at(entry_time(e), now, ttl) ==> get_model(m, cap, ttl, key, now).1
                is MustCompute
        }),
{
}

/// Eviction safety: inserting a new key evicts at most one entry, and only
/// a ready one — the least recently used ready entry, every entry before it
/// being pending. Pending entries always survive capacity pressure, and
/// under capacity nothing is evicted at all.
pub proof fn lemma_eviction_safety<V>(m: Seq<SlotModel<V>>, cap: int, key: Seq<char>)
    requires
        distinct_keys(m),
        find_key(m, key) is None,
    ensures
        ({
            let m2 = insert_pending(m, cap, key);
            &&& forall|i: int|
                0 <= i < m.len() && m[i].entry is Pending ==> m2.contains(m[i])
            &&& m.len() < cap ==> forall|i: int| 0 <= i < m.len() ==> m2.contains(m[i])
            &&& m.len() >= cap && first_ready(m) is None ==> forall|i: int|
                0 <= i < m.len() ==> m2.contains(m[i])
            &&& (m.len() >= cap && first_ready(m) is Some) ==> ({
                let j = first_ready(m)->Some_0;
                &&& 0 <= j < m.len()
                &&& m[j].entry is Ready
                &&& forall|i: int| 0 <= i < j ==> m[i].entry is Pending
                &&& forall|i: int| 0 <= i < m.len() && i != j ==> m2.contains(m[i])
            })
        }),
{
    let m2 = insert_pending(m, cap, key);
    if m.len() >= cap && first_ready(m) is Some {
        let j = first_ready(m)->Some_0;
        lemma_found_ready(m, 0);
        let r = m.remove(j);
        assert forall|i: int| 0 <= i < m.len() && i != j implies m2.contains(m[i]) by {
            let i1: int = if i < j {
                i
            } else {
                i - 1
            };
            assert(r[i1] == m[i]);
            assert(m2[i1] == m[i]);
        }
    } else {
        assert forall|i: int| 0 <= i < m.len() implies m2.contains(m[i]) by {
            assert(m2[i] == m[i]);
        }
    }
}

// ---------------------------------------------------------------------------
// Supporting lemmas.
// ---------------------------------------------------------------------------

/// A successful search for a ready slot lands on the least recently used
/// one: everything before it is pending.
proof fn lemma_found_ready<V>(m: Seq<SlotModel<V>>, i: int)
    requires
        ready_search_from(m, i) is Some,
    ensures
        ({
            let ix = ready_search_from(m, i)->Some_0;
            &&& i <= ix < m.len()
            &&& m[ix].entry is Ready
            &&& forall|j: int| i <= j < ix ==> m[j].entry is Pending
        }),
    decreases m.len() - i,
{
    if i < 0 || i >= m.len() {
    } else if m[i].entry is Ready {
    } else {
        lemma_found_ready(m, i + 1);
        assert forall|j: int| i <= j < ready_search_from(m, i)->Some_0 implies m[j].entry
            is Pending by {
            if j > i {
                assert(m[j].entry is Pending);
            }
        }
    }
}

/// A search starting where the key first occurs finds exactly that slot.
proof fn lemma_search_finds<V>(m: Seq<SlotModel<V>>, key: Seq<char>, i: int, ix: int)
    requires
        0 <= i <= ix < m.len(),
        m[ix].key == key,
        forall|j: int| i <= j < ix ==> m[j].key != key,
    ensures
        key_search_from(m, key, i) == Some(ix),
    decreases ix - i,
{
    if i < ix {
        lemma_search_finds(m, key, i + 1, ix);
    }
}

proof fn lemma_views_remove<V>(s: Seq<Slot<V>>, i: int)
    requires
        0 <= i < s.len(),
    ensures
        views(s.remove(i)) =~= views(s).remove(i),
{
}

proof fn lemma_views_push<V>(s: Seq<Slot<V>>, sl: Slot<V>)
    ensures
        views(s.push(sl)) =~= views(s).push(slot_model(sl)),
{
}

proof fn lemma_distinct_remove<V>(m: Seq<SlotModel<V>>, i: int)
    requires
        distinct_keys(m),
        0 <= i < m.len(),
    ensures
        distinct_keys(m.remove(i)),
{
    assert forall|a: int, b: int|
        0 <= a < b < m.remove(i).len() implies m.remove(i)[a].key != m.remove(i)[b].key by {
        let a1: int = if a < i { a } else { a + 1 };
        let b1: int = if b < i { b } else { b + 1 };
        assert(m.remove(i)[a] == m[a1]);
        assert(m.remove(i)[b] == m[b1]);
    }
}

proof fn lemma_distinct_after_touch<V>(m: Seq<SlotModel<V>>, i: int)
    requires
        distinct_keys(m),
        0 <= i < m.len(),
    ensures
        distinct_keys(m.remove(i).push(m[i])),
{
    lemma_distinct_remove(m, i);
    let r = m.remove(i);
    assert forall|a: int, b: int|
        0 <= a < b < r.push(m[i]).len() implies r.push(m[i])[a].key != r.push(m[i])[b].key by {
        if b < r.len() {
        } else {
            let a1: int = if a < i { a } else { a + 1 };
            assert(r.push(m[i])[a] == m[a1]);
            assert(r.push(m[i])[b] == m[i]);
        }
    }
}

/// After its slot is removed, a key occurs nowhere.
proof fn lemma_no_key_after_remove<V>(m: Seq<SlotModel<V>>, i: int)
    requires
        distinct_keys(m),
        0 <= i < m.len(),
    ensures
        find_key(m.remove(i), m[i].key) is None,
{
    let r = m.remove(i);
    assert forall|j: int| 0 <= j < r.len() implies r[j].key != m[i].key by {
        let j1: int = if j < i { j } else { j + 1 };
        assert(r[j] == m[j1]);
    }
    lemma_search_none(r, m[i].key, 0);
}

/// Removing a slot with a different key keeps a key absent.
proof fn lemma_find_key_remove_none<V>(m: Seq<SlotModel<V>>, key: Seq<char>, j: int)
    requires
        0 <= j < m.len(),
        find_key(m, key) is None,
    ensures
        find_key(m.remove(j), key) is None,
{
    lemma_search_none_all(m, key, 0);
    let r = m.remove(j);
    assert forall|a: int| 0 <= a < r.len() implies r[a].key != key by {
        let a1: int = if a < j { a } else { a + 1 };
        assert(r[a] == m[a1]);
    }
    lemma_search_none(r, key, 0);
}

proof fn lemma_distinct_push_new<V>(m: Seq<SlotModel<V>>, sl: SlotModel<V>)
    requires
        distinct_keys(m),
        find_key(m, sl.key) is None,
    ensures
        distinct_keys(m.push(sl)),
{
    lemma_search_none_all(m, sl.key, 0);
    assert forall|a: int, b: int|
        0 <= a < b < m.push(sl).len() implies m.push(sl)[a].key != m.push(sl)[b].key by {
        if b < m.len() {
        } else {
            assert(m.push(sl)[a] == m[a]);
            assert(m.push(sl)[b] == sl);
        }
    }
}

/// A successful search lands on a slot holding the key.
proof fn lemma_found_key<V>(m: Seq<SlotModel<V>>, key: Seq<char>, i: int)
    requires
        key_search_from(m, key, i) is Some,
    ensures
        ({
            let ix = key_search_from(m, key, i)->Some_0;
            i <= ix < m.len() && m[ix].key == key
        }),
    decreases m.len() - i,
{
    if i < 0 || i >= m.len() {
    } else if m[i].key == key {
    } else {
        lemma_found_key(m, key, i + 1);
    }
}

/// A search that finds nothing means the key is on no slot past `i`.
proof fn lemma_search_none_all<V>(m: Seq<SlotModel<V>>, key: Seq<char>, i: int)
    requires
        i >= 0,
        key_search_from(m, key, i) is None,
    ensures
        forall|j: int| i <= j < m.len() ==> m[j].key != key,
    decreases m.len() - i,
{
    if 0 <= i < m.len() {
        lemma_search_none_all(m, key, i + 1);
    }
}

/// A key on no slot is never found.
proof fn lemma_search_none<V>(m: Seq<SlotModel<V>>, key: Seq<char>, i: int)
    requires
        forall|j: int| i <= j < m.len() ==> m[j].key != key,
        i >= 0,
    ensures
        key_search_from(m, key, i) is None,
    decreases m.len() - i,
{
    if i < m.len() {
        lemma_search_none(m, key, i + 1);
    }
}

} // verus!
