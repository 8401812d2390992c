//! The bounded cache of session summaries, keyed by session and validated by
//! the identity of the session's two files.

use crate::text::str_eq;
use vstd::prelude::*;
use vstd::string::*;

verus! {

/// The identity of the files of a session: time of last change and size of
/// the manifest file and of the event file.
#[derive(Debug, Clone, Copy, PartialEq, Eq, Structural)]
pub struct CacheKey {
    pub manifest_mtime: u64,
    pub manifest_size: u64,
    pub events_mtime: u64,
    pub events_size: u64,
}

/// One cached value with the session it belongs to, the file identity it
/// was computed from and the time it was put in.
pub struct CacheEntry<V> {
    pub trace_id: String,
    pub key: CacheKey,
    pub inserted_at_ms: u64,
    pub value: V,
}

/// The age of an entry at `now_ms`; zero where the clock stands before the
/// time the entry was put in.
pub open spec fn age_ms(inserted_at_ms: u64, now_ms: u64) -> int {
    if now_ms >= inserted_at_ms {
        now_ms - inserted_at_ms
    } else {
        0
    }
}

/// The position of the first entry of session `trace_id` among `entries`,
/// if there is one.
pub open spec fn position_of<V>(entries: Seq<CacheEntry<V>>, trace_id: Seq<char>) -> Option<int>
    decreases entries.len(),
{
    if entries.len() == 0 {
        None
    } else {
        match position_of(entries.drop_last(), trace_id) {
            Some(i) => Some(i),
            None => if entries.last().trace_id@ == trace_id {
                Some(entries.len() - 1)
            } else {
                None
            },
        }
    }
}

/// The position that [`position_of`] gives is that of the first entry of
/// the session, and it gives none where the session has no entry.
pub proof fn lemma_position_is_first<V>(entries: Seq<CacheEntry<V>>, trace_id: Seq<char>)
    ensures
        match position_of(entries, trace_id) {
            Some(i) => 0 <= i < entries.len() && entries[i].trace_id@ == trace_id && forall|k: int|
                0 <= k < i ==> (#[trigger] entries[k]).trace_id@ != trace_id,
            None => forall|k: int|
                0 <= k < entries.len() ==> (#[trigger] entries[k]).trace_id@ != trace_id,
        },
    decreases entries.len(),
{
    if entries.len() > 0 {
        lemma_position_is_first(entries.drop_last(), trace_id);
        match position_of(entries.drop_last(), trace_id) {
            Some(i) => {
                assert(entries.drop_last()[i] == entries[i]);
                assert forall|k: int| 0 <= k < i implies (#[trigger] entries[k]).trace_id@
                    != trace_id by {
                    assert(entries.drop_last()[k] == entries[k]);
                }
            },
            None => {
                assert forall|k: int| 0 <= k < entries.len() - 1 implies (
                #[trigger] entries[k]).trace_id@ != trace_id by {
                    assert(entries.drop_last()[k] == entries[k]);
                }
            },
        }
    }
}

/// The first entry of a session is where [`position_of`] says.
pub proof fn lemma_first_is_position<V>(entries: Seq<CacheEntry<V>>, trace_id: Seq<char>, i: int)
    requires
        0 <= i < entries.len(),
        entries[i].trace_id@ == trace_id,
        forall|k: int| 0 <= k < i ==> (#[trigger] entries[k]).trace_id@ != trace_id,
    ensures
        position_of(entries, trace_id) == Some(i),
{
    lemma_position_is_first(entries, trace_id);
}

/// No two of `entries` belong to one session.
pub open spec fn distinct_sessions<V>(entries: Seq<CacheEntry<V>>) -> bool {
    forall|i: int, j: int|
        0 <= i < j < entries.len() ==> (#[trigger] entries[i]).trace_id@ != (
        #[trigger] entries[j]).trace_id@
}

/// `entries` without the entry of session `trace_id`.
pub open spec fn without<V>(entries: Seq<CacheEntry<V>>, trace_id: Seq<char>) -> Seq<
    CacheEntry<V>,
> {
    match position_of(entries, trace_id) {
        Some(i) => entries.remove(i),
        None => entries,
    }
}

/// `entries` after the oldest have left until no more than `capacity` stay.
pub open spec fn trimmed_to<V>(entries: Seq<CacheEntry<V>>, capacity: nat) -> Seq<CacheEntry<V>> {
    if entries.len() > capacity {
        entries.skip(entries.len() - capacity)
    } else {
        entries
    }
}

/// A cache of at most `capacity` values, one for a session, each good for
/// `ttl_ms` milliseconds and for as long as the files of its session stay as
/// they were. With capacity zero nothing is kept.
pub struct SummaryCache<V> {
    entries: Vec<CacheEntry<V>>,
    capacity: usize,
    ttl_ms: u64,
}

impl<V> SummaryCache<V> {
    /// The invariant of the cache: it holds no more entries than its
    /// capacity, and no two for one session.
    pub open spec fn wf(&self) -> bool {
        &&& self.entries().len() <= self.capacity()
        &&& distinct_sessions(self.entries())
    }

    /// The entries of the cache, oldest first.
    pub closed spec fn entries(&self) -> Seq<CacheEntry<V>> {
        self.entries@
    }

    /// The number of entries the cache holds at most.
    pub closed spec fn capacity(&self) -> nat {
        self.capacity as nat
    }

    /// The time in milliseconds for which an entry is good.
    pub closed spec fn ttl_ms(&self) -> u64 {
        self.ttl_ms
    }

    /// The entry that answers for session `trace_id` with files of identity
    /// `key` at time `now_ms`: the entry of the session, provided it was
    /// computed from files of that identity and is not older than the cache
    /// lets entries be.
    pub open spec fn valid_entry(&self, trace_id: Seq<char>, key: CacheKey, now_ms: u64) -> Option<
        CacheEntry<V>,
    > {
        match position_of(self.entries(), trace_id) {
            None => None,
            Some(i) => {
                let entry = self.entries()[i];
                if entry.key == key && age_ms(entry.inserted_at_ms, now_ms) <= self.ttl_ms() {
                    Some(entry)
                } else {
                    None
                }
            },
        }
    }

    /// The entries after a value for session `trace_id` was put in: an older
    /// entry of the session has left, the new one is the youngest, and the
    /// oldest have left until the cache holds no more than its capacity.
    pub open spec fn entries_after_insert(&self, entry: CacheEntry<V>) -> Seq<CacheEntry<V>> {
        if self.capacity() == 0 {
            self.entries()
        } else {
            trimmed_to(without(self.entries(), entry.trace_id@).push(entry), self.capacity())
        }
    }

    /// An empty cache.
    pub fn new(capacity: usize, ttl_ms: u64) -> (cache: Self)
        ensures
            cache.wf(),
            cache.entries() == Seq::<CacheEntry<V>>::empty(),
            cache.capacity() == capacity,
            cache.ttl_ms() == ttl_ms,
    {
        SummaryCache { entries: Vec::new(), capacity, ttl_ms }
    }

    /// The number of entries in the cache, which is never above its capacity.
    pub fn len(&self) -> (n: usize)
        ensures
            n == self.entries().len(),
            self.wf() ==> n <= self.capacity(),
    {
        self.entries.len()
    }

    /// Finds the first entry of session `trace_id`.
    fn find(&self, trace_id: &str) -> (found: Option<usize>)
        ensures
            match found {
                Some(i) => i < self.entries().len() && position_of(self.entries(), trace_id@)
                    == Some(i as int),
                None => position_of(self.entries(), trace_id@) is None,
            },
    {
        let mut i: usize = 0;
        while i < self.entries.len()
            invariant
                i <= self.entries@.len(),
                forall|k: int| 0 <= k < i ==> (#[trigger] self.entries@[k]).trace_id@ != trace_id@,
            decreases self.entries.len() - i,
        {
            if str_eq(self.entries[i].trace_id.as_str(), trace_id) {
                proof {
                    lemma_first_is_position(self.entries@, trace_id@, i as int);
                }
                return Some(i);
            }
            i += 1;
        }
        proof {
            lemma_position_is_first(self.entries@, trace_id@);
        }
        None
    }

    /// The cached value for session `trace_id`, if the cache has one that was
    /// computed from files of identity `key` and is still good at `now_ms`.
    pub fn lookup(&self, trace_id: &str, key: &CacheKey, now_ms: u64) -> (hit: Option<&V>)
        ensures
            match hit {
                Some(value) => self.valid_entry(trace_id@, *key, now_ms) matches Some(entry)
                    && entry.value == *value,
                None => self.valid_entry(trace_id@, *key, now_ms) is None,
            },
    {
        match self.find(trace_id) {
            None => None,
            Some(i) => {
                let entry = &self.entries[i];
                let age = if now_ms >= entry.inserted_at_ms {
                    now_ms - entry.inserted_at_ms
                } else {
                    0
                };
                if entry.key.manifest_mtime == key.manifest_mtime && entry.key.manifest_size
                    == key.manifest_size && entry.key.events_mtime == key.events_mtime
                    && entry.key.events_size == key.events_size && age <= self.ttl_ms {
                    Some(&entry.value)
                } else {
                    None
                }
            },
        }
    }

    /// Puts a value for session `trace_id` into the cache. A cache of
    /// capacity zero stays empty.
    pub fn insert(&mut self, trace_id: String, key: CacheKey, now_ms: u64, value: V)
        ensures
            old(self).wf() ==> final(self).wf(),
            final(self).capacity() == old(self).capacity(),
            final(self).ttl_ms() == old(self).ttl_ms(),
            final(self).entries() == old(self).entries_after_insert(
                CacheEntry { trace_id, key, inserted_at_ms: now_ms, value },
            ),
    {
        if self.capacity == 0 {
            return ;
        }
        let ghost before = self.entries@;
        match self.find(trace_id.as_str()) {
            Some(i) => {
                self.entries.remove(i);
            },
            None => {},
        }
        let ghost cleared = self.entries@;
        assert(cleared == without(before, trace_id@));
        let entry = CacheEntry { trace_id, key, inserted_at_ms: now_ms, value };
        let ghost full = cleared.push(entry);
        assert(cleared.skip(0) =~= cleared);
        while self.entries.len() >= self.capacity
            invariant
                self.capacity > 0,
                self.entries@.len() <= cleared.len(),
                self.entries@ == cleared.skip(cleared.len() - self.entries@.len()),
                self.entries@.len() == cleared.len() || self.entries@.len() >= self.capacity - 1,
                self.capacity == old(self).capacity,
                self.ttl_ms == old(self).ttl_ms,
            decreases self.entries.len(),
        {
            let ghost held = self.entries@;
            self.entries.remove(0);
            assert(self.entries@ =~= cleared.skip(cleared.len() - held.len() + 1));
        }
        let ghost kept = self.entries@;
        self.entries.push(entry);
        proof {
            if cleared.len() >= self.capacity {
                assert(kept.len() == self.capacity - 1);
                assert(kept.push(entry) =~= full.skip(full.len() - self.capacity));
            } else {
                assert(kept =~= cleared);
            }
            assert(self.entries@ == trimmed_to(full, self.capacity as nat));
            if old(self).wf() {
                lemma_without(before, trace_id@);
                assert forall|i: int, j: int| 0 <= i < j < self.entries@.len() implies (
                #[trigger] self.entries@[i]).trace_id@ != (
                #[trigger] self.entries@[j]).trace_id@ by {
                    let shift = full.len() - self.entries@.len();
                    assert(self.entries@[i] == full[i + shift]);
                    assert(self.entries@[j] == full[j + shift]);
                    if j + shift < cleared.len() {
                        assert(cleared[i + shift].trace_id@ != cleared[j + shift].trace_id@);
                    } else {
                        assert(cleared[i + shift].trace_id@ != trace_id@);
                    }
                }
            }
        }
    }

    /// Decides [`Self::wf`].
    pub fn is_well_formed(&self) -> (r: bool)
        ensures
            r == self.wf(),
    {
        if self.entries.len() > self.capacity {
            return false;
        }
        let mut j: usize = 0;
        while j < self.entries.len()
            invariant
                j <= self.entries@.len(),
                self.entries@.len() <= self.capacity,
                forall|a: int, b: int|
                    0 <= a < b < j ==> (#[trigger] self.entries@[a]).trace_id@ != (
                    #[trigger] self.entries@[b]).trace_id@,
            decreases self.entries.len() - j,
        {
            let mut i: usize = 0;
            while i < j
                invariant
                    i <= j < self.entries@.len(),
                    forall|a: int|
                        0 <= a < i ==> (#[trigger] self.entries@[a]).trace_id@
                            != self.entries@[j as int].trace_id@,
                decreases j - i,
            {
                if str_eq(self.entries[i].trace_id.as_str(), self.entries[j].trace_id.as_str()) {
                    return false;
                }
                i += 1;
            }
            j += 1;
        }
        true
    }
}

/// What is left without the entry of a session holds no entry of that
/// session, and no two entries of one session where there were none.
pub proof fn lemma_without<V>(entries: Seq<CacheEntry<V>>, trace_id: Seq<char>)
    requires
        distinct_sessions(entries),
    ensures
        distinct_sessions(without(entries, trace_id)),
        forall|k: int|
            0 <= k < without(entries, trace_id).len() ==> (#[trigger] without(
                entries,
                trace_id,
            )[k]).trace_id@ != trace_id,
{
    let rest = without(entries, trace_id);
    lemma_position_is_first(entries, trace_id);
    match position_of(entries, trace_id) {
        None => {},
        Some(p) => {
            assert forall|k: int| 0 <= k < rest.len() implies (#[trigger] rest[k]).trace_id@
                != trace_id by {
                if k < p {
                    assert(rest[k] == entries[k]);
                    assert(entries[k].trace_id@ != entries[p].trace_id@);
                } else {
                    assert(rest[k] == entries[k + 1]);
                    assert(entries[p].trace_id@ != entries[k + 1].trace_id@);
                }
            }
            assert forall|i: int, j: int| 0 <= i < j < rest.len() implies (
            #[trigger] rest[i]).trace_id@ != (#[trigger] rest[j]).trace_id@ by {
                let a = if i < p {
                    i
                } else {
                    i + 1
                };
                let b = if j < p {
                    j
                } else {
                    j + 1
                };
                assert(rest[i] == entries[a]);
                assert(rest[j] == entries[b]);
                assert(entries[a].trace_id@ != entries[b].trace_id@);
            }
        },
    }
}

/// Cache correctness. Once a value for a session has been put into a cache
/// of some capacity, the cache answers for that session
/// - with that value, as long as the files keep their identity and the
///   entry is within its time to live;
/// - with nothing, when the time of last change or the size of either file
///   is another, so that the session is loaded again;
/// - with nothing, when the entry has outlived its time to live.
pub proof fn lemma_cache_serves_what_is_current<V>(
    before: SummaryCache<V>,
    after: SummaryCache<V>,
    entry: CacheEntry<V>,
    key: CacheKey,
    now_ms: u64,
)
    requires
        before.wf(),
        after.wf(),
        before.capacity() > 0,
        after.capacity() == before.capacity(),
        after.ttl_ms() == before.ttl_ms(),
        after.entries() == before.entries_after_insert(entry),
    ensures
        key == entry.key && age_ms(entry.inserted_at_ms, now_ms) <= after.ttl_ms()
            ==> after.valid_entry(entry.trace_id@, key, now_ms) == Some(entry),
        key != entry.key ==> after.valid_entry(entry.trace_id@, key, now_ms) is None,
        age_ms(entry.inserted_at_ms, now_ms) > after.ttl_ms() ==> after.valid_entry(
            entry.trace_id@,
            key,
            now_ms,
        ) is None,
{
    let full = without(before.entries(), entry.trace_id@).push(entry);
    let kept = after.entries();
    assert(kept == trimmed_to(full, before.capacity()));
    let last = kept.len() - 1;
    assert(kept[last] == entry);
    assert forall|k: int| 0 <= k < last implies (#[trigger] kept[k]).trace_id@
        != entry.trace_id@ by {
        assert(kept[k].trace_id@ != kept[last].trace_id@);
    }
    lemma_first_is_position(kept, entry.trace_id@, last);
}

/// A cache of capacity zero keeps nothing: every request finds it empty and
/// loads its session.
pub proof fn lemma_cache_of_no_capacity<V>(
    cache: SummaryCache<V>,
    trace_id: Seq<char>,
    key: CacheKey,
    now_ms: u64,
)
    requires
        cache.wf(),
        cache.capacity() == 0,
    ensures
        cache.entries().len() == 0,
        cache.valid_entry(trace_id, key, now_ms) is None,
{
}

} // verus!
