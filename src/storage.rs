//! The expiring key-value store. Each write is filed under a stamp of its
//! own: the instant it was made, in nanoseconds since the Unix epoch, moved
//! past earlier stamps where the clock has not advanced; an index maps each
//! key to the stamp of its latest write. Expired entries stay until the key is
//! written again and are only hidden from reads.

use vstd::prelude::*;
use std::collections::BTreeMap;

verus! {

/// Relies on chrono's `From<SystemTime> for DateTime<Utc>` and
/// `DateTime::timestamp_nanos_opt`: the system clock in nanoseconds since the
/// Unix epoch, negative for a clock set before it, `None` outside the years
/// 1677 to 2262. The conversion handles clocks before the epoch; it unwraps
/// only for readings beyond chrono's own range of some 262,000 years.
#[verifier::external_body]
fn clock_nanos() -> (r: Option<i64>) {
    chrono::DateTime::<chrono::Utc>::from(std::time::SystemTime::now()).timestamp_nanos_opt()
}

/// The current instant, in nanoseconds since the Unix epoch; a clock before
/// the epoch reads as 0 and one outside the range of `i64` as its maximum.
pub fn now_stamp() -> (r: u64)
    ensures
        r <= i64::MAX,
{
    match clock_nanos() {
        Some(n) => if n >= 0 {
            n as u64
        } else {
            0
        },
        None => i64::MAX as u64,
    }
}

/// The expiry that means "never expires".
pub const NEVER_EXPIRES: i64 = i64::MAX;

/// The whole milliseconds of an instant.
pub open spec fn millis(stamp: u64) -> int {
    stamp as int / 1_000_000
}

/// An entry written at `stamp` with `expiry` milliseconds is alive at `now`
/// when it never expires or when its writing time plus the expiry is not
/// before `now`, both counted in whole milliseconds.
pub open spec fn alive(stamp: u64, expiry: i64, now: u64) -> bool {
    expiry == i64::MAX || millis(stamp) + expiry >= millis(now)
}

/// `after` is `before` with `value` written for `key` under the stamp `now`,
/// which becomes the latest stamp used.
pub open spec fn wrote<Value>(
    before: TimeKeyValueStorage<Value>,
    after: TimeKeyValueStorage<Value>,
    key: Seq<char>,
    value: Value,
    expiry: i64,
    now: u64,
) -> bool {
    &&& after.index() == before.index().insert(key, now)
    &&& after.entries() == before.entries().insert(now, (expiry, value))
    &&& after.last_stamp() == now
}

/// `after` is `before` with the previous entry of `key` dropped and `value`
/// written for it under the stamp `now`, which becomes the latest stamp used.
pub open spec fn replaced<Value>(
    before: TimeKeyValueStorage<Value>,
    after: TimeKeyValueStorage<Value>,
    key: Seq<char>,
    value: Value,
    expiry: i64,
    now: u64,
) -> bool {
    &&& after.index() == before.index().insert(key, now)
    &&& after.entries() == (if before.index().contains_key(key) {
        before.entries().remove(before.index()[key])
    } else {
        before.entries()
    }).insert(now, (expiry, value))
    &&& after.last_stamp() == now
}

/// Entries are filed under a stamp: the instant of the write in nanoseconds,
/// moved past every stamp used before where the clock has not advanced, so
/// that no two writes share one.
pub struct TimeKeyValueStorage<Value> {
    map: BTreeMap<u64, (i64, Value)>,
    /// Each key with the stamp of its latest write, each key once. A vector
    /// stands in for a hash map: vstd gives `HashMap` no specification for
    /// `String` keys.
    key_index: Vec<(String, u64)>,
    /// The largest stamp used so far.
    last: u64,
}

impl<Value> TimeKeyValueStorage<Value> {
    closed spec fn unique_keys(&self) -> bool {
        forall|i: int, j: int|
            0 <= i < self.key_index@.len() && 0 <= j < self.key_index@.len()
                && #[trigger] self.key_index@[i].0@ == #[trigger] self.key_index@[j].0@ ==> i == j
    }

    /// Each key appears once in the index, no stamp is past the latest one,
    /// and no two keys point at the same stamp.
    pub closed spec fn wf(&self) -> bool {
        &&& self.unique_keys()
        &&& forall|k: Seq<char>| #[trigger]
            self.index().contains_key(k) ==> self.index()[k] <= self.last
        &&& forall|k1: Seq<char>, k2: Seq<char>|
            #[trigger] self.index().contains_key(k1) && #[trigger] self.index().contains_key(k2)
                && k1 != k2 ==> self.index()[k1] != self.index()[k2]
        &&& forall|t: u64| #[trigger] self.map@.contains_key(t) ==> t <= self.last
    }

    /// The largest stamp used so far.
    pub closed spec fn last_stamp(&self) -> u64 {
        self.last
    }

    /// The stamp a write at `now` gets: `now`, or one past the latest stamp
    /// where the clock has not moved past it.
    pub open spec fn next_stamp(&self, now: u64) -> u64 {
        if now > self.last_stamp() {
            now
        } else {
            (self.last_stamp() + 1) as u64
        }
    }

    /// No fresh stamp is left for a write at `now`: the latest stamp is the
    /// largest `u64`. The clock never reads past `i64::MAX`, so this takes
    /// more than 2^63 writes.
    pub open spec fn exhausted(&self, now: u64) -> bool {
        now <= self.last_stamp() && self.last_stamp() == u64::MAX
    }

    proof fn lemma_index_same(a: &Self, b: &Self)
        requires
            a.key_index@ == b.key_index@,
        ensures
            a.index() == b.index(),
    {
        assert forall|k: Seq<char>| a.has_key(k) == b.has_key(k) by {}
        assert(a.index() =~= b.index());
    }

    closed spec fn has_key(&self, k: Seq<char>) -> bool {
        exists|i: int| 0 <= i < self.key_index@.len() && #[trigger] self.key_index@[i].0@ == k
    }

    /// Each key with the stamp of its latest write.
    pub closed spec fn index(&self) -> Map<Seq<char>, u64> {
        Map::new(
            |k: Seq<char>| self.has_key(k),
            |k: Seq<char>|
                self.key_index@[choose|i: int|
                    0 <= i < self.key_index@.len() && #[trigger] self.key_index@[i].0@ == k].1,
        )
    }

    /// The entries by stamp: expiry in milliseconds and value.
    pub closed spec fn entries(&self) -> Map<u64, (i64, Value)> {
        self.map@
    }

    /// What a read of `k` at `now` finds: the value of the key's latest
    /// write, if that entry is still held and alive.
    pub open spec fn lookup(&self, k: Seq<char>, now: u64) -> Option<Value> {
        if self.index().contains_key(k) && self.entries().contains_key(self.index()[k]) {
            let stamp = self.index()[k];
            let (expiry, value) = self.entries()[stamp];
            if alive(stamp, expiry, now) {
                Some(value)
            } else {
                None
            }
        } else {
            None
        }
    }

    proof fn lemma_index_at(&self, i: int)
        requires
            self.unique_keys(),
            0 <= i < self.key_index@.len(),
        ensures
            self.index().contains_key(self.key_index@[i].0@),
            self.index()[self.key_index@[i].0@] == self.key_index@[i].1,
    {
        let k = self.key_index@[i].0@;
        assert(self.has_key(k));
        let j = choose|j: int| 0 <= j < self.key_index@.len() && #[trigger] self.key_index@[j].0@ == k;
        assert(i == j);
    }

    pub fn new() -> (r: Self)
        ensures
            r.wf(),
            r.index() == Map::<Seq<char>, u64>::empty(),
            r.entries() == Map::<u64, (i64, Value)>::empty(),
    {
        let r = TimeKeyValueStorage { map: BTreeMap::new(), key_index: Vec::new(), last: 0 };
        assert(r.index() =~= Map::<Seq<char>, u64>::empty());
        r
    }

    fn find(&self, key: &String) -> (r: Option<usize>)
        requires
            self.unique_keys(),
        ensures
            match r {
                Some(i) => i < self.key_index@.len() && self.key_index@[i as int].0@ == key@,
                None => !self.index().contains_key(key@),
            },
    {
        let mut i: usize = 0;
        while i < self.key_index.len()
            invariant
                i <= self.key_index@.len(),
                forall|j: int| 0 <= j < i ==> #[trigger] self.key_index@[j].0@ != key@,
            decreases self.key_index@.len() - i,
        {
            if self.key_index[i].0 == *key {
                return Some(i);
            }
            i = i + 1;
        }
        None
    }

    /// The stamp of the latest write of `key`.
    pub fn get_last_modified(&self, key: &String) -> (r: Option<u64>)
        requires
            self.wf(),
        ensures
            r == (if self.index().contains_key(key@) {
                Some(self.index()[key@])
            } else {
                None::<u64>
            }),
    {
        match self.find(key) {
            Some(i) => {
                proof {
                    self.lemma_index_at(i as int);
                }
                Some(self.key_index[i].1)
            },
            None => None,
        }
    }

    /// The entry written at `timestamp`, whatever its key and expiry.
    pub fn get_by_time(&self, timestamp: u64) -> (r: Option<&(i64, Value)>)
        ensures
            match r {
                Some(e) => self.entries().contains_key(timestamp) && self.entries()[timestamp]
                    == *e,
                None => !self.entries().contains_key(timestamp),
            },
    {
        self.map.get(&timestamp)
    }

    /// Reads `key` at the instant `now`.
    pub fn get_at(&self, key: &String, now: u64) -> (r: Option<&Value>)
        requires
            self.wf(),
        ensures
            match r {
                Some(v) => self.lookup(key@, now) == Some(*v),
                None => self.lookup(key@, now) is None,
            },
    {
        let stamp = match self.get_last_modified(key) {
            Some(s) => s,
            None => return None,
        };
        match self.map.get(&stamp) {
            Some(entry) => {
                let expiry = entry.0;
                let written_ms: i64 = (stamp / 1_000_000) as i64;
                let now_ms: i64 = (now / 1_000_000) as i64;
                if expiry == i64::MAX || expiry >= now_ms - written_ms {
                    Some(&entry.1)
                } else {
                    None
                }
            },
            None => None,
        }
    }

    /// Files `value` under a fresh stamp for the instant `now` and points
    /// `key` at it. Every other key reads as before.
    pub fn insert_at(&mut self, key: String, value: Value, expiry: i64, now: u64)
        requires
            old(self).wf(),
        ensures
            final(self).wf(),
            if old(self).exhausted(now) {
                *final(self) == *old(self)
            } else {
                wrote(*old(self), *final(self), key@, value, expiry, old(self).next_stamp(now))
            },
            forall|k: Seq<char>, t: u64|
                k != key@ ==> #[trigger] final(self).lookup(k, t) == old(self).lookup(k, t),
    {
        if now <= self.last && self.last == u64::MAX {
            return;
        }
        let ghost before = *self;
        let ghost k = key@;
        let ghost v = value;
        let stamp = if now > self.last {
            now
        } else {
            self.last + 1
        };
        self.last = stamp;
        self.map.insert(stamp, (expiry, value));
        proof {
            Self::lemma_index_same(&before, self);
        }
        self.set_stamp(key, stamp);
        proof {
            assert forall|q: Seq<char>| #[trigger]
                self.index().contains_key(q) implies self.index()[q] <= self.last by {
                if q != k {
                    assert(before.index().contains_key(q));
                }
            }
            assert forall|k1: Seq<char>, k2: Seq<char>|
                #[trigger] self.index().contains_key(k1) && #[trigger] self.index().contains_key(k2)
                    && k1 != k2 implies self.index()[k1] != self.index()[k2] by {
                if k1 != k && k2 != k {
                    assert(before.index().contains_key(k1) && before.index().contains_key(k2));
                } else if k1 == k {
                    assert(before.index().contains_key(k2));
                } else {
                    assert(before.index().contains_key(k1));
                }
            }
            assert forall|t: u64| #[trigger] self.map@.contains_key(t) implies t <= self.last by {
                if t != stamp {
                    assert(before.map@.contains_key(t));
                }
            }
            assert forall|q: Seq<char>, t: u64| q != k implies #[trigger] self.lookup(q, t)
                == before.lookup(q, t) by {
                law_keys_isolated(before, *self, k, v, expiry, stamp, q, t);
            }
        }
    }

    /// Points `key` at `stamp` in the index.
    fn set_stamp(&mut self, key: String, stamp: u64)
        requires
            old(self).unique_keys(),
        ensures
            final(self).unique_keys(),
            final(self).index() == old(self).index().insert(key@, stamp),
            final(self).map@ == old(self).map@,
            final(self).last == old(self).last,
    {
        let ghost old_index = self.index();
        let now = stamp;
        let ghost k = key@;
        let ghost before = self.key_index@;
        match self.find(&key) {
            Some(i) => {
                self.key_index.set(i, (key, now));
                assert forall|a: int, b: int|
                    0 <= a < self.key_index@.len() && 0 <= b < self.key_index@.len()
                        && #[trigger] self.key_index@[a].0@ == #[trigger] self.key_index@[b].0@ implies a == b by {
                    assert(before[a].0@ == self.key_index@[a].0@);
                    assert(before[b].0@ == self.key_index@[b].0@);
                }
                assert forall|q: Seq<char>| #[trigger] self.has_key(q) == (q == k || old_index.contains_key(q)) by {
                    if q == k {
                        assert(self.key_index@[i as int].0@ == q);
                    }
                    if old_index.contains_key(q) {
                        let j = choose|j: int| 0 <= j < before.len() && #[trigger] before[j].0@ == q;
                        assert(self.key_index@[j].0@ == q);
                    }
                    if self.has_key(q) {
                        let j = choose|j: int| 0 <= j < self.key_index@.len() && #[trigger] self.key_index@[j].0@ == q;
                        assert(before[j].0@ == q);
                    }
                }
                assert forall|q: Seq<char>| #[trigger] self.has_key(q) implies self.index()[q] == old_index.insert(k, now)[q] by {
                    let j = choose|j: int| 0 <= j < self.key_index@.len() && #[trigger] self.key_index@[j].0@ == q;
                    self.lemma_index_at(j);
                    if q != k {
                        assert(j != i);
                        assert(before[j] == self.key_index@[j]);
                    }
                }
                assert(self.index() =~= old_index.insert(k, now));
            },
            None => {
                self.key_index.push((key, now));
                let ghost n = before.len() as int;
                assert forall|a: int, b: int|
                    0 <= a < self.key_index@.len() && 0 <= b < self.key_index@.len()
                        && #[trigger] self.key_index@[a].0@ == #[trigger] self.key_index@[b].0@ implies a == b by {
                    if a < n && b < n {
                        assert(before[a].0@ == self.key_index@[a].0@);
                        assert(before[b].0@ == self.key_index@[b].0@);
                    } else if a < n {
                        assert(before[a] == self.key_index@[a]);
                        assert(old_index.contains_key(k)) by {
                            assert(self.key_index@[b].0@ == k);
                        }
                    } else if b < n {
                        assert(before[b] == self.key_index@[b]);
                        assert(old_index.contains_key(k)) by {
                            assert(self.key_index@[a].0@ == k);
                        }
                    }
                }
                assert forall|q: Seq<char>| #[trigger] self.has_key(q) == (q == k || old_index.contains_key(q)) by {
                    if q == k {
                        assert(self.key_index@[n].0@ == q);
                    }
                    if old_index.contains_key(q) {
                        let j = choose|j: int| 0 <= j < before.len() && #[trigger] before[j].0@ == q;
                        assert(self.key_index@[j] == before[j]);
                    }
                    if self.has_key(q) {
                        let j = choose|j: int| 0 <= j < self.key_index@.len() && #[trigger] self.key_index@[j].0@ == q;
                        if j < n {
                            assert(before[j] == self.key_index@[j]);
                        }
                    }
                }
                assert forall|q: Seq<char>| #[trigger] self.has_key(q) implies self.index()[q] == old_index.insert(k, now)[q] by {
                    let j = choose|j: int| 0 <= j < self.key_index@.len() && #[trigger] self.key_index@[j].0@ == q;
                    self.lemma_index_at(j);
                    if q != k {
                        assert(before[j] == self.key_index@[j]);
                        assert(old_index.contains_key(q));
                        let jj = choose|jj: int| 0 <= jj < before.len() && #[trigger] before[jj].0@ == q;
                        assert(self.key_index@[jj] == before[jj]);
                        assert(jj == j);
                    }
                }
                assert(self.index() =~= old_index.insert(k, now));
            },
        }
    }

    /// Drops the previous entry of `key`, then writes `value` for it under a
    /// fresh stamp for the instant `now`. Every other key reads as before.
    pub fn update_at(&mut self, key: String, value: Value, expiry: i64, now: u64)
        requires
            old(self).wf(),
        ensures
            final(self).wf(),
            if old(self).exhausted(now) {
                *final(self) == *old(self)
            } else {
                replaced(*old(self), *final(self), key@, value, expiry, old(self).next_stamp(now))
            },
            forall|k: Seq<char>, t: u64|
                k != key@ ==> #[trigger] final(self).lookup(k, t) == old(self).lookup(k, t),
    {
        if now <= self.last && self.last == u64::MAX {
            return;
        }
        let ghost before = *self;
        let ghost k = key@;
        let ghost v = value;
        if let Some(stamp) = self.get_last_modified(&key) {
            self.map.remove(&stamp);
        }
        proof {
            Self::lemma_index_same(&before, self);
            assert forall|t: u64| #[trigger] self.map@.contains_key(t) implies t <= self.last by {
                assert(before.map@.contains_key(t));
            }
        }
        self.insert_at(key, value, expiry, now);
        proof {
            assert(before.next_stamp(now) > before.last_stamp());
            assert forall|q: Seq<char>, t: u64| q != k implies #[trigger] self.lookup(q, t)
                == before.lookup(q, t) by {
                law_keys_isolated(before, *self, k, v, expiry, before.next_stamp(now), q, t);
            }
        }
    }

    /// Writes `value` for `key` at the current instant (see `insert_at`).
    pub fn insert(&mut self, key: String, value: Value, expiry: i64)
        requires
            old(self).wf(),
        ensures
            final(self).wf(),
            exists|now: u64|
                if old(self).exhausted(now) {
                    *final(self) == *old(self)
                } else {
                    wrote(*old(self), *final(self), key@, value, expiry, old(self).next_stamp(now))
                },
            forall|k: Seq<char>, t: u64|
                k != key@ ==> #[trigger] final(self).lookup(k, t) == old(self).lookup(k, t),
    {
        let now = now_stamp();
        self.insert_at(key, value, expiry, now);
    }

    /// Drops the previous entry of `key` and writes `value` for it at the
    /// current instant (see `update_at`).
    pub fn update(&mut self, key: String, value: Value, expiry: i64)
        requires
            old(self).wf(),
        ensures
            final(self).wf(),
            exists|now: u64|
                if old(self).exhausted(now) {
                    *final(self) == *old(self)
                } else {
                    replaced(*old(self), *final(self), key@, value, expiry, old(self).next_stamp(now))
                },
            forall|k: Seq<char>, t: u64|
                k != key@ ==> #[trigger] final(self).lookup(k, t) == old(self).lookup(k, t),
    {
        let now = now_stamp();
        self.update_at(key, value, expiry, now);
    }

    /// Reads `key` at the current instant.
    pub fn get(&self, key: &String) -> (r: Option<&Value>)
        requires
            self.wf(),
        ensures
            exists|now: u64|
                match r {
                    Some(v) => self.lookup(key@, now) == Some(*v),
                    None => self.lookup(key@, now) is None,
                },
    {
        let now = now_stamp();
        self.get_at(key, now)
    }
}

/// A write that never expires is found by every later read.
pub proof fn law_never_expires<Value>(
    before: TimeKeyValueStorage<Value>,
    after: TimeKeyValueStorage<Value>,
    key: Seq<char>,
    value: Value,
    at: u64,
    later: u64,
)
    requires
        wrote(before, after, key, value, i64::MAX, at) || replaced(
            before,
            after,
            key,
            value,
            i64::MAX,
            at,
        ),
        at <= later,
    ensures
        after.lookup(key, later) == Some(value),
{
}

/// A write with expiry `e` milliseconds made at `at` is found exactly while
/// the whole milliseconds of the read are at most those of `at` plus `e`.
pub proof fn law_expiry<Value>(
    before: TimeKeyValueStorage<Value>,
    after: TimeKeyValueStorage<Value>,
    key: Seq<char>,
    value: Value,
    e: i64,
    at: u64,
    now: u64,
)
    requires
        wrote(before, after, key, value, e, at) || replaced(before, after, key, value, e, at),
        e != i64::MAX,
    ensures
        after.lookup(key, now) == (if millis(now) <= millis(at) + e {
            Some(value)
        } else {
            None::<Value>
        }),
{
}

/// After a write and an update of the same key, the key leads to the update's
/// entry, the first write's entry is gone (when the two instants differ),
/// and reads that find the key alive see the updated value.
pub proof fn law_update_supersedes<Value>(
    s0: TimeKeyValueStorage<Value>,
    s1: TimeKeyValueStorage<Value>,
    s2: TimeKeyValueStorage<Value>,
    key: Seq<char>,
    v1: Value,
    x: i64,
    t1: u64,
    v2: Value,
    y: i64,
    t2: u64,
    now: u64,
)
    requires
        wrote(s0, s1, key, v1, x, t1),
        replaced(s1, s2, key, v2, y, t2),
    ensures
        s2.index()[key] == t2,
        s2.entries()[t2] == (y, v2),
        t1 != t2 ==> !s2.entries().contains_key(t1),
        s2.lookup(key, now) == (if alive(t2, y, now) {
            Some(v2)
        } else {
            None::<Value>
        }),
{
}

/// A write of one key under a stamp past every stamp used so far leaves
/// what every other key reads unchanged: no two keys share an entry.
pub proof fn law_keys_isolated<Value>(
    before: TimeKeyValueStorage<Value>,
    after: TimeKeyValueStorage<Value>,
    key: Seq<char>,
    value: Value,
    e: i64,
    at: u64,
    other: Seq<char>,
    now: u64,
)
    requires
        before.wf(),
        at > before.last_stamp(),
        wrote(before, after, key, value, e, at) || replaced(before, after, key, value, e, at),
        other != key,
    ensures
        after.lookup(other, now) == before.lookup(other, now),
{
    if before.index().contains_key(other) {
        let s = before.index()[other];
        assert(s <= before.last_stamp());
        if before.index().contains_key(key) {
            assert(before.index()[key] != s);
        }
    }
}

} // verus!
