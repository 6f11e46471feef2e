use vstd::prelude::*;
use vstd::hash_map::StringHashMap;

use crate::error::StoreError;

verus! {

/// The volatile storage medium: a process-local mapping from string keys to
/// binary values, used when no durable location is configured.  It holds the
/// same logical content as the durable medium — a map from key to value with
/// idempotent upsert and point lookup — but does not survive the process.
///
/// Its abstract state (the view) is the map from each key ever written to
/// the value of the last write to it.
pub struct MemBackend {
    entries: StringHashMap<Vec<u8>>,
}

impl View for MemBackend {
    type V = Map<Seq<char>, Seq<u8>>;

    closed spec fn view(&self) -> Map<Seq<char>, Seq<u8>> {
        Map::new(
            |k: Seq<char>| self.entries@.contains_key(k),
            |k: Seq<char>| self.entries@[k]@,
        )
    }
}

impl MemBackend {
    /// Opens a fresh volatile medium.  Nothing has been written to it, so
    /// its content is the empty map; opening cannot fail.
    pub fn open() -> (backend: Self)
        ensures
            backend@ == Map::<Seq<char>, Seq<u8>>::empty(),
    {
        let backend = MemBackend { entries: StringHashMap::new() };
        proof {
            assert(backend@ =~= Map::<Seq<char>, Seq<u8>>::empty());
        }
        backend
    }

    /// Inserts the entry if the key is absent, otherwise replaces its value:
    /// last write wins.  On a volatile medium there is no fault to meet, so
    /// the result is always `Ok` and the content afterwards is exactly the
    /// old content with this one binding added or replaced.
    pub fn upsert(&mut self, key: String, value: Vec<u8>) -> (result: Result<(), StoreError>)
        ensures
            result is Ok,
            final(self)@ == old(self)@.insert(key@, value@),
    {
        self.entries.insert(key, value);
        proof {
            assert(self@ =~= old(self)@.insert(key@, value@));
        }
        Ok(())
    }

    /// Returns the value of the last write to `key`, or `None` if the key
    /// was never written.  On a volatile medium a lookup cannot fail.
    pub fn lookup(&self, key: &str) -> (result: Result<Option<Vec<u8>>, StoreError>)
        ensures
            result is Ok,
            match result {
                Ok(Some(value)) => self@.contains_key(key@) && value@ == self@[key@],
                Ok(None) => !self@.contains_key(key@),
                Err(_) => false,
            },
    {
        match self.entries.get(key) {
            Some(value) => Ok(Some(value.clone())),
            None => Ok(None),
        }
    }
}

/// Round trip: a write followed by a read of the same key yields exactly the
/// value written.  `upsert` turns the content `store` into
/// `store.insert(key, value)`, and this is the content `lookup` then answers
/// from.
pub proof fn lemma_round_trip(store: Map<Seq<char>, Seq<u8>>, key: Seq<char>, value: Seq<u8>)
    ensures
        store.insert(key, value).contains_key(key),
        store.insert(key, value)[key] == value,
{
}

/// Overwrite: after two writes to the same key, a read yields the second
/// value, never the first.
pub proof fn lemma_overwrite(
    store: Map<Seq<char>, Seq<u8>>,
    key: Seq<char>,
    first: Seq<u8>,
    second: Seq<u8>,
)
    ensures
        store.insert(key, first).insert(key, second).contains_key(key),
        store.insert(key, first).insert(key, second)[key] == second,
{
}

/// Absence: a freshly opened volatile medium holds no key at all, so a read
/// of a never-written key answers `None`.
pub proof fn lemma_absent_when_never_written(key: Seq<char>)
    ensures
        !Map::<Seq<char>, Seq<u8>>::empty().contains_key(key),
{
}

/// Independence across keys: a write to one key neither adds, removes nor
/// changes any other key.  A waiter on `key` is therefore never satisfied by
/// a write to `other`; its re-check finds `key` exactly as before.
pub proof fn lemma_write_other_key(
    store: Map<Seq<char>, Seq<u8>>,
    key: Seq<char>,
    other: Seq<char>,
    value: Seq<u8>,
)
    requires
        key != other,
    ensures
        store.insert(other, value).contains_key(key) == store.contains_key(key),
        store.contains_key(key) ==> store.insert(other, value)[key] == store[key],
{
}

/// The content after a sequence of writes has committed, in commit order:
/// each write upserts its key in turn.
pub open spec fn apply_writes(
    store: Map<Seq<char>, Seq<u8>>,
    writes: Seq<(Seq<char>, Seq<u8>)>,
) -> Map<Seq<char>, Seq<u8>>
    decreases writes.len(),
{
    if writes.len() == 0 {
        store
    } else {
        apply_writes(store, writes.drop_last()).insert(writes.last().0, writes.last().1)
    }
}

/// Whether some write in the sequence is to `key`.
pub open spec fn writes_touch(writes: Seq<(Seq<char>, Seq<u8>)>, key: Seq<char>) -> bool {
    exists|i: int| 0 <= i < writes.len() && writes[i].0 == key
}

/// The value of the last write to `key` in the sequence.
pub open spec fn last_value_for(writes: Seq<(Seq<char>, Seq<u8>)>, key: Seq<char>) -> Seq<u8>
    recommends
        writes_touch(writes, key),
    decreases writes.len(),
{
    if writes.len() == 0 {
        Seq::empty()
    } else if writes.last().0 == key {
        writes.last().1
    } else {
        last_value_for(writes.drop_last(), key)
    }
}

/// Last write wins.  After any sequence of writes has committed, each key
/// holds the value of the last write to it in commit order, and a key no
/// write touched is exactly as it was.  In particular, concurrent writes to
/// one key leave it holding exactly one of the values written — whichever
/// committed last — never a mixture.
pub proof fn lemma_last_write_wins(
    store: Map<Seq<char>, Seq<u8>>,
    writes: Seq<(Seq<char>, Seq<u8>)>,
    key: Seq<char>,
)
    ensures
        writes_touch(writes, key) ==> {
            &&& apply_writes(store, writes).contains_key(key)
            &&& apply_writes(store, writes)[key] == last_value_for(writes, key)
        },
        !writes_touch(writes, key) ==> {
            &&& apply_writes(store, writes).contains_key(key) == store.contains_key(key)
            &&& store.contains_key(key) ==> apply_writes(store, writes)[key] == store[key]
        },
    decreases writes.len(),
{
    if writes.len() > 0 {
        lemma_last_write_wins(store, writes.drop_last(), key);
        if writes.last().0 != key {
            if writes_touch(writes, key) {
                let i = choose|i: int| 0 <= i < writes.len() && writes[i].0 == key;
                assert(writes.drop_last()[i] == writes[i]);
                assert(writes_touch(writes.drop_last(), key));
            }
            if writes_touch(writes.drop_last(), key) {
                let i = choose|i: int| 0 <= i < writes.drop_last().len()
                    && writes.drop_last()[i].0 == key;
                assert(writes[i] == writes.drop_last()[i]);
                assert(writes_touch(writes, key));
            }
        }
    }
}

/// One of the written values.  Restated from `lemma_last_write_wins` for the
/// case of several writers racing on one key: the key ends up holding some
/// `writes[i]`'s value, decided by commit order alone.
pub proof fn lemma_concurrent_writers_one_value(
    store: Map<Seq<char>, Seq<u8>>,
    writes: Seq<(Seq<char>, Seq<u8>)>,
    key: Seq<char>,
)
    requires
        writes.len() > 0,
        forall|i: int| 0 <= i < writes.len() ==> (#[trigger] writes[i]).0 == key,
    ensures
        apply_writes(store, writes).contains_key(key),
        exists|i: int|
            0 <= i < writes.len() && apply_writes(store, writes)[key] == (#[trigger] writes[i]).1,
{
    assert(writes[writes.len() - 1].0 == key);
    assert(writes_touch(writes, key));
    lemma_last_write_wins(store, writes, key);
    lemma_last_value_is_some_write(writes, key);
}

/// The value of the last write to `key` is among the values written to it.
proof fn lemma_last_value_is_some_write(writes: Seq<(Seq<char>, Seq<u8>)>, key: Seq<char>)
    requires
        writes_touch(writes, key),
    ensures
        exists|i: int|
            0 <= i < writes.len() && (#[trigger] writes[i]).0 == key
                && last_value_for(writes, key) == writes[i].1,
    decreases writes.len(),
{
    if writes.last().0 == key {
        assert(writes[writes.len() - 1].0 == key && last_value_for(writes, key)
            == writes[writes.len() - 1].1);
    } else {
        let j = choose|j: int| 0 <= j < writes.len() && writes[j].0 == key;
        assert(writes.drop_last()[j] == writes[j]);
        assert(writes_touch(writes.drop_last(), key));
        lemma_last_value_is_some_write(writes.drop_last(), key);
        let i = choose|i: int|
            0 <= i < writes.drop_last().len() && (#[trigger] writes.drop_last()[i]).0 == key
                && last_value_for(writes.drop_last(), key) == writes.drop_last()[i].1;
        assert(writes[i] == writes.drop_last()[i]);
        assert(writes[i].0 == key && last_value_for(writes, key) == writes[i].1);
    }
}

} // verus!
