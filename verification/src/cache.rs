//! The diff cache: for each key the operations that were last written to it,
//! oldest key first, at most a fixed number of keys, each for a limited time.
use std::collections::hash_map::RandomState;
use std::hash::{BuildHasher, Hash};
use std::time::Duration;
use ttl_cache::TtlCache;
use vstd::prelude::*;

use crate::utils::format::{KeyView, OperationView};
use crate::utils::parser::{operation_views, AerospikeKey, AerospikeOperation};

verus! {

/// The outside cache type.
#[verifier::external_type_specification]
#[verifier::external_body]
#[verifier::reject_recursive_types(K)]
#[verifier::reject_recursive_types(V)]
#[verifier::reject_recursive_types(S)]
pub struct ExTtlCache<K: Eq + Hash, V, S: BuildHasher>(TtlCache<K, V, S>);

/// Namespace, set and digest of a key.
pub type DiffKey = (String, String, Vec<u8>);

/// The cache that holds the diffs.
pub type DiffMap = TtlCache<DiffKey, Vec<AerospikeOperation>, RandomState>;

/// One entry of a cache: a key, the operations filed under it, and for how
/// many seconds they were filed.
pub struct DiffEntry {
    pub key: KeyView,
    pub operations: Seq<OperationView>,
    pub ttl: u64,
}

/// What a cache holds, oldest entry first. An entry whose time is over is
/// held until it is replaced or pushed out; it is not found any more.
pub type Entries = Seq<DiffEntry>;

/// The longest time, in seconds, for which a diff can be cached. The moment at
/// which an entry expires is a point in time that the platform must be able to
/// represent; with this limit it can.
pub const MAX_DIFF_TTL: u64 = 0xffff_ffff;

/// What a cache holds, oldest entry first.
pub uninterp spec fn diff_entries(cache: DiffMap) -> Entries;

/// The number of entries that a cache was made for.
pub uninterp spec fn diff_capacity(cache: DiffMap) -> nat;

/// The view of a key in the cache.
pub open spec fn diff_key_view(key: DiffKey) -> KeyView {
    KeyView { namespace: key.0@, set: key.1@, digest: key.2@ }
}

/// The entries whose key is not `key`.
pub open spec fn without_key(entries: Entries, key: KeyView) -> Entries
    decreases entries.len(),
{
    if entries.len() == 0 {
        entries
    } else if entries.last().key == key {
        without_key(entries.drop_last(), key)
    } else {
        without_key(entries.drop_last(), key).push(entries.last())
    }
}

/// The entries after `entry` was stored: it is the youngest and the only one
/// of its key, and the oldest goes if there are too many.
pub open spec fn stored(entries: Entries, capacity: nat, entry: DiffEntry) -> Entries {
    let all = without_key(entries, entry.key).push(entry);
    if all.len() > capacity {
        all.drop_first()
    } else {
        all
    }
}

/// The operations that are held for `key`.
pub open spec fn lookup(entries: Entries, key: KeyView) -> Option<Seq<OperationView>>
    decreases entries.len(),
{
    if entries.len() == 0 {
        None
    } else if entries.last().key == key {
        Some(entries.last().operations)
    } else {
        lookup(entries.drop_last(), key)
    }
}

/// Whether a cache is in order: no more entries than its capacity, and no key
/// twice.
pub open spec fn in_order(entries: Entries, capacity: nat) -> bool {
    &&& entries.len() <= capacity
    &&& forall|i: int, j: int|
        0 <= i < j < entries.len() ==> #[trigger] entries[i].key != #[trigger] entries[j].key
}

/// Whether no entry has the key.
spec fn lacks(entries: Entries, key: KeyView) -> bool {
    forall|i: int| 0 <= i < entries.len() ==> #[trigger] entries[i].key != key
}

/// Leaving out a key adds no other.
proof fn lemma_without_key_lacks(entries: Entries, key: KeyView, other: KeyView)
    requires
        lacks(entries, other) || other == key,
    ensures
        lacks(without_key(entries, key), other),
    decreases entries.len(),
{
    if entries.len() > 0 {
        let front = entries.drop_last();
        if lacks(entries, other) {
            assert(entries[entries.len() - 1].key != other);
            assert forall|i: int| 0 <= i < front.len() implies #[trigger] front[i].key
                != other by {
                assert(front[i] == entries[i]);
            }
        }
        lemma_without_key_lacks(front, key, other);
    }
}

/// Leaving out a key leaves a cache in order.
proof fn lemma_without_key_in_order(entries: Entries, capacity: nat, key: KeyView)
    requires
        in_order(entries, capacity),
    ensures
        in_order(without_key(entries, key), capacity),
        without_key(entries, key).len() <= entries.len(),
    decreases entries.len(),
{
    if entries.len() > 0 {
        let front = entries.drop_last();
        let last = entries.last();
        assert forall|i: int, j: int| 0 <= i < j < front.len() implies #[trigger] front[i].key
            != #[trigger] front[j].key by {
            assert(front[i] == entries[i] && front[j] == entries[j]);
        }
        lemma_without_key_in_order(front, capacity, key);
        assert(lacks(front, last.key)) by {
            assert forall|i: int| 0 <= i < front.len() implies #[trigger] front[i].key
                != last.key by {
                assert(front[i] == entries[i]);
                assert(entries[i].key != entries[entries.len() - 1].key);
            }
        }
        lemma_without_key_lacks(front, key, last.key);
    }
}

/// Leaving out a key changes nothing for another.
proof fn lemma_without_key_lookup(entries: Entries, key: KeyView, other: KeyView)
    requires
        other != key,
    ensures
        lookup(without_key(entries, key), other) == lookup(entries, other),
    decreases entries.len(),
{
    if entries.len() > 0 {
        let w = without_key(entries.drop_last(), key);
        lemma_without_key_lookup(entries.drop_last(), key, other);
        assert(w.push(entries.last()).drop_last() =~= w);
    }
}

/// Dropping the oldest entry hides no key but its own.
proof fn lemma_drop_first(entries: Entries, key: KeyView)
    requires
        entries.len() > 0,
    ensures
        key != entries[0].key ==> lookup(entries.drop_first(), key) == lookup(entries, key),
        lookup(entries.drop_first(), key) is None || lookup(entries.drop_first(), key) == lookup(
            entries,
            key,
        ),
    decreases entries.len(),
{
    reveal_with_fuel(lookup, 2);
    if entries.len() > 1 {
        assert(entries.drop_first().drop_last() =~= entries.drop_last().drop_first());
        assert(entries.drop_first().last() == entries.last());
        lemma_drop_first(entries.drop_last(), key);
    } else {
        assert(entries.drop_last() =~= Entries::empty());
    }
}

/// Storing keeps a cache in order.
pub proof fn law_stored_in_order(entries: Entries, capacity: nat, entry: DiffEntry)
    requires
        in_order(entries, capacity),
    ensures
        in_order(stored(entries, capacity, entry), capacity),
{
    lemma_without_key_in_order(entries, capacity, entry.key);
    lemma_without_key_lacks(entries, entry.key, entry.key);
    let w = without_key(entries, entry.key);
    let all = w.push(entry);
    assert forall|i: int, j: int| 0 <= i < j < all.len() implies #[trigger] all[i].key
        != #[trigger] all[j].key by {
        assert(all[i] == w[i]);
        if j < w.len() {
            assert(all[j] == w[j]);
        }
    }
    assert forall|i: int, j: int| 0 <= i < j < all.drop_first().len() implies #[trigger] all.drop_first()[i].key
        != #[trigger] all.drop_first()[j].key by {
        assert(all.drop_first()[i] == all[i + 1] && all.drop_first()[j] == all[j + 1]);
    }
}

/// What was stored is what is held for its key, in a cache that holds
/// anything.
pub proof fn law_stored_is_held(entries: Entries, capacity: nat, entry: DiffEntry)
    requires
        capacity > 0,
    ensures
        lookup(stored(entries, capacity, entry), entry.key) == Some(entry.operations),
        stored(entries, capacity, entry).last() == entry,
{
    let all = without_key(entries, entry.key).push(entry);
    assert(all.len() > capacity ==> all.drop_first().last() == entry);
}

/// Storing under one key changes nothing for another, unless that was the
/// oldest and there was no room: then nothing is held for it.
pub proof fn law_stored_leaves_others(
    entries: Entries,
    capacity: nat,
    entry: DiffEntry,
    other: KeyView,
)
    requires
        other != entry.key,
    ensures
        ({
            let rest = without_key(entries, entry.key);
            let after = lookup(stored(entries, capacity, entry), other);
            &&& after is None || after == lookup(entries, other)
            &&& rest.len() < capacity || rest[0].key != other ==> after == lookup(entries, other)
        }),
{
    lemma_without_key_lookup(entries, entry.key, other);
    let rest = without_key(entries, entry.key);
    let all = rest.push(entry);
    assert(all.drop_last() =~= rest);
    assert(lookup(all, other) == lookup(entries, other));
    lemma_drop_first(all, other);
}

/// How many entries are younger than the youngest of `key`.
pub open spec fn younger(entries: Entries, key: KeyView) -> nat
    decreases entries.len(),
{
    if entries.len() == 0 || entries.last().key == key {
        0
    } else {
        1 + younger(entries.drop_last(), key)
    }
}

/// Leaving out another key puts no younger entries behind a key.
proof fn lemma_without_key_younger(entries: Entries, key: KeyView, other: KeyView)
    requires
        other != key,
    ensures
        younger(without_key(entries, key), other) <= younger(entries, other),
    decreases entries.len(),
{
    if entries.len() > 0 {
        let w = without_key(entries.drop_last(), key);
        lemma_without_key_younger(entries.drop_last(), key, other);
        assert(w.push(entries.last()).drop_last() =~= w);
    }
}

/// Dropping the oldest entry keeps a key that has fewer younger entries than
/// are left, and the number of those.
proof fn lemma_drop_first_younger(entries: Entries, key: KeyView)
    requires
        lookup(entries, key) is Some,
        younger(entries, key) + 1 < entries.len(),
    ensures
        lookup(entries.drop_first(), key) == lookup(entries, key),
        younger(entries.drop_first(), key) == younger(entries, key),
    decreases entries.len(),
{
    assert(entries.drop_first().last() == entries.last());
    if entries.last().key != key {
        assert(entries.drop_first().drop_last() =~= entries.drop_last().drop_first());
        lemma_drop_first_younger(entries.drop_last(), key);
    }
}

/// Storing under one key keeps what is held for another, as long as that has
/// room for one more younger entry, and adds at most one younger entry.
pub proof fn law_stored_keeps_younger(
    entries: Entries,
    capacity: nat,
    entry: DiffEntry,
    other: KeyView,
)
    requires
        other != entry.key,
        lookup(entries, other) is Some,
        younger(entries, other) + 1 < capacity,
    ensures
        lookup(stored(entries, capacity, entry), other) == lookup(entries, other),
        younger(stored(entries, capacity, entry), other) <= younger(entries, other) + 1,
{
    lemma_without_key_lookup(entries, entry.key, other);
    lemma_without_key_younger(entries, entry.key, other);
    let rest = without_key(entries, entry.key);
    let all = rest.push(entry);
    assert(all.drop_last() =~= rest);
    if all.len() > capacity {
        lemma_drop_first_younger(all, other);
    }
}

/// `TtlCache::new`: an empty cache for `capacity` entries.
#[verifier::external_body]
fn outside_new(capacity: usize) -> (r: DiffMap)
    ensures
        diff_entries(r) == Entries::empty(),
        diff_capacity(r) == capacity,
{
    TtlCache::new(capacity)
}

/// `TtlCache::insert` with a time to live of `ttl` seconds: files the
/// operations under the key as the youngest entry, in place of what the key
/// had, and drops the oldest entry if there are more than the capacity.
#[verifier::external_body]
fn outside_insert(cache: &mut DiffMap, key: DiffKey, operations: Vec<AerospikeOperation>, ttl: u64)
    requires
        ttl <= MAX_DIFF_TTL,
    ensures
        diff_entries(*final(cache)) == stored(
            diff_entries(*old(cache)),
            diff_capacity(*old(cache)),
            (DiffEntry {
                key: diff_key_view(key),
                operations: operation_views(operations@),
                ttl,
            }),
        ),
        diff_capacity(*final(cache)) == diff_capacity(*old(cache)),
{
    cache.insert(key, operations, Duration::from_secs(ttl));
}

/// `TtlCache::get`: the operations that are held for the key, or nothing. A
/// key that is not held gives nothing; one that is held gives nothing once its
/// time is over, and whether it is depends on the clock.
#[verifier::external_body]
fn outside_get<'a>(cache: &'a DiffMap, key: &DiffKey) -> (r: Option<&'a Vec<AerospikeOperation>>)
    ensures
        match r {
            Some(operations) => lookup(diff_entries(*cache), diff_key_view(*key)) == Some(
                operation_views(operations@),
            ),
            None => true,
        },
{
    cache.get(key)
}

/// `TtlCache::contains_key`: whether the key is held and its time is not over,
/// which depends on the clock.
#[verifier::external_body]
fn outside_contains_key(cache: &DiffMap, key: &DiffKey) -> (r: bool)
    ensures
        r ==> lookup(diff_entries(*cache), diff_key_view(*key)) is Some,
{
    cache.contains_key(key)
}

/// A key as the cache files it.
fn diff_key(key: &AerospikeKey) -> (r: DiffKey)
    ensures
        diff_key_view(r) == key@,
{
    let digest = key.digest.clone();
    assert(digest@ =~= key.digest@);
    (key.namespace.clone(), key.set.clone(), digest)
}

/// The operations that were last written, by key.
pub struct DiffCache {
    map: DiffMap,
}

impl View for DiffCache {
    type V = Entries;

    closed spec fn view(&self) -> Entries {
        diff_entries(self.map)
    }
}

impl DiffCache {
    /// The number of keys that the cache was made for.
    pub closed spec fn capacity(&self) -> nat {
        diff_capacity(self.map)
    }

    /// An empty cache for `capacity` keys.
    pub fn new(capacity: usize) -> (r: DiffCache)
        ensures
            r@ == Entries::empty(),
            r.capacity() == capacity,
    {
        DiffCache { map: outside_new(capacity) }
    }

    /// Files the operations under the key for `ttl` seconds.
    pub fn insert(&mut self, key: AerospikeKey, operations: Vec<AerospikeOperation>, ttl: u64)
        requires
            ttl <= MAX_DIFF_TTL,
        ensures
            final(self)@ == stored(
                old(self)@,
                old(self).capacity(),
                (DiffEntry { key: key@, operations: operation_views(operations@), ttl }),
            ),
            final(self).capacity() == old(self).capacity(),
    {
        outside_insert(&mut self.map, (key.namespace, key.set, key.digest), operations, ttl);
    }

    /// The operations that are held for the key, unless their time is over.
    pub fn get(&self, key: &AerospikeKey) -> (r: Option<&Vec<AerospikeOperation>>)
        ensures
            match r {
                Some(operations) => lookup(self@, key@) == Some(operation_views(operations@)),
                None => true,
            },
    {
        outside_get(&self.map, &diff_key(key))
    }

    /// Whether operations are held for the key and their time is not over.
    pub fn contains_key(&self, key: &AerospikeKey) -> (r: bool)
        ensures
            r ==> lookup(self@, key@) is Some,
    {
        outside_contains_key(&self.map, &diff_key(key))
    }
}

} // verus!
