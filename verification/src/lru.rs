//! Bounded maps that forget what was not used for longest.
//!
//! The maps themselves are `schnellru::LruMap`s limited by their length. What one holds is a list
//! of keys and values in which the most recently used comes first.

use schnellru::{ByLength, LruMap};
use vstd::prelude::*;

use crate::parlia::types::Snapshot;
use crate::primitives::{BlockHash, PeerId};

verus! {

/// Whether `key` is in the list.
pub open spec fn holds<T>(entries: Seq<(BlockHash, T)>, key: BlockHash) -> bool {
    exists|i: int| 0 <= i < entries.len() && (#[trigger] entries[i]).0 == key
}

/// The value of `key`.
pub open spec fn value_of<T>(entries: Seq<(BlockHash, T)>, key: BlockHash) -> T
    recommends
        holds(entries, key),
{
    entries[choose|i: int| 0 <= i < entries.len() && (#[trigger] entries[i]).0 == key].1
}

/// The list without `key`.
pub open spec fn others<T>(entries: Seq<(BlockHash, T)>, key: BlockHash) -> Seq<(BlockHash, T)> {
    entries.filter(|e: (BlockHash, T)| e.0 != key)
}

/// No key occurs twice.
pub open spec fn distinct<T>(entries: Seq<(BlockHash, T)>) -> bool {
    forall|i: int, j: int|
        0 <= i < j < entries.len() ==> (#[trigger] entries[i]).0 != (#[trigger] entries[j]).0
}

/// In a list of distinct keys, the value of a key is the one beside it.
pub proof fn lemma_value_at<T>(entries: Seq<(BlockHash, T)>, i: int)
    requires
        distinct(entries),
        0 <= i < entries.len(),
    ensures
        holds(entries, entries[i].0),
        value_of(entries, entries[i].0) == entries[i].1,
{
    let key = entries[i].0;
    assert(holds(entries, key));
    let j = choose|j: int| 0 <= j < entries.len() && (#[trigger] entries[j]).0 == key;
    assert(entries[j].0 == entries[i].0);
}

/// Without a key, a list keeps all its other entries in their order.
pub proof fn lemma_others<T>(entries: Seq<(BlockHash, T)>, key: BlockHash)
    ensures
        forall|i: int|
            0 <= i < others(entries, key).len() ==> (#[trigger] others(entries, key)[i]).0 != key
                && entries.contains(others(entries, key)[i]),
        forall|i: int|
            0 <= i < entries.len() && (#[trigger] entries[i]).0 != key ==> others(
                entries,
                key,
            ).contains(entries[i]),
        distinct(entries) ==> distinct(others(entries, key)),
        others(entries, key).len() <= entries.len(),
        holds(entries, key) ==> others(entries, key).len() < entries.len(),
    decreases entries.len(),
{
    broadcast use vstd::seq_lib::lemma_seq_contains_after_push;

    reveal(Seq::filter);
    if entries.len() > 0 {
        let init = entries.drop_last();
        let last = entries.last();
        lemma_others(init, key);
        assert(entries =~= init.push(last));
        assert forall|i: int| 0 <= i < entries.len() && (#[trigger] entries[i]).0
            != key implies others(entries, key).contains(entries[i]) by {
            if i < init.len() {
                assert(init[i] == entries[i]);
            }
        }
        assert forall|i: int| 0 <= i < others(entries, key).len() implies (#[trigger] others(
            entries,
            key,
        )[i]).0 != key && entries.contains(others(entries, key)[i]) by {
            if i < others(init, key).len() {
                assert(others(entries, key)[i] == others(init, key)[i]);
            }
        }
        if distinct(entries) {
            assert(distinct(init));
            assert forall|i: int, j: int|
                0 <= i < j < others(entries, key).len() implies (#[trigger] others(
                entries,
                key,
            )[i]).0 != (#[trigger] others(entries, key)[j]).0 by {
                assert(others(entries, key)[i] == others(init, key)[i]);
                if j < others(init, key).len() {
                    assert(others(entries, key)[j] == others(init, key)[j]);
                } else {
                    let e = others(init, key)[i];
                    let m = init.index_of(e);
                    assert(entries[m] == e);
                }
            }
        }
        if holds(entries, key) && last.0 != key {
            let i = choose|i: int| 0 <= i < entries.len() && (#[trigger] entries[i]).0 == key;
            assert(init[i].0 == key);
        }
    }
}

/// No key occurs twice after `key` was given `value` and moved to the front.
pub proof fn lemma_renewed<T>(entries: Seq<(BlockHash, T)>, key: BlockHash, value: T)
    requires
        distinct(entries),
    ensures
        distinct(seq![(key, value)] + others(entries, key)),
        holds(entries, key) ==> (seq![(key, value)] + others(entries, key)).len() <= entries.len(),
{
    lemma_others(entries, key);
    let rest = others(entries, key);
    let renewed = seq![(key, value)] + rest;
    assert forall|i: int, j: int| 0 <= i < j < renewed.len() implies (#[trigger] renewed[i]).0 != (
    #[trigger] renewed[j]).0 by {
        assert(renewed[j] == rest[j - 1]);
        if i > 0 {
            assert(renewed[i] == rest[i - 1]);
        }
    }
}

/// How many entries stay when a new one comes to a list that may hold `limit`, which is not zero.
pub open spec fn kept<T>(entries: Seq<(BlockHash, T)>, limit: nat) -> int {
    if entries.len() < limit {
        entries.len() as int
    } else {
        limit - 1
    }
}

/// The list after `key` was put into it with `value`, where it may hold `limit` entries: the key is
/// the most recently used one. A new key takes the place of the one that was not used for longest,
/// where there is no room. A list that may hold nothing does not take it.
pub open spec fn put<T>(
    entries: Seq<(BlockHash, T)>,
    limit: nat,
    key: BlockHash,
    value: T,
) -> Seq<(BlockHash, T)> {
    if holds(entries, key) {
        seq![(key, value)] + others(entries, key)
    } else if limit == 0 {
        entries
    } else {
        seq![(key, value)] + entries.take(kept(entries, limit))
    }
}

/// The limit is kept and no key occurs twice, whatever is put into a list.
pub proof fn lemma_put<T>(entries: Seq<(BlockHash, T)>, limit: nat, key: BlockHash, value: T)
    requires
        distinct(entries),
        entries.len() <= limit,
    ensures
        distinct(put(entries, limit, key, value)),
        put(entries, limit, key, value).len() <= limit,
        forall|i: int|
            0 <= i < put(entries, limit, key, value).len() ==> {
                let e = #[trigger] put(entries, limit, key, value)[i];
                e == (key, value) || entries.contains(e)
            },
{
    let after = put(entries, limit, key, value);
    if holds(entries, key) {
        lemma_renewed(entries, key, value);
        lemma_others(entries, key);
        assert forall|i: int| 0 <= i < after.len() implies #[trigger] after[i] == (key, value)
            || entries.contains(after[i]) by {
            if i > 0 {
                assert(after[i] == others(entries, key)[i - 1]);
            }
        }
    } else if limit > 0 {
        assert forall|i: int, j: int| 0 <= i < j < after.len() implies (#[trigger] after[i]).0 != (
        #[trigger] after[j]).0 by {
            assert(after[j] == entries[j - 1]);
            if i > 0 {
                assert(after[i] == entries[i - 1]);
            }
        }
        assert forall|i: int| 0 <= i < after.len() implies #[trigger] after[i] == (key, value)
            || entries.contains(after[i]) by {
            if i > 0 {
                assert(after[i] == entries[i - 1]);
            }
        }
    }
}

/// Up to this limit a map never runs short of places in its table: one for this many entries can be
/// doubled once more before its places can no longer be numbered.
pub const EXACT_LIMIT: u32 = 939_524_096;

/// What a list that may hold `limit` entries can be after `key` was put into it with `value`. Only a
/// list with a limit above `EXACT_LIMIT` may lose more than the one entry that makes room for a new
/// key: those that were not used for longest, while its table runs short of places.
pub open spec fn stored<T>(
    before: Seq<(BlockHash, T)>,
    limit: nat,
    key: BlockHash,
    value: T,
    after: Seq<(BlockHash, T)>,
) -> bool {
    if limit <= EXACT_LIMIT || holds(before, key) {
        after == put(before, limit, key, value)
    } else {
        exists|n: int|
            0 <= n <= before.len() && n < limit && after == seq![(key, value)]
                + #[trigger] before.take(n)
    }
}

/// The limit is kept and no key occurs twice, and what is there was there before or is what was put.
pub proof fn lemma_stored<T>(
    before: Seq<(BlockHash, T)>,
    limit: nat,
    key: BlockHash,
    value: T,
    after: Seq<(BlockHash, T)>,
)
    requires
        distinct(before),
        before.len() <= limit,
        stored(before, limit, key, value, after),
    ensures
        distinct(after),
        after.len() <= limit,
        limit > 0 ==> after.len() > 0 && after[0] == (key, value),
        forall|i: int|
            0 <= i < after.len() ==> #[trigger] after[i] == (key, value) || before.contains(
                after[i],
            ),
{
    if limit <= EXACT_LIMIT || holds(before, key) {
        lemma_put(before, limit, key, value);
    } else {
        let n = choose|n: int|
            0 <= n <= before.len() && n < limit && after == seq![(key, value)]
                + #[trigger] before.take(n);
        assert forall|i: int, j: int| 0 <= i < j < after.len() implies (#[trigger] after[i]).0 != (
        #[trigger] after[j]).0 by {
            assert(after[j] == before[j - 1]);
            if i > 0 {
                assert(after[i] == before[i - 1]);
            }
        }
        assert forall|i: int| 0 <= i < after.len() implies #[trigger] after[i] == (key, value)
            || before.contains(after[i]) by {
            if i > 0 {
                assert(after[i] == before[i - 1]);
            }
        }
    }
}

/// A list that may hold something gives back what was put into it.
pub proof fn law_stored_is_found<T>(
    before: Seq<(BlockHash, T)>,
    limit: nat,
    key: BlockHash,
    value: T,
    after: Seq<(BlockHash, T)>,
)
    requires
        distinct(before),
        before.len() <= limit,
        limit > 0,
        stored(before, limit, key, value, after),
    ensures
        holds(after, key),
        value_of(after, key) == value,
{
    lemma_stored(before, limit, key, value, after);
    lemma_value_at(after, 0);
}

/// What stays in a list when something is put into it keeps its value, and nothing else comes in.
pub proof fn law_what_stays_keeps_its_value<T>(
    before: Seq<(BlockHash, T)>,
    limit: nat,
    key: BlockHash,
    value: T,
    after: Seq<(BlockHash, T)>,
    other: BlockHash,
)
    requires
        distinct(before),
        before.len() <= limit,
        stored(before, limit, key, value, after),
        other != key,
        holds(after, other),
    ensures
        holds(before, other),
        value_of(after, other) == value_of(before, other),
{
    lemma_stored(before, limit, key, value, after);
    let i = choose|i: int| 0 <= i < after.len() && (#[trigger] after[i]).0 == other;
    let m = before.index_of(after[i]);
    assert(before[m] == after[i]);
    lemma_value_at(after, i);
    lemma_value_at(before, m);
}

/// What is put into a list costs at most one other entry its place, and only where there is no
/// room: the one that was not used for longest. All others keep their values, and none comes in
/// with it.
pub proof fn law_only_the_oldest_is_forgotten<T>(
    entries: Seq<(BlockHash, T)>,
    limit: nat,
    key: BlockHash,
    value: T,
    other: BlockHash,
)
    requires
        distinct(entries),
        entries.len() <= limit,
        other != key,
    ensures
        holds(put(entries, limit, key, value), other) <==> holds(entries, other) && !(!holds(
            entries,
            key,
        ) && limit > 0 && entries.len() == limit && entries.last().0 == other),
        holds(put(entries, limit, key, value), other) ==> value_of(
            put(entries, limit, key, value),
            other,
        ) == value_of(entries, other),
{
    let after = put(entries, limit, key, value);
    lemma_put(entries, limit, key, value);
    lemma_others(entries, key);
    if holds(after, other) {
        let i = choose|i: int| 0 <= i < after.len() && (#[trigger] after[i]).0 == other;
        let m = entries.index_of(after[i]);
        assert(entries[m] == after[i]);
        lemma_value_at(after, i);
        lemma_value_at(entries, m);
        if !holds(entries, key) && limit > 0 && entries.len() == limit {
            assert(after[i] == entries[i - 1]);
            assert(entries[i - 1].0 != entries[entries.len() - 1].0);
        }
    }
    if holds(entries, other) {
        let i = choose|i: int| 0 <= i < entries.len() && (#[trigger] entries[i]).0 == other;
        if holds(entries, key) {
            let m = others(entries, key).index_of(entries[i]);
            assert(after[m + 1].0 == other);
        } else if limit > 0 && i < kept(entries, limit) {
            assert(after[i + 1] == entries[i]);
        }
    }
}

/// Peers that announced a block, by its hash.
#[verifier::external_body]
pub struct AnnouncerMap {
    inner: LruMap<[u8; 32], Vec<[u8; 64]>, ByLength>,
}

/// What the map holds, the most recently used first.
pub uninterp spec fn announcer_entries(map: AnnouncerMap) -> Seq<([u8; 32], Seq<[u8; 64]>)>;

/// How many hashes the map was made to hold.
pub uninterp spec fn announcer_limit(map: AnnouncerMap) -> nat;

/// `schnellru::LruMap::new`, with a `ByLength` limiter.
///
/// Claimed: the map is empty, and its limit is the given one.
#[verifier::external_body]
pub(crate) fn new_announcer_map(limit: u32) -> (map: AnnouncerMap)
    ensures
        announcer_entries(map) == Seq::<([u8; 32], Seq<[u8; 64]>)>::empty(),
        announcer_limit(map) == limit,
{
    AnnouncerMap { inner: LruMap::new(ByLength::new(limit)) }
}

/// `schnellru::LruMap::get`.
///
/// Claimed: the value of a key that is there comes back by reference, and the key becomes the most
/// recently used one. Otherwise nothing changes.
#[verifier::external_body]
pub(crate) fn get_announcers<'a>(map: &'a mut AnnouncerMap, hash: &BlockHash) -> (list: Option<
    &'a mut Vec<PeerId>,
>)
    ensures
        announcer_limit(*final(map)) == announcer_limit(*old(map)),
        list is Some == holds(announcer_entries(*old(map)), *hash),
        match list {
            Some(l) => {
                &&& l@ == value_of(announcer_entries(*old(map)), *hash)
                &&& announcer_entries(*final(map)) == seq![(*hash, final(l)@)] + others(
                    announcer_entries(*old(map)),
                    *hash,
                )
            },
            None => announcer_entries(*final(map)) == announcer_entries(*old(map)),
        },
{
    map.inner.get(hash)
}

/// `schnellru::LruMap::get_or_insert`, with `Vec::new` for what is not there.
///
/// Claimed: a key that is there is treated as by `get`. A new one gets an empty list and becomes
/// the most recently used key; where there is no room for it, the entry that was not used for
/// longest goes. That is so up to `EXACT_LIMIT`: the map numbers the places of its table with 32
/// bits, and one that has none left drops more entries. Left aside is a map that runs out of memory:
/// it drops more entries too, or panics.
#[verifier::external_body]
pub(crate) fn get_or_insert_announcers(map: &mut AnnouncerMap, hash: BlockHash) -> (list: &mut Vec<
    PeerId,
>)
    requires
        0 < announcer_limit(*old(map)) <= EXACT_LIMIT,
    ensures
        announcer_limit(*final(map)) == announcer_limit(*old(map)),
        list@ == if holds(announcer_entries(*old(map)), hash) {
            value_of(announcer_entries(*old(map)), hash)
        } else {
            seq![]
        },
        announcer_entries(*final(map)) == put(
            announcer_entries(*old(map)),
            announcer_limit(*old(map)),
            hash,
            final(list)@,
        ),
{
    map.inner.get_or_insert(hash, Vec::new).expect("ByLength limiter never rejects")
}

/// Snapshots by the hash of their block.
#[verifier::external_body]
pub struct SnapshotMap {
    inner: LruMap<[u8; 32], Snapshot, ByLength>,
}

/// What the map holds, the most recently used first.
pub uninterp spec fn snapshot_entries(map: SnapshotMap) -> Seq<([u8; 32], Snapshot)>;

/// How many snapshots the map was made to hold.
pub uninterp spec fn snapshot_limit(map: SnapshotMap) -> nat;

/// `schnellru::LruMap::new`, with a `ByLength` limiter.
///
/// Claimed: the map is empty, and its limit is the given one.
#[verifier::external_body]
pub(crate) fn new_snapshot_map(limit: u32) -> (map: SnapshotMap)
    ensures
        snapshot_entries(map) == Seq::<([u8; 32], Snapshot)>::empty(),
        snapshot_limit(map) == limit,
{
    SnapshotMap { inner: LruMap::new(ByLength::new(limit)) }
}

/// `schnellru::LruMap::get`.
///
/// Claimed: the value of a key that is there comes back by reference, and the key becomes the most
/// recently used one. Otherwise nothing changes.
#[verifier::external_body]
pub(crate) fn get_snapshot<'a>(map: &'a mut SnapshotMap, hash: &BlockHash) -> (snapshot: Option<
    &'a mut Snapshot,
>)
    ensures
        snapshot_limit(*final(map)) == snapshot_limit(*old(map)),
        snapshot is Some == holds(snapshot_entries(*old(map)), *hash),
        match snapshot {
            Some(s) => {
                &&& *s == value_of(snapshot_entries(*old(map)), *hash)
                &&& snapshot_entries(*final(map)) == seq![(*hash, *final(s))] + others(
                    snapshot_entries(*old(map)),
                    *hash,
                )
            },
            None => snapshot_entries(*final(map)) == snapshot_entries(*old(map)),
        },
{
    map.inner.get(hash)
}

/// `schnellru::LruMap::insert`.
///
/// Claimed: the key has the value and becomes the most recently used one. Where there is no room
/// for a new key, the entry that was not used for longest goes. A limit of zero admits nothing, and
/// nothing else is refused. The map numbers the places of its table with 32 bits: with a limit above
/// `EXACT_LIMIT` it can have none left for a new key, and then drops more of those entries, how many
/// is not stated. Left aside is a map that runs out of memory: it drops more entries too, or refuses
/// the new one.
#[verifier::external_body]
pub(crate) fn insert_snapshot(map: &mut SnapshotMap, hash: BlockHash, snapshot: Snapshot) -> (taken:
    bool)
    ensures
        snapshot_limit(*final(map)) == snapshot_limit(*old(map)),
        taken == (holds(snapshot_entries(*old(map)), hash) || snapshot_limit(*old(map)) > 0),
        stored(
            snapshot_entries(*old(map)),
            snapshot_limit(*old(map)),
            hash,
            snapshot,
            snapshot_entries(*final(map)),
        ),
{
    map.inner.insert(hash, snapshot)
}

/// The list without a key holds every other entry, in the order that they had.
pub proof fn law_others_are_all_but_the_key<T>(entries: Seq<(BlockHash, T)>, key: BlockHash)
    ensures
        others(entries, key) == entries.filter(|e: (BlockHash, T)| e.0 != key),
    decreases entries.len(),
{
    reveal(Seq::filter);
    if entries.len() > 0 {
        law_others_are_all_but_the_key(entries.drop_last(), key);
    }
}

/// A key that is put into a list comes to its front with its value, and the entries behind it are the
/// others in the order that they had: all of them, or with a new key as many as the limit leaves.
pub proof fn law_put_keeps_the_order<T>(
    entries: Seq<(BlockHash, T)>,
    limit: nat,
    key: BlockHash,
    value: T,
)
    requires
        limit > 0,
    ensures
        ({
            let after = put(entries, limit, key, value);
            let there = exists|i: int| 0 <= i < entries.len() && (#[trigger] entries[i]).0 == key;
            &&& after.len() >= 1
            &&& after[0] == (key, value)
            &&& there ==> after.skip(1) == others(entries, key)
            &&& !there && entries.len() < limit ==> after.skip(1) == entries
            &&& !there && entries.len() >= limit ==> after.skip(1) == entries.take(limit - 1)
        }),
{
    let after = put(entries, limit, key, value);
    if holds(entries, key) {
        assert(after.skip(1) =~= others(entries, key));
    } else {
        assert(after.skip(1) =~= entries.take(kept(entries, limit)));
        if entries.len() < limit {
            assert(entries.take(entries.len() as int) =~= entries);
        }
    }
}

}
