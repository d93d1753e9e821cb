//! Where snapshots are kept: a small cache in front of a database.

use vstd::prelude::*;

use crate::lru;
use crate::lru::{get_snapshot, insert_snapshot, new_snapshot_map, SnapshotMap};
use crate::parlia::query;
use crate::parlia::query::{Effect, Reply, SnapshotQuery};
use crate::parlia::types;
use crate::parlia::types::{multiple_of, ParliaParams, Snapshot};
use crate::primitives::BlockHash;

verus! {

/// Size of the cache that a copy of a provider starts with.
pub const COPIED_CACHE_CAPACITY: usize = 2048;

/// The cache of a provider that keeps snapshots in a database.
pub struct DbSnapshotProvider {
    cache_by_hash: SnapshotMap,
}

impl DbSnapshotProvider {
    /// The cached snapshots, the most recently used first.
    pub closed spec fn entries(&self) -> Seq<(BlockHash, Snapshot)> {
        lru::snapshot_entries(self.cache_by_hash)
    }

    /// How many snapshots the cache is made to hold.
    pub closed spec fn limit(&self) -> nat {
        lru::snapshot_limit(self.cache_by_hash)
    }

    /// No block is cached twice, and the cache is not too large.
    pub open spec fn wf(&self) -> bool {
        &&& lru::distinct(self.entries())
        &&& self.entries().len() <= self.limit()
    }

    /// A provider with an empty cache for `capacity` snapshots, counted modulo 2^32.
    pub fn new(capacity: usize) -> (provider: Self)
        ensures
            provider.wf(),
            provider.entries() == Seq::<(BlockHash, Snapshot)>::empty(),
            provider.limit() == capacity as u32,
    {
        DbSnapshotProvider { cache_by_hash: new_snapshot_map(#[verifier::truncate] (capacity as u32)) }
    }

    /// Keeps a snapshot in the cache only, under the hash of its block.
    pub fn insert_cache_only(&mut self, snapshot: &Snapshot)
        requires
            old(self).wf(),
        ensures
            final(self).wf(),
            final(self).limit() == old(self).limit(),
            lru::stored(
                old(self).entries(),
                old(self).limit(),
                snapshot.block_hash,
                *snapshot,
                final(self).entries(),
            ),
    {
        self.cache(snapshot.block_hash, snapshot);
    }

    fn cache(&mut self, hash: BlockHash, snapshot: &Snapshot)
        requires
            old(self).wf(),
        ensures
            final(self).wf(),
            final(self).limit() == old(self).limit(),
            lru::stored(
                old(self).entries(),
                old(self).limit(),
                hash,
                *snapshot,
                final(self).entries(),
            ),
    {
        let _ = insert_snapshot(&mut self.cache_by_hash, hash, snapshot.clone());
        proof {
            lru::lemma_stored(
                old(self).entries(),
                old(self).limit(),
                hash,
                *snapshot,
                self.entries(),
            );
        }
    }

    /// The cached snapshot of block `block_hash`. It counts as used.
    pub fn snapshot_by_hash(&mut self, block_hash: &BlockHash) -> (found: Option<Snapshot>)
        requires
            old(self).wf(),
        ensures
            final(self).wf(),
            final(self).limit() == old(self).limit(),
            found is Some == lru::holds(old(self).entries(), *block_hash),
            found matches Some(snapshot) ==> {
                &&& snapshot == lru::value_of(old(self).entries(), *block_hash)
                &&& final(self).entries() == seq![(*block_hash, snapshot)] + lru::others(
                    old(self).entries(),
                    *block_hash,
                )
            },
            found is None ==> final(self).entries() == old(self).entries(),
    {
        match get_snapshot(&mut self.cache_by_hash, block_hash) {
            Some(snapshot) => {
                let found = snapshot.clone();
                proof {
                    lru::lemma_renewed(old(self).entries(), *block_hash, found);
                }
                Some(found)
            },
            None => None,
        }
    }

    /// Takes what the database has for a block that is not cached. A snapshot that comes from there
    /// is cached under the hash that was asked for.
    pub fn take_queried(&mut self, block_hash: BlockHash, queried: Option<Snapshot>) -> (found:
        Option<Snapshot>)
        requires
            old(self).wf(),
        ensures
            final(self).wf(),
            final(self).limit() == old(self).limit(),
            found == queried,
            queried matches Some(snapshot) ==> lru::stored(
                old(self).entries(),
                old(self).limit(),
                block_hash,
                snapshot,
                final(self).entries(),
            ),
            queried is None ==> final(self).entries() == old(self).entries(),
    {
        match queried {
            Some(snapshot) => {
                self.cache(block_hash, &snapshot);
                Some(snapshot)
            },
            None => None,
        }
    }

    /// Keeps a snapshot in the cache, and says whether it is to go to the database as well: every
    /// `checkpoint_interval` blocks one does.
    pub fn insert(&mut self, snapshot: &Snapshot, checkpoint_interval: u64) -> (persist: bool)
        requires
            old(self).wf(),
        ensures
            final(self).wf(),
            final(self).limit() == old(self).limit(),
            lru::stored(
                old(self).entries(),
                old(self).limit(),
                snapshot.block_hash,
                *snapshot,
                final(self).entries(),
            ),
            persist == types::is_multiple(snapshot.block_number, checkpoint_interval),
            checkpoint_interval > 0 ==> persist == (snapshot.block_number % checkpoint_interval
                == 0),
            checkpoint_interval == 0 ==> persist == (snapshot.block_number == 0),
    {
        self.cache(snapshot.block_hash, snapshot);
        multiple_of(snapshot.block_number, checkpoint_interval)
    }
}

impl Clone for DbSnapshotProvider {
    /// A provider on the same database with an empty cache.
    fn clone(&self) -> (copy: Self)
        ensures
            copy.wf(),
            copy.entries() == Seq::<(BlockHash, Snapshot)>::empty(),
            copy.limit() == COPIED_CACHE_CAPACITY,
            copy.limit() == 2048,
    {
        Self::new(COPIED_CACHE_CAPACITY)
    }
}

/// A provider that also rebuilds snapshots that are nowhere kept.
pub struct EnhancedDbSnapshotProvider {
    pub base: DbSnapshotProvider,
    pub params: ParliaParams,
}

impl EnhancedDbSnapshotProvider {
    /// The cache is in order, and so are the parameters.
    pub open spec fn wf(&self) -> bool {
        &&& self.base.wf()
        &&& self.params.wf()
    }

    /// A provider with an empty cache for `capacity` snapshots.
    pub fn new(capacity: usize, params: ParliaParams) -> (provider: Self)
        requires
            params.wf(),
        ensures
            provider.wf(),
            provider.params == params,
            provider.base.entries() == Seq::<(BlockHash, Snapshot)>::empty(),
            provider.base.limit() == capacity as u32,
    {
        EnhancedDbSnapshotProvider { base: DbSnapshotProvider::new(capacity), params }
    }

    /// Starts the search for the snapshot of block `block_hash`, which is rebuilt if it is nowhere
    /// kept.
    pub fn snapshot_by_hash<A>(&self, block_hash: &BlockHash) -> (query: SnapshotQuery<A>)
        ensures
            query.wf(),
            query.pending@ == Seq::<BlockHash>::empty(),
            query.phase == (query::Phase::<A>::FindTarget { hash: *block_hash }),
    {
        SnapshotQuery::new(*block_hash)
    }

    /// Keeps a snapshot, and says whether it is to go to the database as well.
    pub fn insert(&mut self, snapshot: &Snapshot) -> (persist: bool)
        requires
            old(self).wf(),
        ensures
            final(self).wf(),
            final(self).params == old(self).params,
            final(self).base.limit() == old(self).base.limit(),
            lru::stored(
                old(self).base.entries(),
                old(self).base.limit(),
                snapshot.block_hash,
                *snapshot,
                final(self).base.entries(),
            ),
            persist == old(self).params.persists(snapshot.block_number),
            old(self).params.checkpoint_interval > 0 ==> persist == (snapshot.block_number % old(
                self,
            ).params.checkpoint_interval == 0),
            old(self).params.checkpoint_interval == 0 ==> persist == (snapshot.block_number == 0),
    {
        self.base.insert(snapshot, self.params.checkpoint_interval)
    }

    /// Takes a reply to a query, and keeps the snapshot that comes of it. A snapshot that is to go
    /// to the database, as far as it takes it, comes back beside the query.
    pub fn resume<A>(&mut self, query: SnapshotQuery<A>, reply: Reply<A>) -> (next: (
        SnapshotQuery<A>,
        Option<Snapshot>,
    ))
        requires
            old(self).wf(),
            query.wf(),
            query::divides(query.phase, reply),
        ensures
            final(self).wf(),
            final(self).params == old(self).params,
            final(self).base.limit() == old(self).base.limit(),
            next.0.wf(),
            ({
                let step = query::query_step(
                    old(self).params,
                    query.pending@,
                    query.phase,
                    reply,
                );
                &&& next.0.pending@ == step.0
                &&& next.0.phase == step.1
                &&& match step.2 {
                    Effect::Nothing => {
                        &&& final(self).base.entries() == old(self).base.entries()
                        &&& next.1 is None
                    },
                    Effect::CacheOnly(snapshot) => {
                        &&& lru::stored(
                            old(self).base.entries(),
                            old(self).base.limit(),
                            snapshot.block_hash,
                            snapshot,
                            final(self).base.entries(),
                        )
                        &&& next.1 is None
                    },
                    Effect::Insert(snapshot) => {
                        &&& lru::stored(
                            old(self).base.entries(),
                            old(self).base.limit(),
                            snapshot.block_hash,
                            snapshot,
                            final(self).base.entries(),
                        )
                        &&& next.1 == if old(self).params.persists(snapshot.block_number) {
                            Some(snapshot)
                        } else {
                            None
                        }
                    },
                }
            }),
    {
        let (next, effect) = query.step(&self.params, reply);
        let persist = match effect {
            Effect::Nothing => None,
            Effect::CacheOnly(snapshot) => {
                self.base.insert_cache_only(&snapshot);
                None
            },
            Effect::Insert(snapshot) => {
                if self.insert(&snapshot) {
                    Some(snapshot)
                } else {
                    None
                }
            },
        };
        (next, persist)
    }
}

impl Clone for EnhancedDbSnapshotProvider {
    /// A provider on the same database, under the same rules, with an empty cache.
    fn clone(&self) -> (copy: Self)
        ensures
            copy.base.wf(),
            copy.params == self.params,
            copy.base.entries() == Seq::<(BlockHash, Snapshot)>::empty(),
            copy.base.limit() == COPIED_CACHE_CAPACITY,
            copy.base.limit() == 2048,
    {
        EnhancedDbSnapshotProvider { base: self.base.clone(), params: self.params }
    }
}

/// A snapshot that was put into a cache that holds anything at all is found again, with the value
/// that it was put there with.
pub proof fn law_kept_snapshot_is_found(
    before: Seq<(BlockHash, Snapshot)>,
    limit: nat,
    hash: BlockHash,
    snapshot: Snapshot,
    after: Seq<(BlockHash, Snapshot)>,
)
    requires
        lru::distinct(before),
        before.len() <= limit,
        lru::stored(before, limit, hash, snapshot, after),
    ensures
        limit > 0 || lru::holds(before, hash) ==> lru::holds(after, hash) && lru::value_of(
            after,
            hash,
        ) == snapshot,
{
    if limit > 0 {
        lru::law_stored_is_found(before, limit, hash, snapshot, after);
    }
}

/// A query that ended with a snapshot it did not just look up, such as that of genesis, has left it
/// in the cache, and the next query for the block ends with it at once.
pub proof fn law_next_query_is_answered_from_the_cache<A>(
    params: ParliaParams,
    pending: Seq<BlockHash>,
    phase: query::Phase<A>,
    reply: Reply<A>,
    snapshot: Snapshot,
    before: Seq<(BlockHash, Snapshot)>,
    limit: nat,
    after: Seq<(BlockHash, Snapshot)>,
)
    requires
        lru::distinct(before),
        before.len() <= limit,
        limit > 0,
        lru::stored(before, limit, snapshot.block_hash, snapshot, after),
        !(phase is FindTarget),
        !(phase is Done),
        query::query_step(params, pending, phase, reply).1 == (query::Phase::<A>::Done {
            result: Some(snapshot),
        }),
    ensures
        query::query_step(params, pending, phase, reply).2 == Effect::Insert(snapshot),
        ({
            let hash = snapshot.block_hash;
            let again = query::Phase::<A>::FindTarget { hash };
            &&& lru::holds(after, hash)
            &&& query::query_step(
                params,
                seq![],
                again,
                Reply::Snapshot(Some(lru::value_of(after, hash))),
            ).1 == (query::Phase::<A>::Done { result: Some(snapshot) })
        }),
{
    crate::parlia::laws::law_rebuilt_snapshot_is_kept(params, pending, phase, reply, snapshot);
    lru::law_stored_is_found(before, limit, snapshot.block_hash, snapshot, after);
}

/// A walk that arrives at genesis keeps the snapshot that was built from its header, and the lookup
/// that comes next finds it.
pub proof fn law_genesis_on_the_walk_is_found<A>(
    params: ParliaParams,
    pending: Seq<BlockHash>,
    parent: types::Header,
    seed: types::SnapshotSeed,
    snapshot: Snapshot,
    before: Seq<(BlockHash, Snapshot)>,
    limit: nat,
    after: Seq<(BlockHash, Snapshot)>,
)
    requires
        lru::distinct(before),
        before.len() <= limit,
        limit > 0,
        lru::stored(before, limit, snapshot.block_hash, snapshot, after),
    ensures
        ({
            let hash = snapshot.block_hash;
            let built = query::Phase::<A>::BuildGenesisParent { hash, parent, seed };
            let next = query::query_step(params, pending, built, Reply::Snapshot(Some(snapshot)));
            &&& next.1 == (query::Phase::<A>::FindParent { hash, parent })
            &&& next.2 == Effect::Insert(snapshot)
            &&& lru::holds(after, hash) && lru::value_of(after, hash) == snapshot
        }),
{
    lru::law_stored_is_found(before, limit, snapshot.block_hash, snapshot, after);
}

}
