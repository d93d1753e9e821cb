use std::collections::HashMap;
use std::sync::Arc;

use bsc_node::parlia::provider::{
    DbSnapshotProvider, EnhancedDbSnapshotProvider, COPIED_CACHE_CAPACITY,
};
use bsc_node::parlia::query::{
    make_genesis_seed, make_checkpoint_seed, Effect, Phase, Reply, SnapshotQuery,
};
use bsc_node::parlia::types::{
    multiple_of, ApplyInput, Forks, Header, ParliaParams, Snapshot, SnapshotSeed, ValidatorsInfo,
    CHECKPOINT_MIN_WALK, CHECKPOINT_SNAPSHOT_OFFSET, PARLIA_EPOCH,
};
use bsc_node::primitives::BlockHash;

const NO_FORKS: Forks = Forks { lorentz: false, maxwell: false, fermi: false };

fn params() -> ParliaParams {
    ParliaParams {
        default_epoch_length: 200,
        lorentz_epoch_length: 500,
        maxwell_epoch_length: 1000,
        default_block_interval: 3000,
        lorentz_block_interval: 1500,
        maxwell_block_interval: 750,
        fermi_block_interval: 450,
        checkpoint_interval: 1024,
    }
}

fn header(number: u64, parent_hash: BlockHash, forks: Forks) -> Header {
    let mut rlp = number.to_be_bytes().to_vec();
    rlp.extend_from_slice(&parent_hash);
    Header { number, parent_hash, beneficiary: [number as u8; 20], forks, rlp: Arc::new(rlp) }
}

fn snapshot(block_number: u64, block_hash: BlockHash, epoch_num: u64) -> Snapshot {
    Snapshot {
        block_number,
        block_hash,
        epoch_num,
        miner_history_check_len: 1,
        state: Arc::new(vec![0xEE]),
    }
}

/// A chain in memory, with rules that leave a trace of what they were given.
struct Chain {
    hashes: Vec<BlockHash>,
    headers: HashMap<BlockHash, Header>,
    stored: HashMap<BlockHash, Snapshot>,
    unreadable_validators: Vec<u64>,
    without_validators: Vec<u64>,
    unreadable_turn: Vec<u64>,
    unreadable_attestation: Vec<u64>,
    not_canonical: Vec<u64>,
    unapplicable: Vec<u64>,
    full: bool,
    seeds: Vec<SnapshotSeed>,
    applied: Vec<(u64, Option<u8>, Option<u8>)>,
    loads: usize,
}

impl Chain {
    fn new(length: u64) -> Self {
        Self::with_forks(length, |_| NO_FORKS)
    }

    fn with_forks(length: u64, forks: impl Fn(u64) -> Forks) -> Self {
        let mut chain = Chain {
            hashes: Vec::new(),
            headers: HashMap::new(),
            stored: HashMap::new(),
            unreadable_validators: Vec::new(),
            without_validators: Vec::new(),
            unreadable_turn: Vec::new(),
            unreadable_attestation: Vec::new(),
            not_canonical: Vec::new(),
            unapplicable: Vec::new(),
            full: false,
            seeds: Vec::new(),
            applied: Vec::new(),
            loads: 0,
        };
        let mut parent = [0; 32];
        for number in 0..=length {
            let block = header(number, parent, forks(number));
            parent = block.hash_slow();
            chain.hashes.push(parent);
            chain.headers.insert(parent, block);
        }
        chain
    }

    fn store(&mut self, number: u64, epoch_num: u64) {
        let hash = self.hashes[number as usize];
        self.stored.insert(hash, snapshot(number, hash, epoch_num));
    }

    fn canonical(&mut self, number: u64) -> Option<Header> {
        self.loads += 1;
        if self.not_canonical.contains(&number) {
            return None;
        }
        self.hashes.get(number as usize).map(|hash| self.headers[hash].clone())
    }

    fn load(&mut self, hash: &BlockHash) -> Option<Header> {
        self.loads += 1;
        self.headers.get(hash).cloned()
    }

    fn validators(&self, header: &Header, epoch: u64) -> Option<ValidatorsInfo> {
        if self.unreadable_validators.contains(&header.number) || header.number % epoch != 0 {
            return None;
        }
        if self.without_validators.contains(&header.number) {
            return Some(ValidatorsInfo::unchanged());
        }
        Some(ValidatorsInfo {
            consensus_addrs: vec![[(header.number / 100) as u8; 20]],
            vote_addrs: None,
        })
    }

    fn turn_length(&self, header: &Header, epoch: u64) -> Option<Option<u8>> {
        if self.unreadable_turn.contains(&header.number) {
            None
        } else {
            Some(Some((epoch % 251) as u8))
        }
    }

    fn attestation(&self, header: &Header) -> Option<Option<u64>> {
        if self.unreadable_attestation.contains(&header.number) {
            None
        } else if header.number % 2 == 0 {
            Some(Some(header.number))
        } else {
            Some(None)
        }
    }

    fn build(&mut self, seed: &SnapshotSeed) -> Snapshot {
        let built = snapshot(seed.block_number, seed.block_hash, seed.epoch_num);
        self.seeds.push(SnapshotSeed {
            validators: ValidatorsInfo {
                consensus_addrs: seed.validators.consensus_addrs.clone(),
                vote_addrs: None,
            },
            ..*seed
        });
        built
    }

    fn apply(&mut self, working: &Snapshot, input: &ApplyInput<u64>) -> Option<Snapshot> {
        let number = input.header.number;
        if self.unapplicable.contains(&number) {
            return None;
        }
        assert_eq!(number, working.block_number + 1);
        assert_eq!(input.attestation, if number % 2 == 0 { Some(number) } else { None });
        let announced = input.validators.as_ref().map(|v| v.consensus_addrs[0][0]);
        self.applied.push((number, announced, input.turn_length));
        Some(Snapshot {
            block_number: number,
            block_hash: input.header.hash_slow(),
            epoch_num: working.epoch_num,
            miner_history_check_len: working.miner_history_check_len,
            state: Arc::new(vec![number as u8]),
        })
    }

    fn persist(&mut self, snapshot: &Snapshot) -> bool {
        if !self.full {
            self.stored.insert(snapshot.block_hash, snapshot.clone());
        }
        !self.full
    }

    fn find(&mut self, provider: &mut EnhancedDbSnapshotProvider, hash: BlockHash) -> Option<Snapshot> {
        match provider.base.snapshot_by_hash(&hash) {
            Some(found) => Some(found),
            None => {
                let queried = self.stored.get(&hash).cloned();
                provider.base.take_queried(hash, queried)
            }
        }
    }

    fn run(&mut self, provider: &mut EnhancedDbSnapshotProvider, hash: BlockHash) -> Option<Snapshot> {
        let mut query: SnapshotQuery<u64> = provider.snapshot_by_hash(&hash);
        loop {
            let reply = match &query.phase {
                Phase::FindTarget { hash } | Phase::FindParent { hash, .. } => {
                    Reply::Snapshot(self.find(provider, *hash))
                }
                Phase::LoadTarget { hash }
                | Phase::LoadParent { hash }
                | Phase::LoadNext { hash, .. } => Reply::Header(self.load(hash)),
                Phase::LoadCheckpoint { number, .. }
                | Phase::LoadCheckpointEpoch { number, .. }
                | Phase::LoadEpoch { number, .. } => Reply::Header(self.canonical(*number)),
                Phase::ReadGenesisTarget { header } => {
                    Reply::Validators(self.validators(header, PARLIA_EPOCH))
                }
                Phase::ReadGenesisParent { parent, .. } => {
                    Reply::Validators(self.validators(parent, PARLIA_EPOCH))
                }
                Phase::ReadCheckpoint { checkpoint, epoch_length, .. } => {
                    Reply::Validators(self.validators(checkpoint, *epoch_length))
                }
                Phase::ReadEpoch { working, epoch, .. } => {
                    Reply::Validators(self.validators(epoch, working.epoch_num))
                }
                Phase::ReadCheckpointTurn { checkpoint, epoch_length, .. } => {
                    Reply::TurnLength(self.turn_length(checkpoint, *epoch_length))
                }
                Phase::ReadEpochTurn { working, epoch, .. } => {
                    Reply::TurnLength(self.turn_length(epoch, working.epoch_num))
                }
                Phase::BuildTarget { seed }
                | Phase::BuildGenesisParent { seed, .. }
                | Phase::BuildCheckpoint { seed, .. } => Reply::Snapshot(Some(self.build(seed))),
                Phase::ReadAttestation { header, .. } => {
                    Reply::Attestation(self.attestation(header))
                }
                Phase::Apply { working, input } => Reply::Snapshot(self.apply(working, input)),
                Phase::Persist { snapshot } => Reply::Persisted(self.persist(snapshot)),
                Phase::Done { result } => return result.clone(),
            };
            let (next, persist) = provider.resume(query, reply);
            if let Some(snapshot) = persist {
                self.persist(&snapshot);
            }
            query = next;
        }
    }
}

fn provider() -> EnhancedDbSnapshotProvider {
    EnhancedDbSnapshotProvider::new(2048, params())
}

// ---- queries ----

#[test]
fn stored_snapshot_is_returned_and_cached() {
    let mut chain = Chain::new(3);
    let mut provider = provider();
    chain.store(2, 200);
    let hash = chain.hashes[2];
    let found = chain.run(&mut provider, hash).unwrap();
    assert_eq!(found.block_number, 2);
    assert_eq!(chain.loads, 0);
    chain.stored.clear();
    assert_eq!(chain.run(&mut provider, hash).unwrap().block_number, 2);
}

#[test]
fn genesis_snapshot_is_built_and_kept() {
    let mut chain = Chain::new(0);
    let mut provider = provider();
    let hash = chain.hashes[0];
    let found = chain.run(&mut provider, hash).unwrap();
    assert_eq!(found.block_number, 0);
    assert_eq!(found.block_hash, hash);
    assert_eq!(found.epoch_num, 200);
    let seed = &chain.seeds[0];
    assert_eq!(seed.validators.consensus_addrs, vec![[0; 20]]);
    assert!(seed.turn_length.is_none());
    assert!(seed.block_interval.is_none());
    // Zero is a multiple of the checkpoint interval, so the database has it too.
    assert!(chain.stored.contains_key(&hash));
    assert!(provider.base.snapshot_by_hash(&hash).is_some());
}

#[test]
fn unreadable_genesis_gives_no_snapshot() {
    let mut chain = Chain::new(2);
    chain.unreadable_validators.push(0);
    let mut provider = provider();
    let genesis = chain.hashes[0];
    assert!(chain.run(&mut provider, genesis).is_none());
    // The walk goes past it to a parent that does not exist.
    let tip = chain.hashes[2];
    assert!(chain.run(&mut provider, tip).is_none());
    assert!(chain.applied.is_empty());
}

#[test]
fn unknown_block_has_no_snapshot() {
    let mut chain = Chain::new(2);
    assert!(chain.run(&mut provider(), [0xAB; 32]).is_none());
}

#[test]
fn missing_parent_ends_without_snapshot() {
    let mut chain = Chain::new(9);
    chain.store(2, 200);
    let gone = chain.hashes[4];
    chain.headers.remove(&gone);
    let tip = chain.hashes[9];
    assert!(chain.run(&mut provider(), tip).is_none());
    assert!(chain.applied.is_empty());
}

#[test]
fn rebuild_applies_from_nearest_snapshot_oldest_first() {
    let mut chain = Chain::new(9);
    let mut provider = provider();
    chain.store(2, 200);
    chain.store(5, 200);
    let tip = chain.hashes[9];
    let found = chain.run(&mut provider, tip).unwrap();
    assert_eq!(found.block_number, 9);
    assert_eq!(found.block_hash, tip);
    assert_eq!(*found.state, vec![9]);
    let numbers: Vec<u64> = chain.applied.iter().map(|a| a.0).collect();
    assert_eq!(numbers, vec![6, 7, 8, 9]);
    // The snapshots on the way are cached, so nothing is loaded for them any more.
    let loads = chain.loads;
    for number in 5..10 {
        let hash = chain.hashes[number];
        assert_eq!(chain.run(&mut provider, hash).unwrap().block_number, number as u64);
    }
    assert_eq!(chain.loads, loads);
    // They are not multiples of the checkpoint interval, so the database has none of them.
    assert_eq!(chain.stored.len(), 2);
}

#[test]
fn rebuild_reaches_genesis() {
    let mut chain = Chain::new(3);
    let tip = chain.hashes[3];
    let found = chain.run(&mut provider(), tip).unwrap();
    assert_eq!(found.block_number, 3);
    assert_eq!(found.epoch_num, PARLIA_EPOCH);
    assert_eq!(chain.applied.iter().map(|a| a.0).collect::<Vec<u64>>(), vec![1, 2, 3]);
    assert_eq!(chain.seeds.len(), 1);
}

#[test]
fn epoch_boundary_takes_the_set_of_the_epoch_header() {
    let mut chain = Chain::new(405);
    chain.store(398, 200);
    let tip = chain.hashes[405];
    chain.run(&mut provider(), tip).unwrap();
    for (number, announced, turn_length) in &chain.applied {
        // One block after block 400, its set becomes active.
        if *number == 401 {
            assert_eq!((*announced, *turn_length), (Some(4), Some(200)));
        } else {
            assert_eq!((*announced, *turn_length), (None, None));
        }
    }
    assert_eq!(chain.applied.len(), 7);
}

#[test]
fn failures_on_the_way_give_no_snapshot() {
    let spoil: [fn(&mut Chain); 6] = [
        |chain| chain.unreadable_validators.push(400),
        |chain| chain.unreadable_turn.push(400),
        |chain| chain.unreadable_attestation.push(403),
        |chain| chain.not_canonical.push(400),
        |chain| chain.unapplicable.push(404),
        |chain| chain.full = true,
    ];
    for (i, spoil) in spoil.iter().enumerate() {
        let mut chain = Chain::new(405);
        chain.store(398, 200);
        spoil(&mut chain);
        let mut rules = params();
        rules.checkpoint_interval = 402;
        let mut provider = EnhancedDbSnapshotProvider::new(64, rules);
        let tip = chain.hashes[405];
        assert!(chain.run(&mut provider, tip).is_none());
        let reached = [400, 400, 402, 400, 403, 402];
        assert_eq!(chain.applied.last().map(|a| a.0), Some(reached[i]));
    }
}

#[test]
fn checkpoint_snapshots_go_to_the_database() {
    let mut chain = Chain::new(12);
    let mut rules = params();
    rules.checkpoint_interval = 4;
    let mut provider = EnhancedDbSnapshotProvider::new(64, rules);
    let tip = chain.hashes[12];
    chain.run(&mut provider, tip).unwrap();
    let mut stored: Vec<u64> = chain.stored.values().map(|s| s.block_number).collect();
    stored.sort();
    assert_eq!(stored, vec![0, 4, 8, 12]);
}

#[test]
fn deep_walk_bootstraps_at_a_checkpoint() {
    let tip = 92_500;
    let mut chain = Chain::with_forks(tip, |number| Forks {
        lorentz: number >= 1500,
        maxwell: number >= 2000,
        fermi: number >= 2100,
    });
    let hash = chain.hashes[tip as usize];
    let found = chain.run(&mut provider(), hash).unwrap();
    assert_eq!(found.block_number, tip);
    // Past 90,000 blocks the walk is at block 2499, and block 2200 is the next to bootstrap.
    let seed = &chain.seeds[0];
    assert_eq!(seed.block_number, 2200);
    assert_eq!(seed.block_hash, chain.hashes[2200]);
    // The validators are those of block 2000, the epoch length is that of block 1999.
    assert_eq!(seed.validators.consensus_addrs, vec![[20; 20]]);
    assert_eq!(seed.epoch_num, 500);
    assert_eq!(seed.turn_length, Some((500 % 251) as u8));
    assert_eq!(seed.block_interval, Some(450));
    assert_eq!(chain.applied.first().map(|a| a.0), Some(2201));
    assert_eq!(chain.applied.len() as u64, tip - 2200);
}

#[test]
fn walk_goes_on_where_a_bootstrap_fails() {
    let tip = 92_500;
    let spoil: [fn(&mut Chain); 4] = [
        |chain| chain.not_canonical.push(2000),
        |chain| chain.not_canonical.push(1999),
        |chain| chain.unreadable_validators.push(2000),
        |chain| chain.without_validators.push(2000),
    ];
    let intact = Chain::new(tip);
    for spoil in spoil {
        let mut chain = Chain::new(0);
        chain.hashes = intact.hashes.clone();
        chain.headers = intact.headers.clone();
        spoil(&mut chain);
        // What is applied first would be needed from here on, so the replay stops at once.
        chain.unapplicable.push(1201);
        let hash = chain.hashes[tip as usize];
        assert!(chain.run(&mut provider(), hash).is_none());
        assert_eq!(chain.seeds.len(), 1);
        assert_eq!(chain.seeds[0].block_number, 1200);
        assert_eq!(chain.seeds[0].epoch_num, 200);
        assert_eq!(chain.seeds[0].block_interval, Some(3000));
    }
}

#[test]
fn unreadable_turn_length_is_left_out_of_a_bootstrap() {
    let tip = 92_500;
    let mut chain = Chain::new(tip);
    chain.unreadable_turn.push(2000);
    chain.unapplicable.push(2201);
    let hash = chain.hashes[tip as usize];
    assert!(chain.run(&mut provider(), hash).is_none());
    assert_eq!(chain.seeds[0].block_number, 2200);
    assert!(chain.seeds[0].turn_length.is_none());
}

#[test]
fn shallow_walk_does_not_bootstrap() {
    let tip = CHECKPOINT_MIN_WALK as u64 + 200;
    let mut chain = Chain::new(tip);
    chain.unapplicable.push(1);
    let hash = chain.hashes[tip as usize];
    assert!(chain.run(&mut provider(), hash).is_none());
    // Block 200 would come too early even if the walk were deep enough: genesis is the base.
    assert_eq!(chain.seeds.len(), 1);
    assert_eq!(chain.seeds[0].block_number, 0);
}

#[test]
fn unexpected_reply_changes_nothing() {
    let query: SnapshotQuery<u64> = SnapshotQuery::new([7; 32]);
    let (query, effect) = query.step(&params(), Reply::Persisted(true));
    assert!(matches!(query.phase, Phase::FindTarget { hash } if hash == [7; 32]));
    assert!(matches!(effect, Effect::Nothing));
    let (query, _) = query.step(&params(), Reply::Snapshot(None));
    let (query, effect) = query.step(&params(), Reply::Snapshot(Some(snapshot(1, [7; 32], 200))));
    assert!(matches!(query.phase, Phase::LoadTarget { hash } if hash == [7; 32]));
    assert!(matches!(effect, Effect::Nothing));
}

#[test]
fn walk_starts_at_the_parent() {
    let walk: SnapshotQuery<u64> = SnapshotQuery::begin_walk([2; 32], [1; 32]);
    assert_eq!(walk.pending, vec![[2; 32]]);
    assert!(matches!(walk.phase, Phase::LoadParent { hash } if hash == [1; 32]));
}

#[test]
fn seeds_hold_what_they_are_made_of() {
    let genesis = make_genesis_seed([3; 32], ValidatorsInfo::unchanged());
    assert_eq!((genesis.block_number, genesis.block_hash), (0, [3; 32]));
    assert_eq!(genesis.epoch_num, 200);
    let block = header(3200, [0; 32], Forks { lorentz: true, maxwell: true, fermi: false });
    let seed =
        make_checkpoint_seed(&params(), &block, [4; 32], 500, ValidatorsInfo::unchanged(), Some(8));
    assert_eq!((seed.block_number, seed.block_hash), (3200, [4; 32]));
    assert_eq!(seed.epoch_num, 500);
    assert_eq!(seed.turn_length, Some(8));
    assert_eq!(seed.block_interval, Some(750));
}

// ---- the cache ----

#[test]
fn cache_forgets_what_was_not_used_for_longest() {
    let mut cache = DbSnapshotProvider::new(2);
    cache.insert_cache_only(&snapshot(1, [1; 32], 200));
    cache.insert_cache_only(&snapshot(2, [2; 32], 200));
    assert!(cache.snapshot_by_hash(&[1; 32]).is_some());
    cache.insert_cache_only(&snapshot(3, [3; 32], 200));
    assert!(cache.snapshot_by_hash(&[2; 32]).is_none());
    assert_eq!(cache.snapshot_by_hash(&[1; 32]).map(|s| s.block_number), Some(1));
    assert_eq!(cache.snapshot_by_hash(&[3; 32]).map(|s| s.block_number), Some(3));
    // A snapshot that is kept again takes the place of its own.
    cache.insert_cache_only(&snapshot(30, [3; 32], 200));
    assert_eq!(cache.snapshot_by_hash(&[3; 32]).map(|s| s.block_number), Some(30));
    assert!(cache.snapshot_by_hash(&[1; 32]).is_some());
}

#[test]
fn cache_of_no_size_holds_nothing() {
    let mut cache = DbSnapshotProvider::new(0);
    cache.insert_cache_only(&snapshot(1, [1; 32], 200));
    assert!(cache.snapshot_by_hash(&[1; 32]).is_none());
    let found = cache.take_queried([1; 32], Some(snapshot(1, [1; 32], 200)));
    assert_eq!(found.map(|s| s.block_number), Some(1));
    assert!(cache.snapshot_by_hash(&[1; 32]).is_none());
}

#[test]
fn cache_size_counts_modulo_two_to_the_32() {
    if usize::BITS > 32 {
        let mut cache = DbSnapshotProvider::new((u32::MAX as usize).wrapping_add(2));
        cache.insert_cache_only(&snapshot(1, [1; 32], 200));
        cache.insert_cache_only(&snapshot(2, [2; 32], 200));
        assert!(cache.snapshot_by_hash(&[1; 32]).is_none());
        assert!(cache.snapshot_by_hash(&[2; 32]).is_some());
    }
}

#[test]
fn queried_snapshot_is_cached_under_what_was_asked_for() {
    let mut cache = DbSnapshotProvider::new(4);
    assert!(cache.take_queried([9; 32], None).is_none());
    assert!(cache.snapshot_by_hash(&[9; 32]).is_none());
    cache.take_queried([9; 32], Some(snapshot(1, [1; 32], 200)));
    assert_eq!(cache.snapshot_by_hash(&[9; 32]).map(|s| s.block_hash), Some([1; 32]));
    assert!(cache.snapshot_by_hash(&[1; 32]).is_none());
}

#[test]
fn inserted_snapshot_goes_to_the_database_at_checkpoints() {
    let mut cache = DbSnapshotProvider::new(4);
    assert!(cache.insert(&snapshot(2048, [1; 32], 200), 1024));
    assert!(!cache.insert(&snapshot(2049, [2; 32], 200), 1024));
    assert!(cache.snapshot_by_hash(&[2; 32]).is_some());
    let mut provider = provider();
    assert!(provider.insert(&snapshot(1024, [3; 32], 200)));
    assert!(!provider.insert(&snapshot(1023, [4; 32], 200)));
    assert!(provider.base.snapshot_by_hash(&[4; 32]).is_some());
}

#[test]
fn copied_provider_starts_with_an_empty_cache() {
    let mut source = provider();
    source.insert(&snapshot(1, [1; 32], 200));
    let mut copy = source.clone();
    assert!(copy.base.snapshot_by_hash(&[1; 32]).is_none());
    assert_eq!(copy.params.maxwell_epoch_length, 1000);
    assert!(source.base.snapshot_by_hash(&[1; 32]).is_some());
    assert_eq!(COPIED_CACHE_CAPACITY, 2048);
}

// ---- rules ----

#[test]
fn header_hash_is_keccak_of_its_encoding() {
    let mut block = header(1, [0; 32], NO_FORKS);
    block.rlp = Arc::new(Vec::new());
    let empty = "c5d2460186f7233c927e7db2dcc703c0e500b653ca82273b7bfad8045d85a470";
    let hex: String = block.hash_slow().iter().map(|byte| format!("{byte:02x}")).collect();
    assert_eq!(hex, empty);
}

#[test]
fn header_hash_agrees_with_a_real_header() {
    let real = alloy_consensus::Header { number: 77, timestamp: 5, ..Default::default() };
    let mut block = header(77, real.parent_hash.0, NO_FORKS);
    block.rlp = Arc::new(alloy_rlp::encode(&real));
    assert_eq!(block.hash_slow(), real.hash_slow().0);
}

#[test]
fn latest_fork_decides_lengths_and_intervals() {
    let table = [
        (NO_FORKS, 200, 3000),
        (Forks { lorentz: true, maxwell: false, fermi: false }, 500, 1500),
        (Forks { lorentz: true, maxwell: true, fermi: false }, 1000, 750),
        (Forks { lorentz: true, maxwell: true, fermi: true }, 1000, 450),
        (Forks { lorentz: false, maxwell: false, fermi: true }, 200, 450),
    ];
    for (forks, epoch_length, interval) in table {
        let block = header(1, [0; 32], forks);
        assert_eq!(params().epoch_length_at(&block), epoch_length);
        assert_eq!(params().block_interval_at(&block), interval);
    }
}

#[test]
fn multiples_are_those_of_arithmetic() {
    assert!(multiple_of(0, 1024));
    assert!(multiple_of(1024, 1024));
    assert!(!multiple_of(1025, 1024));
    assert!(multiple_of(0, 0));
    assert!(!multiple_of(5, 0));
    assert_eq!(CHECKPOINT_SNAPSHOT_OFFSET, 200);
    assert_eq!(CHECKPOINT_MIN_WALK, 90_000);
}
