//! What a query comes to, where everything it asks for is answered from one unchanging world.

use vstd::prelude::*;

use crate::parlia::query;
use crate::parlia::query::{Effect, Phase, Reply};
use crate::parlia::types::{
    ApplyInput, Header, ParliaParams, Snapshot, SnapshotSeed, ValidatorsInfo, CHECKPOINT_MIN_WALK,
    CHECKPOINT_SNAPSHOT_OFFSET, PARLIA_EPOCH,
};
use crate::primitives::BlockHash;

verus! {

/// What a query can ask for: the stored snapshots and headers, and the rules that read them.
#[verifier::reject_recursive_types(A)]
pub struct World<A> {
    pub params: ParliaParams,
    pub snapshot_of: spec_fn(BlockHash) -> Option<Snapshot>,
    pub header_of: spec_fn(BlockHash) -> Option<Header>,
    pub canonical: spec_fn(u64) -> Option<Header>,
    pub validators_in: spec_fn(Header, u64) -> Option<ValidatorsInfo>,
    pub turn_length_in: spec_fn(Header, u64) -> Option<Option<u8>>,
    pub attestation_in: spec_fn(Header, u64) -> Option<Option<A>>,
    pub build: spec_fn(SnapshotSeed) -> Snapshot,
    pub apply: spec_fn(Snapshot, ApplyInput<A>) -> Option<Snapshot>,
    pub persist: spec_fn(Snapshot) -> bool,
}

impl<A> World<A> {
    /// The snapshot that the genesis header gives, if its validators can be read.
    pub open spec fn genesis(self, header: Header) -> Option<Snapshot> {
        match (self.validators_in)(header, PARLIA_EPOCH) {
            Some(validators) => Some((self.build)(query::genesis_seed(header.hash(), validators))),
            None => None,
        }
    }

    /// The snapshot that a walk finds for block `hash`, at which it arrived. A walk that arrives at
    /// genesis has just kept the snapshot that the header gives.
    pub open spec fn kept_at(self, hash: BlockHash, parent: Header) -> Option<Snapshot> {
        match self.genesis(parent) {
            Some(snapshot) if parent.number == 0 && snapshot.block_hash == hash => Some(snapshot),
            _ => (self.snapshot_of)(hash),
        }
    }

    /// The reply that a phase waits for.
    pub open spec fn answer(self, phase: Phase<A>) -> Reply<A> {
        match phase {
            Phase::FindTarget { hash } => Reply::Snapshot((self.snapshot_of)(hash)),
            Phase::LoadTarget { hash } => Reply::Header((self.header_of)(hash)),
            Phase::ReadGenesisTarget { header } => Reply::Validators(
                (self.validators_in)(header, PARLIA_EPOCH),
            ),
            Phase::BuildTarget { seed } => Reply::Snapshot(Some((self.build)(seed))),
            Phase::LoadParent { hash } => Reply::Header((self.header_of)(hash)),
            Phase::ReadGenesisParent { parent, .. } => Reply::Validators(
                (self.validators_in)(parent, PARLIA_EPOCH),
            ),
            Phase::BuildGenesisParent { seed, .. } => Reply::Snapshot(Some((self.build)(seed))),
            Phase::FindParent { hash, parent } => Reply::Snapshot(self.kept_at(hash, parent)),
            Phase::LoadCheckpoint { number, .. } => Reply::Header((self.canonical)(number)),
            Phase::LoadCheckpointEpoch { number, .. } => Reply::Header((self.canonical)(number)),
            Phase::ReadCheckpoint { checkpoint, epoch_length, .. } => Reply::Validators(
                (self.validators_in)(checkpoint, epoch_length),
            ),
            Phase::ReadCheckpointTurn { checkpoint, epoch_length, .. } => Reply::TurnLength(
                (self.turn_length_in)(checkpoint, epoch_length),
            ),
            Phase::BuildCheckpoint { seed, .. } => Reply::Snapshot(Some((self.build)(seed))),
            Phase::LoadNext { hash, .. } => Reply::Header((self.header_of)(hash)),
            Phase::LoadEpoch { number, .. } => Reply::Header((self.canonical)(number)),
            Phase::ReadEpoch { working, epoch, .. } => Reply::Validators(
                (self.validators_in)(epoch, working.epoch_num),
            ),
            Phase::ReadEpochTurn { working, epoch, .. } => Reply::TurnLength(
                (self.turn_length_in)(epoch, working.epoch_num),
            ),
            Phase::ReadAttestation { working, header, .. } => Reply::Attestation(
                (self.attestation_in)(header, working.epoch_num),
            ),
            Phase::Apply { working, input } => Reply::Snapshot((self.apply)(working, input)),
            Phase::Persist { snapshot } => Reply::Persisted((self.persist)(snapshot)),
            Phase::Done { .. } => Reply::Persisted(true),
        }
    }

    /// Where a query is after `n` replies.
    pub open spec fn run(self, pending: Seq<BlockHash>, phase: Phase<A>, n: nat) -> (
        Seq<BlockHash>,
        Phase<A>,
    )
        decreases n,
    {
        if n == 0 {
            (pending, phase)
        } else {
            let next = query::query_step(self.params, pending, phase, self.answer(phase));
            self.run(next.0, next.1, (n - 1) as nat)
        }
    }

    /// The query ends with `result`.
    pub open spec fn yields(
        self,
        pending: Seq<BlockHash>,
        phase: Phase<A>,
        result: Option<Snapshot>,
    ) -> bool {
        exists|n: nat| (#[trigger] self.run(pending, phase, n)).1 == (Phase::<A>::Done { result })
    }

    proof fn lemma_one(self, pending: Seq<BlockHash>, phase: Phase<A>, result: Option<Snapshot>)
        ensures
            ({
                let next = query::query_step(self.params, pending, phase, self.answer(phase));
                self.yields(next.0, next.1, result) ==> self.yields(pending, phase, result)
            }),
    {
        let next = query::query_step(self.params, pending, phase, self.answer(phase));
        if self.yields(next.0, next.1, result) {
            let n = choose|n: nat|
                (#[trigger] self.run(next.0, next.1, n)).1 == (Phase::<A>::Done { result });
            assert(self.run(pending, phase, n + 1) == self.run(next.0, next.1, n));
        }
    }

    proof fn lemma_done(self, pending: Seq<BlockHash>, result: Option<Snapshot>)
        ensures
            self.yields(pending, Phase::Done { result }, result),
    {
        assert(self.run(pending, Phase::Done { result }, 0).1 == (Phase::<A>::Done { result }));
    }

    proof fn lemma_stays_done(self, pending: Seq<BlockHash>, result: Option<Snapshot>, n: nat)
        ensures
            self.run(pending, Phase::Done { result }, n).1 == (Phase::<A>::Done { result }),
        decreases n,
    {
        if n > 0 {
            self.lemma_stays_done(pending, result, (n - 1) as nat);
        }
    }

    proof fn lemma_run_on(self, pending: Seq<BlockHash>, phase: Phase<A>, n: nat, more: nat)
        ensures
            ({
                let there = self.run(pending, phase, n);
                self.run(pending, phase, n + more) == self.run(there.0, there.1, more)
            }),
        decreases n,
    {
        if n > 0 {
            let next = query::query_step(self.params, pending, phase, self.answer(phase));
            self.lemma_run_on(next.0, next.1, (n - 1) as nat, more);
        }
    }

    proof fn lemma_ends_once(
        self,
        pending: Seq<BlockHash>,
        phase: Phase<A>,
        first: Option<Snapshot>,
        n: nat,
        second: Option<Snapshot>,
        m: nat,
    )
        requires
            self.run(pending, phase, n).1 == (Phase::<A>::Done { result: first }),
            self.run(pending, phase, m).1 == (Phase::<A>::Done { result: second }),
            n <= m,
        ensures
            first == second,
    {
        let there = self.run(pending, phase, n);
        let more = (m - n) as nat;
        self.lemma_run_on(pending, phase, n, more);
        self.lemma_stays_done(there.0, first, more);
    }

    /// A query ends with one result only.
    pub proof fn law_query_has_one_result(
        self,
        pending: Seq<BlockHash>,
        phase: Phase<A>,
        first: Option<Snapshot>,
        second: Option<Snapshot>,
    )
        requires
            self.yields(pending, phase, first),
            self.yields(pending, phase, second),
        ensures
            first == second,
    {
        let n = choose|n: nat|
            (#[trigger] self.run(pending, phase, n)).1 == (Phase::<A>::Done { result: first });
        let m = choose|m: nat|
            (#[trigger] self.run(pending, phase, m)).1 == (Phase::<A>::Done { result: second });
        if n <= m {
            self.lemma_ends_once(pending, phase, first, n, second, m);
        } else {
            self.lemma_ends_once(pending, phase, second, m, first, n);
        }
    }

    /// The validators and turn length that become active with a block: those of the epoch header
    /// at an epoch boundary, otherwise none. `None` where they cannot be read.
    pub open spec fn announced(self, working: Snapshot, header: Header) -> Option<
        (Option<ValidatorsInfo>, Option<u8>),
    > {
        if !query::is_epoch_boundary(working, header.number) {
            Some((None, None))
        } else {
            match (self.canonical)((header.number - working.miner_history_check_len) as u64) {
                None => None,
                Some(epoch) => match (
                    (self.validators_in)(epoch, working.epoch_num),
                    (self.turn_length_in)(epoch, working.epoch_num),
                ) {
                    (Some(validators), Some(turn_length)) => Some((Some(validators), turn_length)),
                    _ => None,
                },
            }
        }
    }

    /// The snapshot after block `hash`, if the block can be applied and the database takes it.
    pub open spec fn apply_block(self, working: Snapshot, hash: BlockHash) -> Option<Snapshot> {
        match (self.header_of)(hash) {
            None => None,
            Some(header) => match (
                self.announced(working, header),
                (self.attestation_in)(header, working.epoch_num),
            ) {
                (Some((validators, turn_length)), Some(attestation)) => {
                    let input = ApplyInput { header, validators, attestation, turn_length };
                    match (self.apply)(working, input) {
                        Some(next) if !self.params.persists(next.block_number) || (self.persist)(
                            next,
                        ) => Some(next),
                        _ => None,
                    }
                },
                _ => None,
            },
        }
    }

    /// The snapshot after all the blocks of `pending`, the last of which is the oldest.
    pub open spec fn replay(self, working: Snapshot, pending: Seq<BlockHash>) -> Option<Snapshot>
        decreases pending.len(),
    {
        if pending.len() == 0 {
            Some(working)
        } else {
            match self.apply_block(working, pending.last()) {
                None => None,
                Some(next) => self.replay(next, pending.drop_last()),
            }
        }
    }

    /// A query that has found a snapshot to start from applies the pending blocks to it one by
    /// one, the oldest first, and ends with the last snapshot; where one block fails, with none.
    pub proof fn law_replay_applies_oldest_first(
        self,
        pending: Seq<BlockHash>,
        working: Snapshot,
        effect: Effect,
    )
        ensures
            ({
                let start = query::apply_next::<A>(pending, working, effect);
                self.yields(start.0, start.1, self.replay(working, pending))
            }),
        decreases pending.len(),
    {
        let result = self.replay(working, pending);
        if pending.len() == 0 {
            self.lemma_done(pending, result);
        } else {
            let rest = pending.drop_last();
            let hash = pending.last();
            let load = Phase::<A>::LoadNext { working, hash };
            match (self.header_of)(hash) {
                None => {
                    self.lemma_done(rest, None);
                },
                Some(header) => {
                    match self.announced(working, header) {
                        Some((announced, turn_length)) => {
                            match (self.attestation_in)(header, working.epoch_num) {
                                Some(attestation) => {
                                    match self.apply_block(working, hash) {
                                        Some(next) => {
                                            self.law_replay_applies_oldest_first(
                                                rest,
                                                next,
                                                Effect::Nothing,
                                            );
                                        },
                                        None => {},
                                    }
                                    self.lemma_attested(
                                        rest,
                                        working,
                                        header,
                                        announced,
                                        turn_length,
                                        attestation,
                                        result,
                                    );
                                },
                                None => {
                                    self.lemma_done(rest, None);
                                },
                            }
                            self.lemma_one(
                                rest,
                                Phase::ReadAttestation { working, header, announced, turn_length },
                                result,
                            );
                        },
                        None => {},
                    }
                    self.lemma_announced(rest, working, header, result);
                },
            }
            self.lemma_one(rest, load, result);
        }
    }

    proof fn lemma_announced(
        self,
        rest: Seq<BlockHash>,
        working: Snapshot,
        header: Header,
        result: Option<Snapshot>,
    )
        requires
            self.announced(working, header) matches Some((announced, turn_length)) ==> self.yields(
                rest,
                Phase::ReadAttestation { working, header, announced, turn_length },
                result,
            ),
            self.announced(working, header) is None ==> result is None,
        ensures
            query::is_epoch_boundary(working, header.number) ==> self.yields(
                rest,
                Phase::LoadEpoch {
                    working,
                    header,
                    number: (header.number - working.miner_history_check_len) as u64,
                },
                result,
            ),
    {
        if query::is_epoch_boundary(working, header.number) {
            let number = (header.number - working.miner_history_check_len) as u64;
            self.lemma_done(rest, None);
            match (self.canonical)(number) {
                None => {},
                Some(epoch) => {
                    match (self.validators_in)(epoch, working.epoch_num) {
                        None => {},
                        Some(validators) => {
                            self.lemma_one(
                                rest,
                                Phase::ReadEpochTurn { working, header, epoch, validators },
                                result,
                            );
                        },
                    }
                    self.lemma_one(rest, Phase::ReadEpoch { working, header, epoch }, result);
                },
            }
            self.lemma_one(rest, Phase::LoadEpoch { working, header, number }, result);
        }
    }

    proof fn lemma_attested(
        self,
        rest: Seq<BlockHash>,
        working: Snapshot,
        header: Header,
        announced: Option<ValidatorsInfo>,
        turn_length: Option<u8>,
        attestation: Option<A>,
        result: Option<Snapshot>,
    )
        requires
            ({
                let input = ApplyInput { header, validators: announced, attestation, turn_length };
                match (self.apply)(working, input) {
                    Some(next) if !self.params.persists(next.block_number) || (self.persist)(
                        next,
                    ) => {
                        let start = query::apply_next::<A>(rest, next, Effect::Nothing);
                        self.yields(start.0, start.1, result)
                    },
                    _ => result is None,
                }
            }),
        ensures
            self.yields(
                rest,
                Phase::Apply {
                    working,
                    input: ApplyInput { header, validators: announced, attestation, turn_length },
                },
                result,
            ),
    {
        let input = ApplyInput { header, validators: announced, attestation, turn_length };
        self.lemma_done(rest, None);
        match (self.apply)(working, input) {
            None => {},
            Some(next) => {
                self.lemma_one(rest, Phase::Persist { snapshot: next }, result);
            },
        }
        self.lemma_one(rest, Phase::Apply { working, input }, result);
    }

    /// The hash of the block `k` parents before block `hash`.
    pub open spec fn ancestor(self, hash: BlockHash, k: nat) -> BlockHash
        decreases k,
    {
        if k == 0 {
            hash
        } else {
            match (self.header_of)(hash) {
                Some(header) => self.ancestor(header.parent_hash, (k - 1) as nat),
                None => hash,
            }
        }
    }

    /// Block `hash` and its parents, `k` blocks in all, newest first.
    pub open spec fn lineage(self, hash: BlockHash, k: nat) -> Seq<BlockHash>
        decreases k,
    {
        if k == 0 {
            seq![]
        } else {
            match (self.header_of)(hash) {
                Some(header) => seq![hash] + self.lineage(header.parent_hash, (k - 1) as nat),
                None => seq![hash],
            }
        }
    }

    /// Block `block` can bootstrap from the canonical header `checkpoint`, which carries
    /// validators at the epoch length in force at `epoch_ref`, the canonical header before it.
    pub open spec fn bootstraps_from(
        self,
        block: Header,
        checkpoint: Header,
        epoch_ref: Header,
    ) -> bool {
        &&& self.params.is_bootstrap_block(block.number)
        &&& (self.canonical)((block.number - CHECKPOINT_SNAPSHOT_OFFSET) as u64) == Some(checkpoint)
        &&& (self.canonical)((block.number - CHECKPOINT_SNAPSHOT_OFFSET - 1) as u64) == Some(
            epoch_ref,
        )
        &&& (self.validators_in)(checkpoint, self.params.epoch_length(epoch_ref.forks)) matches Some(
            validators,
        ) && validators.consensus_addrs@.len() > 0
    }

    /// Block `block` can bootstrap: it is placed so, and the headers that it takes are there and
    /// carry validators.
    pub open spec fn can_bootstrap(self, block: Header) -> bool {
        exists|checkpoint: Header, epoch_ref: Header| #[trigger]
            self.bootstraps_from(block, checkpoint, epoch_ref)
    }

    /// The walk passes `k` blocks from block `hash` on: each has a header and no snapshot, not even
    /// one that it gives as genesis, and none that is deep enough (`depth` blocks were passed
    /// before) can bootstrap.
    pub open spec fn passes(self, depth: nat, hash: BlockHash, k: nat) -> bool
        decreases k,
    {
        k > 0 ==> match (self.header_of)(hash) {
            None => false,
            Some(header) => {
                &&& self.kept_at(hash, header) is None
                &&& !(depth > CHECKPOINT_MIN_WALK && self.can_bootstrap(header))
                &&& self.passes(depth + 1, header.parent_hash, (k - 1) as nat)
            },
        }
    }

    /// What the snapshot of a block that bootstraps is made of. A turn length that cannot be read
    /// is left out.
    pub open spec fn bootstrap_seed(
        self,
        block: Header,
        checkpoint: Header,
        epoch_ref: Header,
    ) -> SnapshotSeed {
        let epoch_length = self.params.epoch_length(epoch_ref.forks);
        query::checkpoint_seed(
            self.params,
            block,
            block.hash(),
            epoch_length,
            (self.validators_in)(checkpoint, epoch_length)->0,
            match (self.turn_length_in)(checkpoint, epoch_length) {
                Some(turn_length) => turn_length,
                None => None,
            },
        )
    }

    /// The snapshot of a block that bootstraps.
    pub open spec fn bootstrapped(
        self,
        block: Header,
        checkpoint: Header,
        epoch_ref: Header,
    ) -> Snapshot {
        (self.build)(self.bootstrap_seed(block, checkpoint, epoch_ref))
    }

    proof fn lemma_lineage(self, depth: nat, hash: BlockHash, k: nat)
        requires
            self.passes(depth, hash, k),
        ensures
            self.lineage(hash, k).len() == k,
        decreases k,
    {
        if k > 0 {
            let parent = (self.header_of)(hash)->0;
            self.lemma_lineage(depth + 1, parent.parent_hash, (k - 1) as nat);
        }
    }

    proof fn lemma_failed_bootstrap(
        self,
        pending: Seq<BlockHash>,
        hash: BlockHash,
        parent: Header,
        result: Option<Snapshot>,
    )
        requires
            self.params.is_bootstrap_block(parent.number),
            !self.can_bootstrap(parent),
            self.yields(
                pending.push(hash),
                Phase::LoadParent { hash: parent.parent_hash },
                result,
            ),
        ensures
            self.yields(
                pending,
                Phase::LoadCheckpoint {
                    hash,
                    parent,
                    number: (parent.number - CHECKPOINT_SNAPSHOT_OFFSET) as u64,
                },
                result,
            ),
    {
        let number = (parent.number - CHECKPOINT_SNAPSHOT_OFFSET) as u64;
        let before = (number - 1) as u64;
        match (self.canonical)(number) {
            None => {},
            Some(checkpoint) => {
                match (self.canonical)(before) {
                    None => {},
                    Some(epoch_ref) => {
                        let epoch_length = self.params.epoch_length(epoch_ref.forks);
                        assert(!self.bootstraps_from(parent, checkpoint, epoch_ref));
                        self.lemma_one(
                            pending,
                            Phase::ReadCheckpoint { hash, parent, checkpoint, epoch_length },
                            result,
                        );
                    },
                }
                self.lemma_one(
                    pending,
                    Phase::LoadCheckpointEpoch { hash, parent, checkpoint, number: before },
                    result,
                );
            },
        }
        self.lemma_one(pending, Phase::LoadCheckpoint { hash, parent, number }, result);
    }

    proof fn lemma_walk(
        self,
        pending: Seq<BlockHash>,
        hash: BlockHash,
        k: nat,
        result: Option<Snapshot>,
    )
        requires
            self.passes(pending.len(), hash, k),
            self.yields(
                pending + self.lineage(hash, k),
                Phase::LoadParent { hash: self.ancestor(hash, k) },
                result,
            ),
        ensures
            self.yields(pending, Phase::LoadParent { hash }, result),
        decreases k,
    {
        if k == 0 {
            assert(pending + self.lineage(hash, k) =~= pending);
        } else {
            let parent = (self.header_of)(hash)->0;
            let rest = (k - 1) as nat;
            assert(pending + self.lineage(hash, k) =~= pending.push(hash) + self.lineage(
                parent.parent_hash,
                rest,
            ));
            self.lemma_walk(pending.push(hash), parent.parent_hash, rest, result);
            if pending.len() > CHECKPOINT_MIN_WALK && self.params.is_bootstrap_block(
                parent.number,
            ) {
                self.lemma_failed_bootstrap(pending, hash, parent, result);
            }
            self.lemma_one(pending, Phase::FindParent { hash, parent }, result);
            self.lemma_arrive(pending, hash, result);
        }
    }

    proof fn lemma_arrive(self, pending: Seq<BlockHash>, hash: BlockHash, result: Option<Snapshot>)
        requires
            (self.header_of)(hash) matches Some(parent) && self.yields(
                pending,
                Phase::FindParent { hash, parent },
                result,
            ),
        ensures
            self.yields(pending, Phase::LoadParent { hash }, result),
    {
        let parent = (self.header_of)(hash)->0;
        if parent.number == 0 {
            match (self.validators_in)(parent, PARLIA_EPOCH) {
                None => {},
                Some(validators) => {
                    let seed = query::genesis_seed(parent.hash(), validators);
                    self.lemma_one(
                        pending,
                        Phase::BuildGenesisParent { hash, parent, seed },
                        result,
                    );
                },
            }
            self.lemma_one(pending, Phase::ReadGenesisParent { hash, parent }, result);
        }
        self.lemma_one(pending, Phase::LoadParent { hash }, result);
    }

    proof fn lemma_begin(self, hash: BlockHash, result: Option<Snapshot>)
        requires
            (self.snapshot_of)(hash) is None,
            (self.header_of)(hash) matches Some(header) && header.number != 0 && self.yields(
                seq![header.hash()],
                Phase::LoadParent { hash: header.parent_hash },
                result,
            ),
        ensures
            self.yields(seq![], Phase::FindTarget { hash }, result),
    {
        self.lemma_one(seq![], Phase::LoadTarget { hash }, result);
        self.lemma_one(seq![], Phase::FindTarget { hash }, result);
    }

    /// A snapshot that can be looked up is what its query ends with.
    pub proof fn law_known_snapshot_is_returned(self, hash: BlockHash, snapshot: Snapshot)
        requires
            (self.snapshot_of)(hash) == Some(snapshot),
        ensures
            self.yields(seq![], Phase::FindTarget { hash }, Some(snapshot)),
    {
        self.lemma_done(seq![], Some(snapshot));
        self.lemma_one(seq![], Phase::FindTarget { hash }, Some(snapshot));
    }

    /// The snapshot of the genesis block is built from the validators of its header. Where they
    /// cannot be read there is none.
    pub proof fn law_genesis_is_built_from_its_header(self, hash: BlockHash, header: Header)
        requires
            (self.snapshot_of)(hash) is None,
            (self.header_of)(hash) == Some(header),
            header.number == 0,
        ensures
            self.yields(seq![], Phase::FindTarget { hash }, self.genesis(header)),
    {
        let result = self.genesis(header);
        self.lemma_done(seq![], result);
        match (self.validators_in)(header, PARLIA_EPOCH) {
            Some(validators) => {
                let seed = query::genesis_seed(header.hash(), validators);
                self.lemma_one(seq![], Phase::BuildTarget { seed }, result);
            },
            None => {},
        }
        self.lemma_one(seq![], Phase::ReadGenesisTarget { header }, result);
        self.lemma_one(seq![], Phase::LoadTarget { hash }, result);
        self.lemma_one(seq![], Phase::FindTarget { hash }, result);
    }

    /// A missing snapshot is rebuilt from the nearest ancestor that has one, by applying the
    /// blocks between them in the order of the chain, up to the block that was asked for.
    pub proof fn law_rebuild_from_nearest_snapshot(
        self,
        hash: BlockHash,
        header: Header,
        k: nat,
        base: Snapshot,
    )
        requires
            (self.snapshot_of)(hash) is None,
            (self.header_of)(hash) == Some(header),
            header.number != 0,
            self.passes(1, header.parent_hash, k),
            (self.header_of)(self.ancestor(header.parent_hash, k)) matches Some(parent)
                && self.kept_at(self.ancestor(header.parent_hash, k), parent) == Some(base),
        ensures
            self.yields(
                seq![],
                Phase::FindTarget { hash },
                self.replay(base, seq![header.hash()] + self.lineage(header.parent_hash, k)),
            ),
    {
        let own = seq![header.hash()];
        let pending = own + self.lineage(header.parent_hash, k);
        let at = self.ancestor(header.parent_hash, k);
        let result = self.replay(base, pending);
        let parent = (self.header_of)(at)->0;
        self.law_replay_applies_oldest_first(pending, base, Effect::Nothing);
        self.lemma_one(pending, Phase::FindParent { hash: at, parent }, result);
        self.lemma_arrive(pending, at, result);
        self.lemma_walk(own, header.parent_hash, k, result);
        self.lemma_begin(hash, result);
    }

    /// Where no ancestor has a snapshot, the replay starts from the one that the genesis header
    /// gives.
    pub proof fn law_rebuild_from_genesis(
        self,
        hash: BlockHash,
        header: Header,
        k: nat,
        genesis: Header,
        base: Snapshot,
    )
        requires
            (self.snapshot_of)(hash) is None,
            (self.header_of)(hash) == Some(header),
            header.number != 0,
            self.passes(1, header.parent_hash, k),
            (self.header_of)(self.ancestor(header.parent_hash, k)) == Some(genesis),
            genesis.number == 0,
            self.genesis(genesis) == Some(base),
            base.block_hash == self.ancestor(header.parent_hash, k),
        ensures
            self.yields(
                seq![],
                Phase::FindTarget { hash },
                self.replay(base, seq![header.hash()] + self.lineage(header.parent_hash, k)),
            ),
    {
        self.law_rebuild_from_nearest_snapshot(hash, header, k, base);
    }

    /// Where the walk comes to a block whose header is missing, there is no snapshot.
    pub proof fn law_missing_header_ends_without_snapshot(
        self,
        hash: BlockHash,
        header: Header,
        k: nat,
    )
        requires
            (self.snapshot_of)(hash) is None,
            (self.header_of)(hash) == Some(header),
            header.number != 0,
            self.passes(1, header.parent_hash, k),
            (self.header_of)(self.ancestor(header.parent_hash, k)) is None,
        ensures
            self.yields(seq![], Phase::FindTarget { hash }, None),
    {
        let own = seq![header.hash()];
        let pending = own + self.lineage(header.parent_hash, k);
        let at = self.ancestor(header.parent_hash, k);
        self.lemma_done(pending, None);
        self.lemma_one(pending, Phase::LoadParent { hash: at }, None);
        self.lemma_walk(own, header.parent_hash, k, None);
        self.lemma_begin(hash, None);
    }

    proof fn lemma_bootstrap(
        self,
        pending: Seq<BlockHash>,
        hash: BlockHash,
        block: Header,
        checkpoint: Header,
        epoch_ref: Header,
    )
        requires
            pending.len() > CHECKPOINT_MIN_WALK,
            (self.header_of)(hash) == Some(block),
            (self.snapshot_of)(hash) is None,
            self.bootstraps_from(block, checkpoint, epoch_ref),
        ensures
            self.yields(
                pending,
                Phase::LoadParent { hash },
                self.replay(self.bootstrapped(block, checkpoint, epoch_ref), pending),
            ),
    {
        let parent = block;
        let epoch_length = self.params.epoch_length(epoch_ref.forks);
        let validators = (self.validators_in)(checkpoint, epoch_length)->0;
        let seed = self.bootstrap_seed(block, checkpoint, epoch_ref);
        let base = (self.build)(seed);
        let result = self.replay(base, pending);
        let number = (block.number - CHECKPOINT_SNAPSHOT_OFFSET) as u64;
        self.law_replay_applies_oldest_first(pending, base, Effect::Insert(base));
        self.lemma_one(pending, Phase::BuildCheckpoint { hash, parent, seed }, result);
        self.lemma_one(
            pending,
            Phase::ReadCheckpointTurn { hash, parent, checkpoint, epoch_length, validators },
            result,
        );
        self.lemma_one(
            pending,
            Phase::ReadCheckpoint { hash, parent, checkpoint, epoch_length },
            result,
        );
        self.lemma_one(
            pending,
            Phase::LoadCheckpointEpoch { hash, parent, checkpoint, number: (number - 1) as u64 },
            result,
        );
        self.lemma_one(pending, Phase::LoadCheckpoint { hash, parent, number }, result);
        self.lemma_one(pending, Phase::FindParent { hash, parent }, result);
        self.lemma_arrive(pending, hash, result);
    }

    /// The query ends, with whatever result.
    pub open spec fn ends(self, pending: Seq<BlockHash>, phase: Phase<A>) -> bool {
        exists|result: Option<Snapshot>| #[trigger] self.yields(pending, phase, result)
    }

    /// The parent of a block comes before it, and genesis has no parent.
    pub open spec fn parents_come_before(self) -> bool {
        forall|hash: BlockHash|
            (#[trigger] (self.header_of)(hash)) matches Some(header) ==> match (self.header_of)(
                header.parent_hash,
            ) {
                Some(parent) => parent.number < header.number,
                None => true,
            }
    }

    proof fn lemma_step_ends(self, pending: Seq<BlockHash>, phase: Phase<A>)
        requires
            ({
                let next = query::query_step(self.params, pending, phase, self.answer(phase));
                self.ends(next.0, next.1)
            }),
        ensures
            self.ends(pending, phase),
    {
        let next = query::query_step(self.params, pending, phase, self.answer(phase));
        let result = choose|result: Option<Snapshot>| #[trigger]
            self.yields(next.0, next.1, result);
        self.lemma_one(pending, phase, result);
        assert(self.yields(pending, phase, result));
    }

    proof fn lemma_replay_ends(self, pending: Seq<BlockHash>, working: Snapshot, effect: Effect)
        ensures
            ({
                let start = query::apply_next::<A>(pending, working, effect);
                self.ends(start.0, start.1)
            }),
    {
        let start = query::apply_next::<A>(pending, working, effect);
        self.law_replay_applies_oldest_first(pending, working, effect);
        assert(self.yields(start.0, start.1, self.replay(working, pending)));
    }

    proof fn lemma_bootstrap_ends(
        self,
        pending: Seq<BlockHash>,
        hash: BlockHash,
        parent: Header,
        number: u64,
    )
        requires
            self.ends(pending.push(hash), Phase::LoadParent { hash: parent.parent_hash }),
        ensures
            self.ends(pending, Phase::LoadCheckpoint { hash, parent, number }),
    {
        match (self.canonical)(number) {
            None => {},
            Some(checkpoint) => {
                let before = (number - 1) as u64;
                match (self.canonical)(before) {
                    None => {},
                    Some(epoch_ref) => {
                        let epoch_length = self.params.epoch_length(epoch_ref.forks);
                        match (self.validators_in)(checkpoint, epoch_length) {
                            None => {},
                            Some(validators) => {
                                let turn = Phase::<A>::ReadCheckpointTurn {
                                    hash,
                                    parent,
                                    checkpoint,
                                    epoch_length,
                                    validators,
                                };
                                let built = query::query_step(
                                    self.params,
                                    pending,
                                    turn,
                                    self.answer(turn),
                                ).1;
                                let seed = built->BuildCheckpoint_seed;
                                let base = (self.build)(seed);
                                self.lemma_replay_ends(pending, base, Effect::Insert(base));
                                self.lemma_step_ends(
                                    pending,
                                    Phase::BuildCheckpoint { hash, parent, seed },
                                );
                                self.lemma_step_ends(pending, turn);
                            },
                        }
                        self.lemma_step_ends(
                            pending,
                            Phase::ReadCheckpoint { hash, parent, checkpoint, epoch_length },
                        );
                    },
                }
                self.lemma_step_ends(
                    pending,
                    Phase::LoadCheckpointEpoch { hash, parent, checkpoint, number: before },
                );
            },
        }
        self.lemma_step_ends(pending, Phase::LoadCheckpoint { hash, parent, number });
    }

    proof fn lemma_walk_ends(self, pending: Seq<BlockHash>, hash: BlockHash)
        requires
            self.parents_come_before(),
        ensures
            self.ends(pending, Phase::LoadParent { hash }),
        decreases
            match (self.header_of)(hash) {
                Some(header) => header.number + 1,
                None => 0,
            },
    {
        match (self.header_of)(hash) {
            None => {
                self.lemma_done(pending, None);
                assert(self.yields(pending, Phase::Done { result: None }, None));
            },
            Some(parent) => {
                self.lemma_walk_ends(pending.push(hash), parent.parent_hash);
                match self.kept_at(hash, parent) {
                    Some(working) => {
                        self.lemma_replay_ends(pending, working, Effect::Nothing);
                    },
                    None => {
                        let number = (parent.number - CHECKPOINT_SNAPSHOT_OFFSET) as u64;
                        self.lemma_bootstrap_ends(pending, hash, parent, number);
                    },
                }
                self.lemma_step_ends(pending, Phase::FindParent { hash, parent });
                match (self.validators_in)(parent, PARLIA_EPOCH) {
                    Some(validators) => {
                        let seed = query::genesis_seed(parent.hash(), validators);
                        self.lemma_step_ends(
                            pending,
                            Phase::BuildGenesisParent { hash, parent, seed },
                        );
                    },
                    None => {},
                }
                self.lemma_step_ends(pending, Phase::ReadGenesisParent { hash, parent });
            },
        }
        self.lemma_step_ends(pending, Phase::LoadParent { hash });
    }

    /// On a chain in which parents come before their children, every query ends.
    pub proof fn law_every_query_ends(self, hash: BlockHash)
        requires
            self.parents_come_before(),
        ensures
            self.ends(seq![], Phase::FindTarget { hash }),
    {
        match (self.snapshot_of)(hash) {
            Some(snapshot) => {
                self.law_known_snapshot_is_returned(hash, snapshot);
                assert(self.yields(seq![], Phase::FindTarget { hash }, Some(snapshot)));
            },
            None => match (self.header_of)(hash) {
                None => {
                    self.lemma_done(seq![], None);
                    assert(self.yields(seq![], Phase::Done { result: None }, None));
                    self.lemma_step_ends(seq![], Phase::LoadTarget { hash });
                    self.lemma_step_ends(seq![], Phase::FindTarget { hash });
                },
                Some(header) => {
                    if header.number == 0 {
                        self.law_genesis_is_built_from_its_header(hash, header);
                        assert(self.yields(
                            seq![],
                            Phase::FindTarget { hash },
                            self.genesis(header),
                        ));
                    } else {
                        self.lemma_walk_ends(seq![header.hash()], header.parent_hash);
                        self.lemma_step_ends(seq![], Phase::LoadTarget { hash });
                        self.lemma_step_ends(seq![], Phase::FindTarget { hash });
                    }
                },
            },
        }
    }

    /// Deep in the walk, a block that can bootstrap ends it: the replay starts from a snapshot
    /// built from the validators of the header `CHECKPOINT_SNAPSHOT_OFFSET` blocks before it, read
    /// with the epoch length in force at the header before that one.
    pub proof fn law_deep_walk_ends_at_checkpoint(
        self,
        hash: BlockHash,
        header: Header,
        k: nat,
        block: Header,
        checkpoint: Header,
        epoch_ref: Header,
    )
        requires
            (self.snapshot_of)(hash) is None,
            (self.header_of)(hash) == Some(header),
            header.number != 0,
            self.passes(1, header.parent_hash, k),
            1 + k > CHECKPOINT_MIN_WALK,
            (self.header_of)(self.ancestor(header.parent_hash, k)) == Some(block),
            (self.snapshot_of)(self.ancestor(header.parent_hash, k)) is None,
            self.bootstraps_from(block, checkpoint, epoch_ref),
        ensures
            self.yields(
                seq![],
                Phase::FindTarget { hash },
                self.replay(
                    self.bootstrapped(block, checkpoint, epoch_ref),
                    seq![header.hash()] + self.lineage(header.parent_hash, k),
                ),
            ),
    {
        let own = seq![header.hash()];
        let pending = own + self.lineage(header.parent_hash, k);
        let at = self.ancestor(header.parent_hash, k);
        let result = self.replay(self.bootstrapped(block, checkpoint, epoch_ref), pending);
        self.lemma_lineage(1, header.parent_hash, k);
        self.lemma_bootstrap(pending, at, block, checkpoint, epoch_ref);
        self.lemma_walk(own, header.parent_hash, k, result);
        self.lemma_begin(hash, result);
    }
}

/// A query turns to a bootstrap only once its walk is deeper than any reorg could reach.
pub proof fn law_no_bootstrap_near_the_tip<A>(
    params: ParliaParams,
    pending: Seq<BlockHash>,
    phase: Phase<A>,
    reply: Reply<A>,
)
    requires
        !phase.bootstraps(),
        query::query_step(params, pending, phase, reply).1.bootstraps(),
    ensures
        pending.len() > CHECKPOINT_MIN_WALK,
{
}

/// A snapshot that a query worked out, and did not just look up, is kept when the query ends.
pub proof fn law_rebuilt_snapshot_is_kept<A>(
    params: ParliaParams,
    pending: Seq<BlockHash>,
    phase: Phase<A>,
    reply: Reply<A>,
    snapshot: Snapshot,
)
    requires
        !(phase is FindTarget),
        !(phase is Done),
        query::query_step(params, pending, phase, reply).1 == (Phase::<A>::Done { result: Some(snapshot) }),
    ensures
        query::query_step(params, pending, phase, reply).2 == Effect::Insert(snapshot),
{
}

/// A snapshot that is due for the database goes there before the next block is applied, and where
/// the database does not take it the query ends without one.
pub proof fn law_checkpoint_is_persisted_first<A>(
    params: ParliaParams,
    pending: Seq<BlockHash>,
    working: Snapshot,
    input: ApplyInput<A>,
    applied: Snapshot,
)
    requires
        params.persists(applied.block_number),
    ensures
        ({
            let phase = Phase::Apply { working, input };
            let persist = Phase::<A>::Persist { snapshot: applied };
            &&& query::query_step(params, pending, phase, Reply::Snapshot(Some(applied))).1 == persist
            &&& query::query_step(params, pending, persist, Reply::Persisted(false)).1 == (Phase::<
                A,
            >::Done { result: None })
        }),
{
}

/// Every snapshot that comes of applying a block is kept at least in the cache.
pub proof fn law_applied_snapshot_is_cached<A>(
    params: ParliaParams,
    pending: Seq<BlockHash>,
    working: Snapshot,
    input: ApplyInput<A>,
    applied: Snapshot,
)
    ensures
        ({
            let phase = Phase::Apply { working, input };
            let effect = query::query_step(params, pending, phase, Reply::Snapshot(Some(applied))).2;
            effect == Effect::CacheOnly(applied) || effect == Effect::Insert(applied)
        }),
{
}

}
