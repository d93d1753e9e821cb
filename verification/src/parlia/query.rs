//! The search for the snapshot of a block.
//!
//! A query looks the snapshot up, and where there is none it walks back over the parents of the
//! block to one that has a snapshot, then applies the headers on the way, oldest first. What it
//! needs from outside (headers, the database, the rules that read a header) it asks for: its
//! [`Phase`] says what it waits for, and [`SnapshotQuery::step`] takes the [`Reply`].

use vstd::prelude::*;

use crate::parlia::types::{
    multiple_of, ApplyInput, Header, ParliaParams, Snapshot, SnapshotSeed, ValidatorsInfo,
    CHECKPOINT_MIN_WALK, CHECKPOINT_SNAPSHOT_OFFSET, PARLIA_EPOCH,
};
use crate::primitives::BlockHash;

verus! {

/// What a query waits for.
#[derive(Debug)]
pub enum Phase<A> {
    /// The snapshot of block `hash`, from the cache or the database.
    FindTarget { hash: BlockHash },
    /// The header of the block that was asked for.
    LoadTarget { hash: BlockHash },
    /// The validators that the genesis header, which was asked for, carries at `PARLIA_EPOCH`.
    ReadGenesisTarget { header: Header },
    /// The snapshot of the genesis block, which was asked for.
    BuildTarget { seed: SnapshotSeed },
    /// The header of the next block of the walk.
    LoadParent { hash: BlockHash },
    /// The validators that the genesis header, at which the walk arrived, carries.
    ReadGenesisParent { hash: BlockHash, parent: Header },
    /// The snapshot of the genesis block, at which the walk arrived.
    BuildGenesisParent { hash: BlockHash, parent: Header, seed: SnapshotSeed },
    /// The snapshot of the block at which the walk arrived, from the cache or the database.
    FindParent { hash: BlockHash, parent: Header },
    /// The canonical header of block `number`, which carries the validators of a bootstrap.
    LoadCheckpoint { hash: BlockHash, parent: Header, number: u64 },
    /// The canonical header of block `number`, whose forks give the epoch length of a bootstrap.
    LoadCheckpointEpoch { hash: BlockHash, parent: Header, checkpoint: Header, number: u64 },
    /// The validators that the checkpoint header carries.
    ReadCheckpoint { hash: BlockHash, parent: Header, checkpoint: Header, epoch_length: u64 },
    /// The turn length that the checkpoint header carries.
    ReadCheckpointTurn {
        hash: BlockHash,
        parent: Header,
        checkpoint: Header,
        epoch_length: u64,
        validators: ValidatorsInfo,
    },
    /// The snapshot that a bootstrap makes.
    BuildCheckpoint { hash: BlockHash, parent: Header, seed: SnapshotSeed },
    /// The header of the block that is to be applied next.
    LoadNext { working: Snapshot, hash: BlockHash },
    /// The canonical header of block `number`, which carries the set that becomes active.
    LoadEpoch { working: Snapshot, header: Header, number: u64 },
    /// The validators that the epoch header carries.
    ReadEpoch { working: Snapshot, header: Header, epoch: Header },
    /// The turn length that the epoch header carries.
    ReadEpochTurn {
        working: Snapshot,
        header: Header,
        epoch: Header,
        validators: ValidatorsInfo,
    },
    /// The vote attestation that the header carries.
    ReadAttestation {
        working: Snapshot,
        header: Header,
        announced: Option<ValidatorsInfo>,
        turn_length: Option<u8>,
    },
    /// The snapshot after the block.
    Apply { working: Snapshot, input: ApplyInput<A> },
    /// That the snapshot has gone to the database.
    Persist { snapshot: Snapshot },
    /// Nothing: the query is over.
    Done { result: Option<Snapshot> },
}

/// What a query is told.
#[derive(Debug)]
pub enum Reply<A> {
    /// A snapshot that was looked up, built or applied, if there is one.
    Snapshot(Option<Snapshot>),
    /// A header, if there is one.
    Header(Option<Header>),
    /// The validators of a header, unless it cannot be read.
    Validators(Option<ValidatorsInfo>),
    /// The turn length of a header, which may carry none, unless it cannot be read.
    TurnLength(Option<Option<u8>>),
    /// The vote attestation of a header, which may carry none, unless it cannot be read.
    Attestation(Option<Option<A>>),
    /// Whether the database took a snapshot.
    Persisted(bool),
}

/// What a step asks for in passing.
#[derive(Debug)]
pub enum Effect {
    Nothing,
    /// Keep the snapshot in the cache.
    CacheOnly(Snapshot),
    /// Keep the snapshot in the cache, and in the database where its number calls for it.
    Insert(Snapshot),
}

/// The blocks that a query has to apply, newest first, with its phase and the last effect.
pub type QueryView<A> = (Seq<BlockHash>, Phase<A>, Effect);

/// A search for the snapshot of a block.
#[derive(Debug)]
pub struct SnapshotQuery<A> {
    /// Hashes of the blocks that are to be applied, newest first.
    pub pending: Vec<BlockHash>,
    pub phase: Phase<A>,
}

/// Whether the set that an epoch header carries becomes active with block `number`.
pub open spec fn is_epoch_boundary(working: Snapshot, number: u64) -> bool {
    &&& number > 0
    &&& number % working.epoch_num == working.miner_history_check_len
}

/// A header can be placed in the epoch of the snapshot that it is to be applied to.
pub open spec fn divides<A>(phase: Phase<A>, reply: Reply<A>) -> bool {
    match (phase, reply) {
        (Phase::LoadNext { working, .. }, Reply::Header(Some(_))) => working.epoch_num > 0,
        _ => true,
    }
}

/// What the genesis snapshot is made of, given the hash of its header.
pub open spec fn genesis_seed(hash: BlockHash, validators: ValidatorsInfo) -> SnapshotSeed {
    SnapshotSeed {
        validators,
        block_number: 0,
        block_hash: hash,
        epoch_num: PARLIA_EPOCH,
        turn_length: None,
        block_interval: None,
    }
}

/// What a bootstrapped snapshot is made of: the validators and turn length of the checkpoint
/// header, and the place, hash and block interval of the block itself.
pub open spec fn checkpoint_seed(
    params: ParliaParams,
    block: Header,
    hash: BlockHash,
    epoch_length: u64,
    validators: ValidatorsInfo,
    turn_length: Option<u8>,
) -> SnapshotSeed {
    SnapshotSeed {
        validators,
        block_number: block.number,
        block_hash: hash,
        epoch_num: epoch_length,
        turn_length,
        block_interval: Some(params.block_interval(block.forks)),
    }
}

/// The query is over.
pub open spec fn ended<A>(pending: Seq<BlockHash>, snapshot: Option<Snapshot>) -> QueryView<A> {
    (pending, Phase::Done { result: snapshot }, Effect::Nothing)
}

/// The query waits on, in another phase.
pub open spec fn waiting<A>(pending: Seq<BlockHash>, phase: Phase<A>) -> QueryView<A> {
    (pending, phase, Effect::Nothing)
}

/// The walk begins: the block that was asked for is to be applied, and its parent comes first.
pub open spec fn walk_begins<A>(hash: BlockHash, parent_hash: BlockHash) -> QueryView<A> {
    waiting(seq![hash], Phase::LoadParent { hash: parent_hash })
}

/// The walk goes on past block `hash`: it is to be applied, and its parent comes next.
pub open spec fn walk_on<A>(
    pending: Seq<BlockHash>,
    hash: BlockHash,
    parent: Header,
) -> QueryView<A> {
    waiting(pending.push(hash), Phase::LoadParent { hash: parent.parent_hash })
}

/// The oldest pending block is applied to `working` next. Where none is left, `working` is the
/// snapshot that was asked for.
pub open spec fn apply_next<A>(
    pending: Seq<BlockHash>,
    working: Snapshot,
    effect: Effect,
) -> QueryView<A> {
    if pending.len() == 0 {
        (pending, Phase::Done { result: Some(working) }, Effect::Insert(working))
    } else {
        (pending.drop_last(), Phase::LoadNext { working, hash: pending.last() }, effect)
    }
}

/// What comes of a reply in the first part of a query, up to a block that has a snapshot.
pub open spec fn find_step<A>(
    params: ParliaParams,
    pending: Seq<BlockHash>,
    phase: Phase<A>,
    reply: Reply<A>,
) -> QueryView<A> {
    match (phase, reply) {
        (Phase::FindTarget { hash }, Reply::Snapshot(found)) => match found {
            Some(snapshot) => ended(pending, Some(snapshot)),
            None => waiting(pending, Phase::LoadTarget { hash }),
        },
        (Phase::LoadTarget { hash }, Reply::Header(found)) => match found {
            None => ended(pending, None),
            Some(header) => if header.number == 0 {
                waiting(pending, Phase::ReadGenesisTarget { header })
            } else {
                walk_begins(header.hash(), header.parent_hash)
            },
        },
        (Phase::ReadGenesisTarget { header }, Reply::Validators(read)) => match read {
            None => ended(pending, None),
            Some(validators) => waiting(
                pending,
                Phase::BuildTarget { seed: genesis_seed(header.hash(), validators) },
            ),
        },
        (Phase::BuildTarget { seed }, Reply::Snapshot(Some(snapshot))) => (
            pending,
            Phase::Done { result: Some(snapshot) },
            Effect::Insert(snapshot),
        ),
        (Phase::LoadParent { hash }, Reply::Header(found)) => match found {
            None => ended(pending, None),
            Some(parent) => if parent.number == 0 {
                waiting(pending, Phase::ReadGenesisParent { hash, parent })
            } else {
                waiting(pending, Phase::FindParent { hash, parent })
            },
        },
        (Phase::ReadGenesisParent { hash, parent }, Reply::Validators(read)) => match read {
            None => waiting(pending, Phase::FindParent { hash, parent }),
            Some(validators) => waiting(
                pending,
                Phase::BuildGenesisParent { hash, parent, seed: genesis_seed(parent.hash(), validators) },
            ),
        },
        (Phase::BuildGenesisParent { hash, parent, .. }, Reply::Snapshot(Some(snapshot))) => (
            pending,
            Phase::FindParent { hash, parent },
            Effect::Insert(snapshot),
        ),
        (Phase::FindParent { hash, parent }, Reply::Snapshot(found)) => match found {
            Some(working) => apply_next(pending, working, Effect::Nothing),
            None => if pending.len() > CHECKPOINT_MIN_WALK && params.is_bootstrap_block(
                parent.number,
            ) {
                let number = (parent.number - CHECKPOINT_SNAPSHOT_OFFSET) as u64;
                waiting(pending, Phase::LoadCheckpoint { hash, parent, number })
            } else {
                walk_on(pending, hash, parent)
            },
        },
        _ => waiting(pending, phase),
    }
}

/// What comes of a reply while a query tries to bootstrap a snapshot at a checkpoint block.
pub open spec fn bootstrap_step<A>(
    params: ParliaParams,
    pending: Seq<BlockHash>,
    phase: Phase<A>,
    reply: Reply<A>,
) -> QueryView<A> {
    match (phase, reply) {
        (Phase::LoadCheckpoint { hash, parent, number }, Reply::Header(found)) => match found {
            None => walk_on(pending, hash, parent),
            Some(checkpoint) => waiting(
                pending,
                Phase::LoadCheckpointEpoch { hash, parent, checkpoint, number: (number - 1) as u64 },
            ),
        },
        (
            Phase::LoadCheckpointEpoch { hash, parent, checkpoint, .. },
            Reply::Header(found),
        ) => match found {
            None => walk_on(pending, hash, parent),
            Some(epoch_ref) => {
                let epoch_length = params.epoch_length(epoch_ref.forks);
                waiting(pending, Phase::ReadCheckpoint { hash, parent, checkpoint, epoch_length })
            },
        },
        (
            Phase::ReadCheckpoint { hash, parent, checkpoint, epoch_length },
            Reply::Validators(read),
        ) => match read {
            Some(validators) if validators.consensus_addrs@.len() > 0 => waiting(
                pending,
                Phase::ReadCheckpointTurn { hash, parent, checkpoint, epoch_length, validators },
            ),
            _ => walk_on(pending, hash, parent),
        },
        (
            Phase::ReadCheckpointTurn { hash, parent, checkpoint, epoch_length, validators },
            Reply::TurnLength(read),
        ) => {
            let turn_length = match read {
                Some(turn_length) => turn_length,
                None => None,
            };
            let seed = checkpoint_seed(
                params,
                parent,
                parent.hash(),
                epoch_length,
                validators,
                turn_length,
            );
            waiting(pending, Phase::BuildCheckpoint { hash, parent, seed })
        },
        (Phase::BuildCheckpoint { .. }, Reply::Snapshot(Some(working))) => apply_next(
            pending,
            working,
            Effect::Insert(working),
        ),
        _ => waiting(pending, phase),
    }
}

/// What comes of a reply while a query applies headers.
pub open spec fn replay_step<A>(
    params: ParliaParams,
    pending: Seq<BlockHash>,
    phase: Phase<A>,
    reply: Reply<A>,
) -> QueryView<A> {
    match (phase, reply) {
        (Phase::LoadNext { working, .. }, Reply::Header(found)) => match found {
            None => ended(pending, None),
            Some(header) => if is_epoch_boundary(working, header.number) {
                let number = (header.number - working.miner_history_check_len) as u64;
                waiting(pending, Phase::LoadEpoch { working, header, number })
            } else {
                waiting(
                    pending,
                    Phase::ReadAttestation { working, header, announced: None, turn_length: None },
                )
            },
        },
        (Phase::LoadEpoch { working, header, .. }, Reply::Header(found)) => match found {
            None => ended(pending, None),
            Some(epoch) => waiting(pending, Phase::ReadEpoch { working, header, epoch }),
        },
        (Phase::ReadEpoch { working, header, epoch }, Reply::Validators(read)) => match read {
            None => ended(pending, None),
            Some(validators) => waiting(
                pending,
                Phase::ReadEpochTurn { working, header, epoch, validators },
            ),
        },
        (
            Phase::ReadEpochTurn { working, header, validators, .. },
            Reply::TurnLength(read),
        ) => match read {
            None => ended(pending, None),
            Some(turn_length) => waiting(
                pending,
                Phase::ReadAttestation { working, header, announced: Some(validators), turn_length },
            ),
        },
        (
            Phase::ReadAttestation { working, header, announced, turn_length },
            Reply::Attestation(read),
        ) => match read {
            None => ended(pending, None),
            Some(attestation) => waiting(
                pending,
                Phase::Apply {
                    working,
                    input: ApplyInput { header, validators: announced, attestation, turn_length },
                },
            ),
        },
        (Phase::Apply { .. }, Reply::Snapshot(applied)) => match applied {
            None => ended(pending, None),
            Some(snapshot) => if params.persists(snapshot.block_number) {
                (pending, Phase::Persist { snapshot }, Effect::CacheOnly(snapshot))
            } else {
                apply_next(pending, snapshot, Effect::CacheOnly(snapshot))
            },
        },
        (Phase::Persist { snapshot }, Reply::Persisted(taken)) => if taken {
            apply_next(pending, snapshot, Effect::Nothing)
        } else {
            ended(pending, None)
        },
        _ => waiting(pending, phase),
    }
}

impl<A> Phase<A> {
    /// The phase belongs to a bootstrap.
    pub open spec fn bootstraps(self) -> bool {
        ||| self is LoadCheckpoint
        ||| self is LoadCheckpointEpoch
        ||| self is ReadCheckpoint
        ||| self is ReadCheckpointTurn
        ||| self is BuildCheckpoint
    }

    /// The phase belongs to the replay of headers.
    pub open spec fn replays(self) -> bool {
        ||| self is LoadNext
        ||| self is LoadEpoch
        ||| self is ReadEpoch
        ||| self is ReadEpochTurn
        ||| self is ReadAttestation
        ||| self is Apply
        ||| self is Persist
    }

    /// The phase belongs to the walk over the parents.
    pub open spec fn walks(self) -> bool {
        ||| self is LoadParent
        ||| self is ReadGenesisParent
        ||| self is BuildGenesisParent
        ||| self is FindParent
        ||| self.bootstraps()
    }

    /// A block number that a bootstrap asks for is not the first one.
    pub open spec fn wf(self) -> bool {
        self matches Phase::LoadCheckpoint { number, .. } ==> number > 0
    }
}

/// What comes of a reply. One that the phase does not wait for changes nothing.
pub open spec fn query_step<A>(
    params: ParliaParams,
    pending: Seq<BlockHash>,
    phase: Phase<A>,
    reply: Reply<A>,
) -> QueryView<A> {
    if phase.bootstraps() {
        bootstrap_step(params, pending, phase, reply)
    } else if phase.replays() {
        replay_step(params, pending, phase, reply)
    } else {
        find_step(params, pending, phase, reply)
    }
}

/// Puts together what the genesis snapshot is made of.
pub fn make_genesis_seed(hash: BlockHash, validators: ValidatorsInfo) -> (seed: SnapshotSeed)
    ensures
        seed == genesis_seed(hash, validators),
        seed.validators == validators,
        seed.block_number == 0,
        seed.block_hash == hash,
        seed.epoch_num == 200,
        seed.turn_length is None,
        seed.block_interval is None,
{
    SnapshotSeed {
        validators,
        block_number: 0,
        block_hash: hash,
        epoch_num: PARLIA_EPOCH,
        turn_length: None,
        block_interval: None,
    }
}

/// Puts together what the snapshot of `block`, whose hash is `hash`, is made of where it is
/// bootstrapped from a checkpoint header that carries `validators` and `turn_length`.
pub fn make_checkpoint_seed(
    params: &ParliaParams,
    block: &Header,
    hash: BlockHash,
    epoch_length: u64,
    validators: ValidatorsInfo,
    turn_length: Option<u8>,
) -> (seed: SnapshotSeed)
    ensures
        seed == checkpoint_seed(*params, *block, hash, epoch_length, validators, turn_length),
        seed.validators == validators,
        seed.block_number == block.number,
        seed.block_hash == hash,
        seed.epoch_num == epoch_length,
        seed.turn_length == turn_length,
        seed.block_interval == Some(
            if block.forks.fermi {
                params.fermi_block_interval
            } else if block.forks.maxwell {
                params.maxwell_block_interval
            } else if block.forks.lorentz {
                params.lorentz_block_interval
            } else {
                params.default_block_interval
            },
        ),
{
    SnapshotSeed {
        validators,
        block_number: block.number,
        block_hash: hash,
        epoch_num: epoch_length,
        turn_length,
        block_interval: Some(params.block_interval_at(block)),
    }
}

impl<A> SnapshotQuery<A> {
    /// The walk always has a block to apply, and what a bootstrap asks for exists.
    pub open spec fn wf(self) -> bool {
        &&& self.phase.wf()
        &&& self.phase.walks() ==> self.pending@.len() > 0
    }

    /// A search for the snapshot of block `hash`.
    pub fn new(hash: BlockHash) -> (query: Self)
        ensures
            query.wf(),
            query.pending@ == Seq::<BlockHash>::empty(),
            query.phase == (Phase::<A>::FindTarget { hash }),
    {
        SnapshotQuery { pending: Vec::new(), phase: Phase::FindTarget { hash } }
    }

    /// A search that found no snapshot of block `hash` and walks back from its parent.
    pub fn begin_walk(hash: BlockHash, parent_hash: BlockHash) -> (query: Self)
        ensures
            query.wf(),
            query.with(Effect::Nothing) == walk_begins::<A>(hash, parent_hash),
            query.pending@ == seq![hash],
            query.phase == (Phase::<A>::LoadParent { hash: parent_hash }),
    {
        let mut pending: Vec<BlockHash> = Vec::new();
        pending.push(hash);
        let query = SnapshotQuery { pending, phase: Phase::LoadParent { hash: parent_hash } };
        assert(query.pending@ =~= seq![hash]);
        query
    }

    /// The query as a value.
    pub open spec fn with(self, effect: Effect) -> QueryView<A> {
        (self.pending@, self.phase, effect)
    }

    fn walk_on(pending: Vec<BlockHash>, hash: BlockHash, parent: Header) -> (next: (Self, Effect))
        ensures
            next.0.with(next.1) == walk_on::<A>(pending@, hash, parent),
    {
        let mut pending = pending;
        pending.push(hash);
        let phase = Phase::LoadParent { hash: parent.parent_hash };
        (SnapshotQuery { pending, phase }, Effect::Nothing)
    }

    fn apply_next(pending: Vec<BlockHash>, working: Snapshot, effect: Effect) -> (next: (
        Self,
        Effect,
    ))
        ensures
            next.0.with(next.1) == apply_next::<A>(pending@, working, effect),
    {
        let mut pending = pending;
        match pending.pop() {
            None => {
                let effect = Effect::Insert(working.clone());
                (SnapshotQuery { pending, phase: Phase::Done { result: Some(working) } }, effect)
            },
            Some(hash) => {
                (SnapshotQuery { pending, phase: Phase::LoadNext { working, hash } }, effect)
            },
        }
    }

    fn step_find(self, params: &ParliaParams, reply: Reply<A>) -> (next: (Self, Effect))
        requires
            params.wf(),
            !self.phase.bootstraps(),
            !self.phase.replays(),
        ensures
            next.0.with(next.1) == find_step(*params, self.pending@, self.phase, reply),
    {
        let pending = self.pending;
        let phase = match (self.phase, reply) {
            (Phase::FindTarget { hash }, Reply::Snapshot(found)) => match found {
                Some(snapshot) => Phase::Done { result: Some(snapshot) },
                None => Phase::LoadTarget { hash },
            },
            (Phase::LoadTarget { hash: _ }, Reply::Header(found)) => match found {
                None => Phase::Done { result: None },
                Some(header) => {
                    if header.number == 0 {
                        Phase::ReadGenesisTarget { header }
                    } else {
                        let walk = Self::begin_walk(header.hash_slow(), header.parent_hash);
                        return (walk, Effect::Nothing);
                    }
                },
            },
            (Phase::ReadGenesisTarget { header }, Reply::Validators(read)) => match read {
                None => Phase::Done { result: None },
                Some(validators) => Phase::BuildTarget {
                    seed: make_genesis_seed(header.hash_slow(), validators),
                },
            },
            (Phase::BuildTarget { seed: _ }, Reply::Snapshot(Some(snapshot))) => {
                let effect = Effect::Insert(snapshot.clone());
                let phase = Phase::Done { result: Some(snapshot) };
                return (SnapshotQuery { pending, phase }, effect);
            },
            (Phase::LoadParent { hash }, Reply::Header(found)) => match found {
                None => Phase::Done { result: None },
                Some(parent) => {
                    if parent.number == 0 {
                        Phase::ReadGenesisParent { hash, parent }
                    } else {
                        Phase::FindParent { hash, parent }
                    }
                },
            },
            (Phase::ReadGenesisParent { hash, parent }, Reply::Validators(read)) => match read {
                None => Phase::FindParent { hash, parent },
                Some(validators) => {
                    let seed = make_genesis_seed(parent.hash_slow(), validators);
                    Phase::BuildGenesisParent { hash, parent, seed }
                },
            },
            (
                Phase::BuildGenesisParent { hash, parent, seed: _ },
                Reply::Snapshot(Some(snapshot)),
            ) => {
                let phase = Phase::FindParent { hash, parent };
                return (SnapshotQuery { pending, phase }, Effect::Insert(snapshot));
            },
            (Phase::FindParent { hash, parent }, Reply::Snapshot(found)) => match found {
                Some(working) => return Self::apply_next(pending, working, Effect::Nothing),
                None => {
                    if pending.len() > CHECKPOINT_MIN_WALK && parent.number
                        > CHECKPOINT_SNAPSHOT_OFFSET && parent.number % params.maxwell_epoch_length
                        == CHECKPOINT_SNAPSHOT_OFFSET {
                        let number: u64 = parent.number - CHECKPOINT_SNAPSHOT_OFFSET;
                        Phase::LoadCheckpoint { hash, parent, number }
                    } else {
                        return Self::walk_on(pending, hash, parent);
                    }
                },
            },
            (phase, _) => phase,
        };
        (SnapshotQuery { pending, phase }, Effect::Nothing)
    }

    /// Tries to build a trusted snapshot at a checkpoint block instead of walking to genesis.
    ///
    /// The validators come from the header `CHECKPOINT_SNAPSHOT_OFFSET` blocks back, not from the
    /// block itself: a set that an epoch header carries becomes active only later, and the one
    /// that far back is the right one under every epoch length.
    fn step_bootstrap(self, params: &ParliaParams, reply: Reply<A>) -> (next: (Self, Effect))
        requires
            self.phase.wf(),
            self.phase.bootstraps(),
        ensures
            next.0.with(next.1) == bootstrap_step(*params, self.pending@, self.phase, reply),
    {
        let pending = self.pending;
        let phase = match (self.phase, reply) {
            (Phase::LoadCheckpoint { hash, parent, number }, Reply::Header(found)) => match found {
                None => return Self::walk_on(pending, hash, parent),
                Some(checkpoint) => {
                    let number: u64 = number - 1;
                    Phase::LoadCheckpointEpoch { hash, parent, checkpoint, number }
                },
            },
            (
                Phase::LoadCheckpointEpoch { hash, parent, checkpoint, number: _ },
                Reply::Header(found),
            ) => match found {
                None => return Self::walk_on(pending, hash, parent),
                Some(epoch_ref) => {
                    let epoch_length: u64 = params.epoch_length_at(&epoch_ref);
                    Phase::ReadCheckpoint { hash, parent, checkpoint, epoch_length }
                },
            },
            (
                Phase::ReadCheckpoint { hash, parent, checkpoint, epoch_length },
                Reply::Validators(read),
            ) => match read {
                None => return Self::walk_on(pending, hash, parent),
                Some(validators) => {
                    if validators.consensus_addrs.is_empty() {
                        return Self::walk_on(pending, hash, parent);
                    }
                    Phase::ReadCheckpointTurn { hash, parent, checkpoint, epoch_length, validators }
                },
            },
            (
                Phase::ReadCheckpointTurn { hash, parent, checkpoint: _, epoch_length, validators },
                Reply::TurnLength(read),
            ) => {
                let turn_length = match read {
                    Some(turn_length) => turn_length,
                    None => None,
                };
                let hash_slow: BlockHash = parent.hash_slow();
                let seed = make_checkpoint_seed(
                    params,
                    &parent,
                    hash_slow,
                    epoch_length,
                    validators,
                    turn_length,
                );
                Phase::BuildCheckpoint { hash, parent, seed }
            },
            (
                Phase::BuildCheckpoint { hash: _, parent: _, seed: _ },
                Reply::Snapshot(Some(working)),
            ) => {
                let effect = Effect::Insert(working.clone());
                return Self::apply_next(pending, working, effect);
            },
            (phase, _) => phase,
        };
        (SnapshotQuery { pending, phase }, Effect::Nothing)
    }

    fn step_replay(self, params: &ParliaParams, reply: Reply<A>) -> (next: (Self, Effect))
        requires
            self.phase.replays(),
            divides(self.phase, reply),
        ensures
            next.0.with(next.1) == replay_step(*params, self.pending@, self.phase, reply),
    {
        let pending = self.pending;
        let phase = match (self.phase, reply) {
            (Phase::LoadNext { working, hash: _ }, Reply::Header(found)) => match found {
                None => Phase::Done { result: None },
                Some(header) => {
                    let epoch_remainder: u64 = header.number % working.epoch_num;
                    let miner_check_len: u64 = working.miner_history_check_len;
                    if header.number > 0 && epoch_remainder == miner_check_len {
                        proof {
                            vstd::arithmetic::div_mod::lemma_mod_decreases(
                                header.number as nat,
                                working.epoch_num as nat,
                            );
                        }
                        let number: u64 = header.number - miner_check_len;
                        Phase::LoadEpoch { working, header, number }
                    } else {
                        Phase::ReadAttestation {
                            working,
                            header,
                            announced: None,
                            turn_length: None,
                        }
                    }
                },
            },
            (Phase::LoadEpoch { working, header, number: _ }, Reply::Header(found)) => match found {
                None => Phase::Done { result: None },
                Some(epoch) => Phase::ReadEpoch { working, header, epoch },
            },
            (Phase::ReadEpoch { working, header, epoch }, Reply::Validators(read)) => match read {
                None => Phase::Done { result: None },
                Some(validators) => Phase::ReadEpochTurn { working, header, epoch, validators },
            },
            (
                Phase::ReadEpochTurn { working, header, epoch: _, validators },
                Reply::TurnLength(read),
            ) => match read {
                None => Phase::Done { result: None },
                Some(turn_length) => Phase::ReadAttestation {
                    working,
                    header,
                    announced: Some(validators),
                    turn_length,
                },
            },
            (
                Phase::ReadAttestation { working, header, announced, turn_length },
                Reply::Attestation(read),
            ) => match read {
                None => Phase::Done { result: None },
                Some(attestation) => Phase::Apply {
                    working,
                    input: ApplyInput { header, validators: announced, attestation, turn_length },
                },
            },
            (Phase::Apply { working: _, input: _ }, Reply::Snapshot(applied)) => match applied {
                None => Phase::Done { result: None },
                Some(snapshot) => {
                    let effect = Effect::CacheOnly(snapshot.clone());
                    if multiple_of(snapshot.block_number, params.checkpoint_interval) {
                        return (
                            SnapshotQuery { pending, phase: Phase::Persist { snapshot } },
                            effect,
                        );
                    }
                    return Self::apply_next(pending, snapshot, effect);
                },
            },
            (Phase::Persist { snapshot }, Reply::Persisted(taken)) => {
                if taken {
                    return Self::apply_next(pending, snapshot, Effect::Nothing);
                }
                Phase::Done { result: None }
            },
            (phase, _) => phase,
        };
        (SnapshotQuery { pending, phase }, Effect::Nothing)
    }

    /// Takes the reply that the phase waits for. Any other one changes nothing.
    pub fn step(self, params: &ParliaParams, reply: Reply<A>) -> (next: (Self, Effect))
        requires
            self.wf(),
            params.wf(),
            divides(self.phase, reply),
        ensures
            next.0.wf(),
            next.0.with(next.1) == query_step(*params, self.pending@, self.phase, reply),
            next.0.pending@ == query_step(*params, self.pending@, self.phase, reply).0,
            next.0.phase == query_step(*params, self.pending@, self.phase, reply).1,
            next.1 == query_step(*params, self.pending@, self.phase, reply).2,
    {
        match self.phase {
            Phase::LoadCheckpoint { .. }
            | Phase::LoadCheckpointEpoch { .. }
            | Phase::ReadCheckpoint { .. }
            | Phase::ReadCheckpointTurn { .. }
            | Phase::BuildCheckpoint { .. } => self.step_bootstrap(params, reply),
            Phase::LoadNext { .. }
            | Phase::LoadEpoch { .. }
            | Phase::ReadEpoch { .. }
            | Phase::ReadEpochTurn { .. }
            | Phase::ReadAttestation { .. }
            | Phase::Apply { .. }
            | Phase::Persist { .. } => self.step_replay(params, reply),
            _ => self.step_find(params, reply),
        }
    }
}

/// Block `number` is the one, `check_len` blocks past an epoch header, with which the set of that
/// header becomes active, just where it is a multiple of the epoch length and `check_len` more.
proof fn lemma_boundary(number: u64, epoch: u64, check_len: u64)
    requires
        epoch > 0,
    ensures
        number % epoch == check_len <==> check_len < epoch && exists|k: int|
            k >= 0 && number == #[trigger] (k * epoch) + check_len,
        number % epoch == check_len ==> number >= check_len && (number - check_len) % (epoch as int)
            == 0,
{
    let n = number as int;
    let e = epoch as int;
    let l = check_len as int;
    let q = n / e;
    vstd::arithmetic::div_mod::lemma_fundamental_div_mod(n, e);
    vstd::arithmetic::mul::lemma_mul_is_commutative(e, q);
    vstd::arithmetic::div_mod::lemma_mod_bound(n, e);
    vstd::arithmetic::div_mod::lemma_div_pos_is_pos(n, e);
    if number % epoch == check_len {
        assert(n == q * e + l);
        vstd::arithmetic::div_mod::lemma_mod_multiples_basic(q, e);
        assert(n - l == q * e);
        assert(q * e >= 0) by (nonlinear_arith)
            requires
                q >= 0,
                e > 0,
        ;
    }
    if l < e && exists|k: int| k >= 0 && n == #[trigger] (k * e) + l {
        let k = choose|k: int| k >= 0 && n == #[trigger] (k * e) + l;
        vstd::arithmetic::div_mod::lemma_fundamental_div_mod_converse(n, e, k, l);
    }
}

/// With e the epoch length and l the history length of the snapshot that block n is to be applied
/// to: just where n is not zero and n = k * e + l for some k, with l < e, the canonical header of
/// block n - l is loaded, which is a multiple of e. With every other block no validators and no turn
/// length are announced.
pub proof fn law_epoch_set_becomes_active_past_its_header<A>(
    params: ParliaParams,
    pending: Seq<BlockHash>,
    working: Snapshot,
    hash: BlockHash,
    header: Header,
)
    requires
        working.epoch_num > 0,
    ensures
        ({
            let n = header.number as int;
            let e = working.epoch_num as int;
            let l = working.miner_history_check_len as int;
            let load = Phase::<A>::LoadNext { working, hash };
            let next = query_step(params, pending, load, Reply::Header(Some(header)));
            let active = n > 0 && l < e && exists|k: int| k >= 0 && n == #[trigger] (k * e) + l;
            &&& active ==> n >= l && (n - l) % e == 0 && next == (
                pending,
                Phase::<A>::LoadEpoch { working, header, number: (n - l) as u64 },
                Effect::Nothing,
            )
            &&& !active ==> next == (
                pending,
                Phase::<A>::ReadAttestation { working, header, announced: None, turn_length: None },
                Effect::Nothing,
            )
        }),
{
    let e = working.epoch_num as int;
    let l = working.miner_history_check_len as int;
    lemma_boundary(header.number, working.epoch_num, working.miner_history_check_len);
    if exists|k: int| k >= 0 && header.number == #[trigger] (k * e) + l {
        let k = choose|k: int| k >= 0 && header.number == #[trigger] (k * e) + l;
        assert(header.number == k * working.epoch_num + working.miner_history_check_len);
    }
    if exists|k: int|
        k >= 0 && header.number == #[trigger] (k * working.epoch_num)
            + working.miner_history_check_len {
        let k = choose|k: int|
            k >= 0 && header.number == #[trigger] (k * working.epoch_num)
                + working.miner_history_check_len;
        assert(header.number == k * e + l);
    }
}

/// What the epoch header carries is what is applied with the block: its validators and its turn
/// length, with the attestation that the block itself carries.
pub proof fn law_epoch_set_is_applied_with_the_block<A>(
    params: ParliaParams,
    pending: Seq<BlockHash>,
    working: Snapshot,
    header: Header,
    number: u64,
    epoch: Header,
    validators: ValidatorsInfo,
    turn_length: Option<u8>,
    attestation: Option<A>,
)
    ensures
        ({
            let load = Phase::<A>::LoadEpoch { working, header, number };
            let read = query_step(params, pending, load, Reply::Header(Some(epoch)));
            let turn = query_step(params, read.0, read.1, Reply::Validators(Some(validators)));
            let attest = query_step(params, turn.0, turn.1, Reply::TurnLength(Some(turn_length)));
            let apply = query_step(params, attest.0, attest.1, Reply::Attestation(Some(attestation)));
            &&& apply.0 == pending
            &&& apply.1 matches Phase::Apply { working: w, input } && w == working && input.header
                == header && input.validators == Some(validators) && input.turn_length
                == turn_length && input.attestation == attestation
        }),
{
}

/// A block with which no set becomes active is applied without validators and without a turn length.
pub proof fn law_ordinary_block_announces_nothing<A>(
    params: ParliaParams,
    pending: Seq<BlockHash>,
    working: Snapshot,
    header: Header,
    attestation: Option<A>,
)
    ensures
        ({
            let attest = Phase::<A>::ReadAttestation {
                working,
                header,
                announced: None,
                turn_length: None,
            };
            let apply = query_step(params, pending, attest, Reply::Attestation(Some(attestation)));
            &&& apply.0 == pending
            &&& apply.1 matches Phase::Apply { working: w, input } && w == working && input.header
                == header && input.validators is None && input.turn_length is None
                && input.attestation == attestation
        }),
{
}

/// What cannot be read or applied while headers are applied ends the query without a snapshot.
pub proof fn law_failed_replay_ends_without_snapshot<A>(
    params: ParliaParams,
    pending: Seq<BlockHash>,
    phase: Phase<A>,
    reply: Reply<A>,
)
    requires
        match (phase, reply) {
            (Phase::LoadNext { .. }, Reply::Header(None)) => true,
            (Phase::LoadEpoch { .. }, Reply::Header(None)) => true,
            (Phase::ReadEpoch { .. }, Reply::Validators(None)) => true,
            (Phase::ReadEpochTurn { .. }, Reply::TurnLength(None)) => true,
            (Phase::ReadAttestation { .. }, Reply::Attestation(None)) => true,
            (Phase::Apply { .. }, Reply::Snapshot(None)) => true,
            (Phase::Persist { .. }, Reply::Persisted(false)) => true,
            _ => false,
        },
    ensures
        query_step(params, pending, phase, reply) == (
            pending,
            Phase::<A>::Done { result: None },
            Effect::Nothing,
        ),
{
}

/// The genesis snapshot is made of the validators read from the genesis header, in consensus and in
/// vote addresses, of block number zero, of the hash of the header and of an epoch of two hundred
/// blocks.
pub proof fn law_genesis_seed_holds_what_was_read<A>(
    params: ParliaParams,
    pending: Seq<BlockHash>,
    hash: BlockHash,
    header: Header,
    validators: ValidatorsInfo,
)
    ensures
        ({
            let read = Reply::<A>::Validators(Some(validators));
            let asked = query_step(params, pending, Phase::ReadGenesisTarget { header }, read).1;
            let walked = query_step(
                params,
                pending,
                Phase::ReadGenesisParent { hash, parent: header },
                read,
            ).1;
            &&& asked matches Phase::BuildTarget { seed } && seed.validators == validators
                && seed.block_number == 0 && seed.block_hash@ == header.hash()@ && seed.epoch_num
                == 200 && seed.turn_length is None && seed.block_interval is None
            &&& walked matches Phase::BuildGenesisParent { hash: h, parent, seed } && h == hash
                && parent == header && seed.validators == validators && seed.block_number == 0
                && seed.block_hash@ == header.hash()@ && seed.epoch_num == 200 && seed.turn_length
                is None && seed.block_interval is None
        }),
{
}

/// A bootstrapped snapshot is made of the very validators that were read from the checkpoint header,
/// in consensus and in vote addresses, with the epoch length that they were read with, of the turn
/// length that was read, and of the number, hash and block interval of the block itself.
pub proof fn law_bootstrap_seed_holds_what_was_read<A>(
    params: ParliaParams,
    pending: Seq<BlockHash>,
    hash: BlockHash,
    parent: Header,
    checkpoint: Header,
    epoch_length: u64,
    validators: ValidatorsInfo,
    read: Option<Option<u8>>,
)
    requires
        validators.consensus_addrs@.len() > 0,
    ensures
        ({
            let load = Phase::<A>::ReadCheckpoint { hash, parent, checkpoint, epoch_length };
            let turn = query_step(params, pending, load, Reply::Validators(Some(validators)));
            let built = query_step(params, turn.0, turn.1, Reply::TurnLength(read));
            &&& built.0 == pending
            &&& built.1 matches Phase::BuildCheckpoint { hash: h, parent: p, seed } && h == hash && p
                == parent && seed.validators == validators && seed.block_number == parent.number
                && seed.block_hash@ == parent.hash()@ && seed.epoch_num == epoch_length
                && seed.turn_length == (if read is Some {
                read->0
            } else {
                None
            }) && seed.block_interval == Some(
                if parent.forks.fermi {
                    params.fermi_block_interval
                } else if parent.forks.maxwell {
                    params.maxwell_block_interval
                } else if parent.forks.lorentz {
                    params.lorentz_block_interval
                } else {
                    params.default_block_interval
                },
            )
        }),
{
}

/// A bootstrap is tried just where more than ninety thousand blocks are pending and the block is two
/// hundred past a multiple of the longest epoch, above two hundred. It asks for the canonical header
/// two hundred blocks back and then for the one before it, whose forks give the epoch length.
pub proof fn law_bootstrap_is_tried_deep_in_the_walk<A>(
    params: ParliaParams,
    pending: Seq<BlockHash>,
    hash: BlockHash,
    parent: Header,
    checkpoint: Header,
    epoch_ref: Header,
)
    requires
        params.maxwell_epoch_length > 0,
    ensures
        ({
            let find = Phase::<A>::FindParent { hash, parent };
            let next = query_step(params, pending, find, Reply::Snapshot(None));
            let deep = pending.len() > 90_000 && parent.number > 200 && parent.number
                % params.maxwell_epoch_length == 200;
            let load = Phase::<A>::LoadCheckpoint {
                hash,
                parent,
                number: (parent.number - 200) as u64,
            };
            let ref_load = Phase::<A>::LoadCheckpointEpoch {
                hash,
                parent,
                checkpoint,
                number: (parent.number - 201) as u64,
            };
            let epoch_length = if epoch_ref.forks.maxwell {
                params.maxwell_epoch_length
            } else if epoch_ref.forks.lorentz {
                params.lorentz_epoch_length
            } else {
                params.default_epoch_length
            };
            &&& deep ==> next == (pending, load, Effect::Nothing)
            &&& !deep ==> next == (
                pending.push(hash),
                Phase::<A>::LoadParent { hash: parent.parent_hash },
                Effect::Nothing,
            )
            &&& parent.number > 200 ==> query_step(
                params,
                pending,
                load,
                Reply::Header(Some(checkpoint)),
            ) == (pending, ref_load, Effect::Nothing)
            &&& query_step(params, pending, ref_load, Reply::Header(Some(epoch_ref))) == (
                pending,
                Phase::<A>::ReadCheckpoint { hash, parent, checkpoint, epoch_length },
                Effect::Nothing,
            )
        }),
{
}

/// Where a bootstrap fails, for want of a header or of validators, the walk goes on past the block
/// as if it had not been tried.
pub proof fn law_failed_bootstrap_walks_on<A>(
    params: ParliaParams,
    pending: Seq<BlockHash>,
    phase: Phase<A>,
    reply: Reply<A>,
    hash: BlockHash,
    parent: Header,
)
    requires
        match (phase, reply) {
            (Phase::LoadCheckpoint { hash: h, parent: p, .. }, Reply::Header(None)) => h == hash
                && p == parent,
            (Phase::LoadCheckpointEpoch { hash: h, parent: p, .. }, Reply::Header(None)) => h
                == hash && p == parent,
            (Phase::ReadCheckpoint { hash: h, parent: p, .. }, Reply::Validators(read)) => h == hash
                && p == parent && (read matches Some(v) ==> v.consensus_addrs@.len() == 0),
            _ => false,
        },
    ensures
        query_step(params, pending, phase, reply) == (
            pending.push(hash),
            Phase::<A>::LoadParent { hash: parent.parent_hash },
            Effect::Nothing,
        ),
{
}

/// A snapshot that was found, bootstrapped, or applied and persisted where that is due, is what the
/// oldest pending block is applied to next. Where no block is pending it is the result, and is kept.
pub proof fn law_oldest_pending_block_comes_next<A>(
    params: ParliaParams,
    pending: Seq<BlockHash>,
    phase: Phase<A>,
    reply: Reply<A>,
    working: Snapshot,
)
    requires
        match (phase, reply) {
            (Phase::FindParent { .. }, Reply::Snapshot(Some(s))) => s == working,
            (Phase::BuildCheckpoint { .. }, Reply::Snapshot(Some(s))) => s == working,
            (Phase::Apply { .. }, Reply::Snapshot(Some(s))) => s == working && (if params.checkpoint_interval
                == 0 {
                s.block_number != 0
            } else {
                s.block_number % params.checkpoint_interval != 0
            }),
            (Phase::Persist { snapshot }, Reply::Persisted(true)) => snapshot == working,
            _ => false,
        },
    ensures
        ({
            let next = query_step(params, pending, phase, reply);
            &&& pending.len() == 0 ==> next == (
                pending,
                Phase::<A>::Done { result: Some(working) },
                Effect::Insert(working),
            )
            &&& pending.len() > 0 ==> next.0 == pending.take(pending.len() - 1) && next.1 == (Phase::<
                A,
            >::LoadNext { working, hash: pending[pending.len() - 1] })
            &&& pending.len() > 0 ==> next.2 == match phase {
                Phase::BuildCheckpoint { .. } => Effect::Insert(working),
                Phase::Apply { .. } => Effect::CacheOnly(working),
                _ => Effect::Nothing,
            }
        }),
{
    crate::parlia::types::law_checkpoints_are_multiples_of_the_interval(
        params,
        working.block_number,
    );
    if pending.len() > 0 {
        assert(pending.drop_last() =~= pending.take(pending.len() - 1));
    }
}

/// A snapshot whose number leaves no remainder by the checkpoint interval is cached and goes to the
/// database before anything else.
pub proof fn law_due_snapshot_is_persisted_next<A>(
    params: ParliaParams,
    pending: Seq<BlockHash>,
    working: Snapshot,
    input: ApplyInput<A>,
    applied: Snapshot,
)
    requires
        if params.checkpoint_interval == 0 {
            applied.block_number == 0
        } else {
            applied.block_number % params.checkpoint_interval == 0
        },
    ensures
        query_step(
            params,
            pending,
            Phase::Apply { working, input },
            Reply::Snapshot(Some(applied)),
        ) == (pending, Phase::<A>::Persist { snapshot: applied }, Effect::CacheOnly(applied)),
{
    crate::parlia::types::law_checkpoints_are_multiples_of_the_interval(
        params,
        applied.block_number,
    );
}

/// How a query begins: a snapshot that is found is the result. Without one the header is loaded, and
/// without that there is no result. The walk begins at the parent, with the block itself pending
/// under the hash of its header, but for genesis, whose validators are read.
pub proof fn law_query_begins_with_a_lookup<A>(
    params: ParliaParams,
    pending: Seq<BlockHash>,
    hash: BlockHash,
    snapshot: Snapshot,
    header: Header,
)
    ensures
        ({
            let find = Phase::<A>::FindTarget { hash };
            let load = Phase::<A>::LoadTarget { hash };
            let none = Phase::<A>::Done { result: None };
            let begun = query_step(params, pending, load, Reply::Header(Some(header)));
            &&& query_step(params, pending, find, Reply::Snapshot(Some(snapshot))) == (
                pending,
                Phase::<A>::Done { result: Some(snapshot) },
                Effect::Nothing,
            )
            &&& query_step(params, pending, find, Reply::Snapshot(None)) == (
                pending,
                load,
                Effect::Nothing,
            )
            &&& query_step(params, pending, load, Reply::Header(None)) == (
                pending,
                none,
                Effect::Nothing,
            )
            &&& header.number == 0 ==> begun == (
                pending,
                Phase::<A>::ReadGenesisTarget { header },
                Effect::Nothing,
            )
            &&& header.number != 0 ==> begun == (
                seq![header.hash()],
                Phase::<A>::LoadParent { hash: header.parent_hash },
                Effect::Nothing,
            )
        }),
{
}

/// How the walk arrives at a block: without its header the query is over. The snapshot of genesis is
/// built and kept first, if its validators can be read, and then the snapshot of the block is looked
/// up as that of any other. Asked for by itself, genesis without validators has no snapshot.
pub proof fn law_walk_looks_every_block_up<A>(
    params: ParliaParams,
    pending: Seq<BlockHash>,
    hash: BlockHash,
    parent: Header,
    seed: SnapshotSeed,
    snapshot: Snapshot,
)
    ensures
        ({
            let load = Phase::<A>::LoadParent { hash };
            let find = Phase::<A>::FindParent { hash, parent };
            let none = Phase::<A>::Done { result: None };
            let arrived = query_step(params, pending, load, Reply::Header(Some(parent)));
            &&& query_step(params, pending, load, Reply::Header(None)) == (
                pending,
                none,
                Effect::Nothing,
            )
            &&& parent.number != 0 ==> arrived == (pending, find, Effect::Nothing)
            &&& parent.number == 0 ==> arrived == (
                pending,
                Phase::<A>::ReadGenesisParent { hash, parent },
                Effect::Nothing,
            )
            &&& query_step(
                params,
                pending,
                Phase::<A>::ReadGenesisParent { hash, parent },
                Reply::Validators(None),
            ) == (pending, find, Effect::Nothing)
            &&& query_step(
                params,
                pending,
                Phase::<A>::BuildGenesisParent { hash, parent, seed },
                Reply::Snapshot(Some(snapshot)),
            ) == (pending, find, Effect::Insert(snapshot))
            &&& query_step(
                params,
                pending,
                Phase::<A>::ReadGenesisTarget { header: parent },
                Reply::Validators(None),
            ) == (pending, none, Effect::Nothing)
            &&& query_step(
                params,
                pending,
                Phase::<A>::BuildTarget { seed },
                Reply::Snapshot(Some(snapshot)),
            ) == (
                pending,
                Phase::<A>::Done { result: Some(snapshot) },
                Effect::Insert(snapshot),
            )
        }),
{
}

/// A reply of a kind that the phase does not wait for changes nothing, and neither does a missing
/// snapshot where one was to be built. A query that is over stays so.
pub proof fn law_unexpected_reply_changes_nothing<A>(
    params: ParliaParams,
    pending: Seq<BlockHash>,
    phase: Phase<A>,
    reply: Reply<A>,
)
    requires
        match reply {
            Reply::Snapshot(found) => !(phase is FindTarget || phase is FindParent || phase is Apply
                || (found is Some && (phase is BuildTarget || phase is BuildGenesisParent || phase
                is BuildCheckpoint))),
            Reply::Header(_) => !(phase is LoadTarget || phase is LoadParent || phase is LoadNext
                || phase is LoadCheckpoint || phase is LoadCheckpointEpoch || phase is LoadEpoch),
            Reply::Validators(_) => !(phase is ReadGenesisTarget || phase is ReadGenesisParent
                || phase is ReadCheckpoint || phase is ReadEpoch),
            Reply::TurnLength(_) => !(phase is ReadCheckpointTurn || phase is ReadEpochTurn),
            Reply::Attestation(_) => !(phase is ReadAttestation),
            Reply::Persisted(_) => !(phase is Persist),
        },
    ensures
        query_step(params, pending, phase, reply) == (pending, phase, Effect::Nothing),
{
}

}
