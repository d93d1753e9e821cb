//! What the snapshot logic reads of headers, snapshots and chain parameters.

use std::sync::Arc;

use vstd::prelude::*;

use crate::primitives;
use crate::primitives::{Address, BlockHash, VoteAddress};

verus! {

/// Epoch length with which the consensus engine of a provider is set up.
pub const PARLIA_EPOCH: u64 = 200;

/// Distance back from a checkpoint block to the header that carries the active validator set.
pub const CHECKPOINT_SNAPSHOT_OFFSET: u64 = 200;

/// A checkpoint bootstrap is trusted only once the walk is deeper than any reorg could reach.
pub const CHECKPOINT_MIN_WALK: usize = 90_000;

/// The hard forks in force at a block.
#[derive(Debug, Clone, Copy, PartialEq, Eq, Structural)]
pub struct Forks {
    pub lorentz: bool,
    pub maxwell: bool,
    pub fermi: bool,
}

/// A block header.
#[derive(Debug)]
pub struct Header {
    pub number: u64,
    pub parent_hash: BlockHash,
    pub beneficiary: Address,
    /// The hard forks that the chain specification has in force at this header.
    pub forks: Forks,
    /// The RLP encoding of the whole header.
    pub rlp: Arc<Vec<u8>>,
}

impl Clone for Header {
    fn clone(&self) -> (copy: Self)
        ensures
            copy == *self,
    {
        Header {
            number: self.number,
            parent_hash: self.parent_hash,
            beneficiary: self.beneficiary,
            forks: self.forks,
            rlp: Arc::clone(&self.rlp),
        }
    }
}

impl Header {
    /// The hash of the header: Keccak-256 of its RLP encoding.
    pub open spec fn hash(self) -> BlockHash {
        choose|hash: BlockHash| #[trigger] hash@ == primitives::keccak256_of(self.rlp@)
    }

    /// Computes the hash of the header.
    pub fn hash_slow(&self) -> (hash: BlockHash)
        ensures
            hash == self.hash(),
            hash@ == primitives::keccak256_of(self.rlp@),
    {
        let hash: BlockHash = primitives::keccak256(&self.rlp);
        assert(hash =~= self.hash());
        hash
    }
}

/// Validator information extracted from a header.
#[derive(Debug)]
pub struct ValidatorsInfo {
    pub consensus_addrs: Vec<Address>,
    pub vote_addrs: Option<Vec<VoteAddress>>,
}

impl ValidatorsInfo {
    /// What a block that is no epoch boundary announces.
    pub fn unchanged() -> (info: Self)
        ensures
            info.consensus_addrs@.len() == 0,
            info.vote_addrs is None,
    {
        ValidatorsInfo { consensus_addrs: Vec::new(), vote_addrs: None }
    }
}

/// The consensus state after a block.
#[derive(Debug)]
pub struct Snapshot {
    pub block_number: u64,
    pub block_hash: BlockHash,
    pub epoch_num: u64,
    /// How many blocks after an epoch header its validator set becomes active.
    pub miner_history_check_len: u64,
    /// The encoding of the whole state.
    pub state: Arc<Vec<u8>>,
}

impl Clone for Snapshot {
    fn clone(&self) -> (copy: Self)
        ensures
            copy == *self,
    {
        Snapshot {
            block_number: self.block_number,
            block_hash: self.block_hash,
            epoch_num: self.epoch_num,
            miner_history_check_len: self.miner_history_check_len,
            state: Arc::clone(&self.state),
        }
    }
}

/// What a snapshot is made of that does not come from the one before it.
///
/// Its history starts empty. A turn length or block interval that is not given stays at what a
/// new snapshot has.
#[derive(Debug)]
pub struct SnapshotSeed {
    pub validators: ValidatorsInfo,
    pub block_number: u64,
    pub block_hash: BlockHash,
    pub epoch_num: u64,
    pub turn_length: Option<u8>,
    pub block_interval: Option<u64>,
}

/// What is applied to a snapshot to get the next one.
#[derive(Debug)]
pub struct ApplyInput<A> {
    pub header: Header,
    /// The validators that become active with the block, where it is an epoch boundary.
    pub validators: Option<ValidatorsInfo>,
    pub attestation: Option<A>,
    pub turn_length: Option<u8>,
}

/// The constants of the consensus rules.
#[derive(Debug, Clone, Copy)]
pub struct ParliaParams {
    pub default_epoch_length: u64,
    pub lorentz_epoch_length: u64,
    pub maxwell_epoch_length: u64,
    pub default_block_interval: u64,
    pub lorentz_block_interval: u64,
    pub maxwell_block_interval: u64,
    pub fermi_block_interval: u64,
    /// Every how many blocks a snapshot goes to the database.
    pub checkpoint_interval: u64,
}

impl ParliaParams {
    /// Block numbers can be reduced by the longest epoch.
    pub open spec fn wf(self) -> bool {
        self.maxwell_epoch_length > 0
    }

    /// The epoch length of the latest fork in force.
    pub open spec fn epoch_length(self, forks: Forks) -> u64 {
        if forks.maxwell {
            self.maxwell_epoch_length
        } else if forks.lorentz {
            self.lorentz_epoch_length
        } else {
            self.default_epoch_length
        }
    }

    /// The block interval of the latest fork in force.
    pub open spec fn block_interval(self, forks: Forks) -> u64 {
        if forks.fermi {
            self.fermi_block_interval
        } else if forks.maxwell {
            self.maxwell_block_interval
        } else if forks.lorentz {
            self.lorentz_block_interval
        } else {
            self.default_block_interval
        }
    }

    /// Whether a snapshot of block `number` goes to the database.
    pub open spec fn persists(self, number: u64) -> bool {
        is_multiple(number, self.checkpoint_interval)
    }

    /// Whether block `number` can bootstrap a snapshot: `CHECKPOINT_SNAPSHOT_OFFSET` blocks past
    /// a multiple of the longest epoch, and past the first such block.
    pub open spec fn is_bootstrap_block(self, number: u64) -> bool {
        &&& number > CHECKPOINT_SNAPSHOT_OFFSET
        &&& number % self.maxwell_epoch_length == CHECKPOINT_SNAPSHOT_OFFSET
    }

    /// Epoch length in force at this header.
    pub fn epoch_length_at(&self, header: &Header) -> (length: u64)
        ensures
            length == self.epoch_length(header.forks),
            header.forks.maxwell ==> length == self.maxwell_epoch_length,
            !header.forks.maxwell && header.forks.lorentz ==> length == self.lorentz_epoch_length,
            !header.forks.maxwell && !header.forks.lorentz ==> length == self.default_epoch_length,
    {
        if header.forks.maxwell {
            self.maxwell_epoch_length
        } else if header.forks.lorentz {
            self.lorentz_epoch_length
        } else {
            self.default_epoch_length
        }
    }

    /// Expected block interval in force at this header.
    pub fn block_interval_at(&self, header: &Header) -> (interval: u64)
        ensures
            interval == self.block_interval(header.forks),
            header.forks.fermi ==> interval == self.fermi_block_interval,
            !header.forks.fermi && header.forks.maxwell ==> interval == self.maxwell_block_interval,
            !header.forks.fermi && !header.forks.maxwell && header.forks.lorentz ==> interval
                == self.lorentz_block_interval,
            !header.forks.fermi && !header.forks.maxwell && !header.forks.lorentz ==> interval
                == self.default_block_interval,
    {
        if header.forks.fermi {
            self.fermi_block_interval
        } else if header.forks.maxwell {
            self.maxwell_block_interval
        } else if header.forks.lorentz {
            self.lorentz_block_interval
        } else {
            self.default_block_interval
        }
    }
}

/// Whether `number` is a multiple of `step`. Zero is the only multiple of zero.
pub open spec fn is_multiple(number: u64, step: u64) -> bool {
    exists|k: int| number == #[trigger] (k * step)
}

proof fn lemma_is_multiple(number: u64, step: u64)
    ensures
        is_multiple(number, step) == (if step == 0 {
            number == 0
        } else {
            number % step == 0
        }),
{
    if step == 0 {
        if number == 0 {
            assert(number == 0int * step);
        }
        if is_multiple(number, step) {
            let k = choose|k: int| number == #[trigger] (k * step);
            assert(k * step == 0) by (nonlinear_arith)
                requires
                    step == 0,
            ;
        }
    } else {
        if number % step == 0 {
            let k = (number / step) as int;
            vstd::arithmetic::div_mod::lemma_fundamental_div_mod(number as int, step as int);
            vstd::arithmetic::mul::lemma_mul_is_commutative(k, step as int);
            assert(number == k * step);
        }
        if is_multiple(number, step) {
            let k = choose|k: int| number == #[trigger] (k * step);
            vstd::arithmetic::div_mod::lemma_mod_multiples_basic(k, step as int);
        }
    }
}

/// Computes whether `number` is a multiple of `step`.
pub fn multiple_of(number: u64, step: u64) -> (multiple: bool)
    ensures
        multiple == is_multiple(number, step),
        step > 0 ==> multiple == (number % step == 0),
        step == 0 ==> multiple == (number == 0),
{
    proof {
        lemma_is_multiple(number, step);
    }
    number.is_multiple_of(step)
}

/// A snapshot goes to the database just where its number leaves no remainder by the checkpoint
/// interval; with an interval of zero, only that of block zero does.
pub proof fn law_checkpoints_are_multiples_of_the_interval(params: ParliaParams, number: u64)
    ensures
        params.checkpoint_interval > 0 ==> params.persists(number) == (number
            % params.checkpoint_interval == 0),
        params.checkpoint_interval == 0 ==> params.persists(number) == (number == 0),
{
    lemma_is_multiple(number, params.checkpoint_interval);
}

/// The latest fork in force decides about the epoch length.
pub proof fn law_latest_fork_gives_the_epoch_length(params: ParliaParams, forks: Forks)
    ensures
        forks.maxwell ==> params.epoch_length(forks) == params.maxwell_epoch_length,
        !forks.maxwell && forks.lorentz ==> params.epoch_length(forks)
            == params.lorentz_epoch_length,
        !forks.maxwell && !forks.lorentz ==> params.epoch_length(forks)
            == params.default_epoch_length,
{
}

/// The latest fork in force decides about the block interval.
pub proof fn law_latest_fork_gives_the_block_interval(params: ParliaParams, forks: Forks)
    ensures
        forks.fermi ==> params.block_interval(forks) == params.fermi_block_interval,
        !forks.fermi && forks.maxwell ==> params.block_interval(forks)
            == params.maxwell_block_interval,
        !forks.fermi && !forks.maxwell && forks.lorentz ==> params.block_interval(forks)
            == params.lorentz_block_interval,
        !forks.fermi && !forks.maxwell && !forks.lorentz ==> params.block_interval(forks)
            == params.default_block_interval,
{
}

/// The blocks that can bootstrap are those two hundred past a multiple of the longest epoch, but for
/// the first: 1200, 2200, 3200 and so on with an epoch of a thousand blocks. With an epoch of two
/// hundred blocks or fewer there is none.
pub proof fn law_bootstrap_blocks_are_two_hundred_past_an_epoch(params: ParliaParams, number: u64)
    requires
        params.maxwell_epoch_length > 0,
    ensures
        params.is_bootstrap_block(number) <==> params.maxwell_epoch_length > 200 && exists|k: int|
            k >= 1 && number == #[trigger] (k * params.maxwell_epoch_length) + 200,
        params.is_bootstrap_block(number) ==> number > 200 && (number - 200) % (
        params.maxwell_epoch_length as int) == 0,
{
    let n = number as int;
    let e = params.maxwell_epoch_length as int;
    let q = n / e;
    vstd::arithmetic::div_mod::lemma_fundamental_div_mod(n, e);
    vstd::arithmetic::mul::lemma_mul_is_commutative(e, q);
    vstd::arithmetic::div_mod::lemma_mod_bound(n, e);
    if params.is_bootstrap_block(number) {
        assert(n == q * e + 200);
        assert(q >= 1) by (nonlinear_arith)
            requires
                n == q * e + 200,
                n > 200,
                e > 0,
        ;
        vstd::arithmetic::div_mod::lemma_mod_multiples_basic(q, e);
        assert(n - 200 == q * e);
    }
    if e > 200 && exists|k: int| k >= 1 && n == #[trigger] (k * e) + 200 {
        let k = choose|k: int| k >= 1 && n == #[trigger] (k * e) + 200;
        vstd::arithmetic::div_mod::lemma_fundamental_div_mod_converse(n, e, k, 200);
        assert(k * e > 0) by (nonlinear_arith)
            requires
                k >= 1,
                e > 0,
        ;
    }
}

}
