//! The environment in which a transaction runs.
//!
//! Some transactions run in an environment of their own: one that must see the parent's block
//! number, and a system transaction, which pays no fee and skips the nonce check. The environment
//! is changed for the one execution and put back afterwards.

use vstd::prelude::*;

use crate::primitives::U256;

verus! {

/// What a transaction can see of its block, as far as it may be overridden.
#[derive(Debug, Clone, Copy)]
pub struct BlockEnv {
    pub number: U256,
    pub gas_limit: u64,
    pub basefee: u64,
}

/// The configuration of the machine.
#[derive(Debug, Clone, Copy)]
pub struct CfgEnv {
    pub chain_id: u64,
    pub disable_nonce_check: bool,
}

/// What decides about the environment of a transaction.
#[derive(Debug, Clone, Copy)]
pub struct BscTxEnv {
    /// A system transaction is sent by the block's beneficiary, who is funded for it.
    pub is_system_transaction: bool,
    /// Number of the block in whose context the transaction is to run.
    pub block_number_override: Option<U256>,
    pub gas_limit: u64,
    pub value: U256,
}

/// What a system transaction replaces in the environment.
#[derive(Debug, Clone, Copy)]
pub struct SavedSystemEnv {
    pub gas_limit: u64,
    pub basefee: u64,
    pub disable_nonce_check: bool,
}

/// What the environment held before it was changed, where it was changed.
#[derive(Debug, Clone, Copy)]
pub struct SavedEnv {
    pub number: Option<U256>,
    pub system: Option<SavedSystemEnv>,
}

/// What comes between the two steps in which the environment is set.
#[derive(Debug, Clone, Copy)]
pub struct BegunTransact {
    /// The block number that was replaced.
    pub number: Option<U256>,
    /// What the beneficiary is to be funded with.
    pub fund: Option<U256>,
}

/// How a transaction is executed.
#[derive(Debug, Clone, Copy)]
pub enum Execution {
    /// With the inspector looking on.
    Inspect,
    /// Without it.
    Transact,
}

/// The machine, as far as its environment goes.
#[derive(Debug, Clone, Copy)]
pub struct BscEvm {
    pub cfg: CfgEnv,
    pub block: BlockEnv,
    pub inspect: bool,
}

impl BscEvm {
    /// The configuration.
    pub fn cfg_env(&self) -> (cfg: &CfgEnv)
        ensures
            *cfg == self.cfg,
    {
        &self.cfg
    }

    /// The identifier of the chain.
    pub fn chain_id(&self) -> (id: u64)
        ensures
            id == self.cfg.chain_id,
    {
        self.cfg.chain_id
    }

    /// The block environment.
    pub fn block(&self) -> (block: &BlockEnv)
        ensures
            *block == self.block,
    {
        &self.block
    }

    /// Lets the inspector see executions, or not.
    pub fn set_inspector_enabled(&mut self, enabled: bool)
        ensures
            *final(self) == (BscEvm { inspect: enabled, ..*old(self) }),
    {
        self.inspect = enabled;
    }

    /// How transactions are executed: the inspector looks on just where it is enabled.
    pub fn execution(&self) -> (execution: Execution)
        ensures
            execution == if self.inspect {
                Execution::Inspect
            } else {
                Execution::Transact
            },
    {
        if self.inspect {
            Execution::Inspect
        } else {
            Execution::Transact
        }
    }

    /// Takes the machine apart.
    pub fn finish(self) -> (env: (BlockEnv, CfgEnv))
        ensures
            env == (self.block, self.cfg),
    {
        (self.block, self.cfg)
    }

    /// The environment with the block number that `tx` asks for.
    pub open spec fn with_number_for(self, tx: BscTxEnv) -> BscEvm {
        match tx.block_number_override {
            Some(number) => BscEvm { block: BlockEnv { number, ..self.block }, ..self },
            None => self,
        }
    }

    /// The environment in which a system transaction runs. Another one runs in it as it is.
    pub open spec fn with_system_env_for(self, tx: BscTxEnv) -> BscEvm {
        if tx.is_system_transaction {
            BscEvm {
                cfg: CfgEnv { disable_nonce_check: true, ..self.cfg },
                block: BlockEnv { gas_limit: tx.gas_limit, basefee: 0, ..self.block },
                inspect: self.inspect,
            }
        } else {
            self
        }
    }

    /// The environment in which `tx` runs.
    pub open spec fn environment_for(self, tx: BscTxEnv) -> BscEvm {
        self.with_number_for(tx).with_system_env_for(tx)
    }

    /// What of the environment `tx` changes.
    pub open spec fn saved_for(self, tx: BscTxEnv) -> SavedEnv {
        SavedEnv {
            number: match tx.block_number_override {
                Some(_) => Some(self.block.number),
                None => None,
            },
            system: if tx.is_system_transaction {
                Some(
                    SavedSystemEnv {
                        gas_limit: self.block.gas_limit,
                        basefee: self.block.basefee,
                        disable_nonce_check: self.cfg.disable_nonce_check,
                    },
                )
            } else {
                None
            },
        }
    }

    /// The environment with what was saved put back.
    pub open spec fn restored(self, saved: SavedEnv) -> BscEvm {
        let number = match saved.number {
            Some(number) => number,
            None => self.block.number,
        };
        match saved.system {
            Some(system) => BscEvm {
                cfg: CfgEnv {
                    chain_id: self.cfg.chain_id,
                    disable_nonce_check: system.disable_nonce_check,
                },
                block: BlockEnv { number, gas_limit: system.gas_limit, basefee: system.basefee },
                inspect: self.inspect,
            },
            None => BscEvm { block: BlockEnv { number, ..self.block }, ..self },
        }
    }

    /// Sets the block number that `tx` asks for, and says what the beneficiary is to be funded with
    /// before the rest of the environment is set.
    ///
    /// A system contract may derive a seed from the block number, so a call that is made in the
    /// context of another block must see the number of that one.
    pub fn begin_transact(&mut self, tx: &BscTxEnv) -> (begun: BegunTransact)
        ensures
            *final(self) == old(self).with_number_for(*tx),
            begun.number == old(self).saved_for(*tx).number,
            begun.fund == if tx.is_system_transaction {
                Some(tx.value)
            } else {
                None
            },
    {
        let number = match tx.block_number_override {
            Some(number) => {
                let saved = self.block.number;
                self.block.number = number;
                Some(saved)
            },
            None => None,
        };
        let fund = if tx.is_system_transaction {
            Some(tx.value)
        } else {
            None
        };
        BegunTransact { number, fund }
    }

    /// Sets the rest of the environment for `tx`, and says what to put back afterwards.
    pub fn enter_transact(&mut self, tx: &BscTxEnv, begun: BegunTransact) -> (saved: SavedEnv)
        ensures
            *final(self) == old(self).with_system_env_for(*tx),
            saved == (SavedEnv { number: begun.number, system: old(self).saved_for(*tx).system }),
    {
        let system = if tx.is_system_transaction {
            let system = SavedSystemEnv {
                gas_limit: self.block.gas_limit,
                basefee: self.block.basefee,
                disable_nonce_check: self.cfg.disable_nonce_check,
            };
            self.block.gas_limit = tx.gas_limit;
            self.block.basefee = 0;
            self.cfg.disable_nonce_check = true;
            Some(system)
        } else {
            None
        };
        SavedEnv { number: begun.number, system }
    }

    /// Puts back what was changed, whatever the execution came to. The rest stays as it left it.
    pub fn end_transact(&mut self, saved: SavedEnv)
        ensures
            *final(self) == old(self).restored(saved),
    {
        if let Some(system) = saved.system {
            self.block.gas_limit = system.gas_limit;
            self.block.basefee = system.basefee;
            self.cfg.disable_nonce_check = system.disable_nonce_check;
        }
        if let Some(number) = saved.number {
            self.block.number = number;
        }
    }

    /// What is saved in the two steps is what `tx` changes of the environment it was given.
    pub proof fn law_both_steps_save_what_is_changed(self, tx: BscTxEnv)
        ensures
            self.with_number_for(tx).saved_for(tx).system == self.saved_for(tx).system,
    {
    }

    /// An execution that leaves the environment alone leaves no trace in it: afterwards it is what
    /// it was before.
    pub proof fn law_environment_is_put_back(self, tx: BscTxEnv)
        ensures
            self.environment_for(tx).restored(self.saved_for(tx)) == self,
    {
    }

    /// Whatever an execution does to the environment, every part of it that was overridden is
    /// afterwards what it was before, and the chain identifier and inspector are as it left them.
    pub proof fn law_overrides_do_not_outlive_the_transaction(self, tx: BscTxEnv, left: BscEvm)
        ensures
            ({
                let after = left.restored(self.saved_for(tx));
                &&& tx.block_number_override is Some ==> after.block.number == self.block.number
                &&& tx.block_number_override is None ==> after.block.number == left.block.number
                &&& tx.is_system_transaction ==> {
                    &&& after.block.gas_limit == self.block.gas_limit
                    &&& after.block.basefee == self.block.basefee
                    &&& after.cfg.disable_nonce_check == self.cfg.disable_nonce_check
                }
                &&& !tx.is_system_transaction ==> {
                    &&& after.block.gas_limit == left.block.gas_limit
                    &&& after.block.basefee == left.block.basefee
                    &&& after.cfg.disable_nonce_check == left.cfg.disable_nonce_check
                }
                &&& after.cfg.chain_id == left.cfg.chain_id
                &&& after.inspect == left.inspect
            }),
    {
    }

    /// A system transaction runs with its own gas limit, without a base fee and without the nonce
    /// check; any other leaves these as they are. The block number is the one that the transaction
    /// asks for, if it does. The chain identifier is never touched.
    pub proof fn law_environment_is_what_the_transaction_asks_for(self, tx: BscTxEnv)
        ensures
            ({
                let env = self.environment_for(tx);
                &&& tx.block_number_override matches Some(number) ==> env.block.number == number
                &&& tx.block_number_override is None ==> env.block.number == self.block.number
                &&& tx.is_system_transaction ==> env.block.gas_limit == tx.gas_limit
                    && env.block.basefee == 0 && env.cfg.disable_nonce_check
                &&& !tx.is_system_transaction ==> env.block.gas_limit == self.block.gas_limit
                    && env.block.basefee == self.block.basefee && env.cfg.disable_nonce_check
                    == self.cfg.disable_nonce_check
                &&& env.cfg.chain_id == self.cfg.chain_id
                &&& env.inspect == self.inspect
            }),
    {
    }

    /// The first step sets the block number alone, and the second the rest, so that the beneficiary
    /// is funded in between in an environment that is otherwise as it was.
    pub proof fn law_steps_set_their_own_part(self, tx: BscTxEnv)
        ensures
            ({
                let first = self.with_number_for(tx);
                let second = self.with_system_env_for(tx);
                &&& first.block.gas_limit == self.block.gas_limit
                &&& first.block.basefee == self.block.basefee
                &&& first.cfg == self.cfg
                &&& first.inspect == self.inspect
                &&& tx.block_number_override matches Some(number) ==> first.block.number == number
                &&& tx.block_number_override is None ==> first == self
                &&& second.block.number == self.block.number
                &&& second.cfg.chain_id == self.cfg.chain_id
                &&& second.inspect == self.inspect
                &&& !tx.is_system_transaction ==> second == self
                &&& tx.is_system_transaction ==> second.block.gas_limit == tx.gas_limit
                    && second.block.basefee == 0 && second.cfg.disable_nonce_check
            }),
    {
    }

    /// Whatever a transaction asks for, the inspector looks on just where it is enabled.
    pub proof fn law_environment_keeps_the_inspector(self, tx: BscTxEnv)
        ensures
            self.environment_for(tx).inspect == self.inspect,
    {
    }

    /// A transaction that asks for nothing special runs in the environment as it is.
    pub proof fn law_plain_transaction_changes_nothing(self, tx: BscTxEnv)
        requires
            !tx.is_system_transaction,
            tx.block_number_override is None,
        ensures
            self.environment_for(tx) == self,
    {
    }
}

/// A regular bsc evm and executor builder.
#[derive(Debug, Default, Clone, Copy)]
#[non_exhaustive]
pub struct BscExecutorBuilder;

}
