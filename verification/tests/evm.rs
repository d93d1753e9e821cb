use bsc_node::evm::{BlockEnv, BscEvm, BscExecutorBuilder, BscTxEnv, CfgEnv, Execution};
use bsc_node::primitives::U256;

fn number(n: u64) -> U256 {
    U256 { limbs: alloy_primitives::U256::from(n).into_limbs() }
}

fn machine() -> BscEvm {
    BscEvm {
        cfg: CfgEnv { chain_id: 56, disable_nonce_check: false },
        block: BlockEnv { number: number(1200), gas_limit: 30_000_000, basefee: 7 },
        inspect: false,
    }
}

fn plain() -> BscTxEnv {
    BscTxEnv {
        is_system_transaction: false,
        block_number_override: None,
        gas_limit: 21_000,
        value: number(5),
    }
}

fn parts(evm: &BscEvm) -> (u64, u64, u64, u64, bool, bool) {
    (
        evm.block().number.limbs[0],
        evm.block().gas_limit,
        evm.block().basefee,
        evm.chain_id(),
        evm.cfg_env().disable_nonce_check,
        evm.inspect,
    )
}

#[test]
fn plain_transaction_runs_in_the_environment_as_it_is() {
    let mut evm = machine();
    let begun = evm.begin_transact(&plain());
    assert!(begun.fund.is_none());
    let saved = evm.enter_transact(&plain(), begun);
    assert_eq!(parts(&evm), parts(&machine()));
    evm.end_transact(saved);
    assert_eq!(parts(&evm), parts(&machine()));
}

#[test]
fn overridden_number_is_seen_and_put_back() {
    let tx = BscTxEnv { block_number_override: Some(number(1199)), ..plain() };
    let mut evm = machine();
    let begun = evm.begin_transact(&tx);
    assert!(begun.fund.is_none());
    let saved = evm.enter_transact(&tx, begun);
    assert_eq!(parts(&evm), (1199, 30_000_000, 7, 56, false, false));
    evm.end_transact(saved);
    assert_eq!(parts(&evm), parts(&machine()));
}

#[test]
fn system_transaction_is_funded_and_free() {
    let tx = BscTxEnv { is_system_transaction: true, gas_limit: u64::MAX / 2, ..plain() };
    let mut evm = machine();
    let begun = evm.begin_transact(&tx);
    assert_eq!(begun.fund.map(|value| value.limbs), Some([5, 0, 0, 0]));
    // Until the beneficiary is funded, the rest of the environment is as it was.
    assert_eq!(parts(&evm), parts(&machine()));
    let saved = evm.enter_transact(&tx, begun);
    assert_eq!(parts(&evm), (1200, u64::MAX / 2, 0, 56, true, false));
    evm.end_transact(saved);
    assert_eq!(parts(&evm), parts(&machine()));
}

#[test]
fn overrides_do_not_outlive_a_transaction_that_changes_the_environment() {
    let tx = BscTxEnv {
        is_system_transaction: true,
        block_number_override: Some(number(3)),
        ..plain()
    };
    let mut evm = machine();
    evm.cfg.disable_nonce_check = true;
    let begun = evm.begin_transact(&tx);
    let saved = evm.enter_transact(&tx, begun);
    evm.block.number = number(99);
    evm.block.gas_limit = 1;
    evm.block.basefee = 2;
    evm.cfg.disable_nonce_check = false;
    evm.set_inspector_enabled(true);
    evm.end_transact(saved);
    assert_eq!(parts(&evm), (1200, 30_000_000, 7, 56, true, true));
}

#[test]
fn machine_comes_apart() {
    let mut evm = machine();
    evm.set_inspector_enabled(true);
    assert!(evm.inspect);
    assert!(matches!(evm.execution(), Execution::Inspect));
    evm.set_inspector_enabled(false);
    assert!(!evm.inspect);
    assert!(matches!(evm.execution(), Execution::Transact));
    let (block, cfg) = evm.finish();
    assert_eq!(block.gas_limit, 30_000_000);
    assert_eq!(cfg.chain_id, 56);
    assert_eq!(format!("{:?}", BscExecutorBuilder::default()), "BscExecutorBuilder");
}
