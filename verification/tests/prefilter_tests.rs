use pipe_exec_layer::amount::Amount;
use pipe_exec_layer::prefilter::{filter_invalid_txs, AccountInfo, StateView};
use pipe_exec_layer::types::{Address, Tx};

fn addr(n: u32) -> Address {
    Address { hi: 0, lo: n }
}

fn tx(nonce: u64, gas_limit: u64, price: u128) -> Tx {
    Tx { nonce, gas_limit, priority_fee_or_price: price, payload: vec![nonce as u8] }
}

fn account(nonce: u64, balance: u128) -> AccountInfo {
    AccountInfo { nonce, balance: Amount::from_u128(balance) }
}

#[test]
fn drops_nonce_mismatched_tx() {
    // Sender A has on-chain nonce 5; transactions carry nonces 5 and 7.
    let a = addr(1);
    let state = StateView { accounts: vec![(a, account(5, 1_000_000))] };
    let txs = vec![tx(5, 1, 0), tx(7, 1, 0)];
    let senders = vec![a, a];
    let (out_txs, out_senders) = filter_invalid_txs(&state, txs, senders, 0);
    assert_eq!(out_txs.len(), 1);
    assert_eq!(out_senders.len(), 1);
    assert_eq!(out_txs[0].nonce, 5);
}

#[test]
fn drops_insufficient_balance_tx() {
    // Sender B has balance 100 and nonce 0. The first transaction
    // spends 10 * 5 = 50; the second would need 20 * 5 = 100 against
    // the remaining 50 and is dropped.
    let b = addr(2);
    let state = StateView { accounts: vec![(b, account(0, 100))] };
    let txs = vec![tx(0, 10, 5), tx(1, 20, 5)];
    let senders = vec![b, b];
    let (out_txs, out_senders) = filter_invalid_txs(&state, txs, senders, 0);
    assert_eq!(out_txs.len(), 1);
    assert_eq!(out_senders.len(), 1);
    assert_eq!(out_txs[0].nonce, 0);
    assert_eq!(out_txs[0].gas_limit, 10);
}

#[test]
fn base_fee_counts_toward_the_charge() {
    // With base fee 4 the first transaction costs 10 * (1 + 4) = 50;
    // the second costs 20 * (1 + 4) = 100 against the remaining 50.
    let b = addr(3);
    let state = StateView { accounts: vec![(b, account(0, 100))] };
    let txs = vec![tx(0, 10, 1), tx(1, 20, 1)];
    let senders = vec![b, b];
    let (out_txs, _) = filter_invalid_txs(&state, txs, senders, 4);
    assert_eq!(out_txs.len(), 1);
}

#[test]
fn missing_sender_drops_its_whole_bucket() {
    let known = addr(4);
    let unknown = addr(5);
    let state = StateView { accounts: vec![(known, account(0, 1_000))] };
    let txs = vec![tx(0, 1, 1), tx(0, 1, 1), tx(1, 1, 1)];
    let senders = vec![unknown, known, known];
    let (out_txs, out_senders) = filter_invalid_txs(&state, txs, senders, 0);
    assert_eq!(out_txs.len(), 2);
    assert_eq!(out_senders, vec![known, known]);
    assert_eq!(out_txs[0].nonce, 0);
    assert_eq!(out_txs[1].nonce, 1);
}

#[test]
fn preserves_relative_order_across_senders() {
    // Two senders interleaved; one transaction in the middle drops.
    let a = addr(6);
    let b = addr(7);
    let state =
        StateView { accounts: vec![(a, account(0, 1_000)), (b, account(0, 1_000))] };
    let txs = vec![tx(0, 1, 1), tx(0, 1, 1), tx(5, 1, 1), tx(1, 1, 1)];
    let senders = vec![a, b, a, b];
    let (out_txs, out_senders) = filter_invalid_txs(&state, txs, senders, 0);
    assert_eq!(out_txs.len(), 3);
    assert_eq!(out_senders, vec![a, b, b]);
    assert_eq!(out_txs[0].payload, vec![0]);
    assert_eq!(out_txs[1].payload, vec![0]);
    assert_eq!(out_txs[2].payload, vec![1]);
}

#[test]
fn filter_is_idempotent_on_concrete_inputs() {
    let a = addr(8);
    let b = addr(9);
    let state =
        StateView { accounts: vec![(a, account(3, 120)), (b, account(0, 10))] };
    let txs = vec![tx(3, 10, 5), tx(0, 4, 2), tx(4, 20, 5), tx(1, 4, 2)];
    let senders = vec![a, b, a, b];
    let (once_txs, once_senders) =
        filter_invalid_txs(&state, txs.clone(), senders.clone(), 1);
    let (twice_txs, twice_senders) =
        filter_invalid_txs(&state, once_txs.clone(), once_senders.clone(), 1);
    assert_eq!(once_txs, twice_txs);
    assert_eq!(once_senders, twice_senders);
}

#[test]
fn all_valid_block_passes_unchanged() {
    let a = addr(10);
    let state = StateView { accounts: vec![(a, account(0, 1_000_000))] };
    let txs = vec![tx(0, 10, 3), tx(1, 10, 3), tx(2, 10, 3)];
    let senders = vec![a, a, a];
    let (out_txs, out_senders) = filter_invalid_txs(&state, txs.clone(), senders.clone(), 2);
    assert_eq!(out_txs, txs);
    assert_eq!(out_senders, senders);
}

#[test]
fn empty_block_stays_empty() {
    let state = StateView { accounts: vec![] };
    let (out_txs, out_senders) = filter_invalid_txs(&state, vec![], vec![], 7);
    assert!(out_txs.is_empty());
    assert!(out_senders.is_empty());
}

#[test]
fn charges_are_exact_in_wide_arithmetic() {
    // A fee far beyond 128 bits: gas_limit near 2^64 times a price near
    // 2^127 still compares exactly against a 256-bit balance.
    let rich = addr(11);
    let poor = addr(12);
    let gas: u64 = u64::MAX;
    let price: u128 = 1u128 << 100;
    // fee = gas * price exactly; give one sender just enough and the
    // other one unit less.
    let fee_hi: u128 = {
        // gas * price = (2^64 - 1) * 2^100 = 2^164 - 2^100:
        // hi = 2^36 - 1, lo = 2^128 - 2^100.
        (1u128 << 36) - 1
    };
    let fee_lo: u128 = u128::MAX - (1u128 << 100) + 1;
    let rich_acc = AccountInfo { nonce: 0, balance: Amount { hi: fee_hi, lo: fee_lo } };
    let poor_acc = AccountInfo {
        nonce: 0,
        balance: Amount { hi: fee_hi, lo: fee_lo - 1 },
    };
    let state = StateView { accounts: vec![(rich, rich_acc), (poor, poor_acc)] };
    let txs = vec![tx(0, gas, price), tx(0, gas, price)];
    let senders = vec![rich, poor];
    let (out_txs, out_senders) = filter_invalid_txs(&state, txs, senders, 0);
    assert_eq!(out_txs.len(), 1);
    assert_eq!(out_senders, vec![rich]);
}
