use pipe_exec_layer::block_build::{
    hash_header, requests_hash, transactions_root, withdrawals_root,
};
use pipe_exec_layer::types::{Address, Bytes32, Header, Tx, Withdrawal};

fn to_b256(x: &Bytes32) -> alloy_primitives::B256 {
    let mut b = [0u8; 32];
    b[..16].copy_from_slice(&x.hi.to_be_bytes());
    b[16..].copy_from_slice(&x.lo.to_be_bytes());
    alloy_primitives::B256::new(b)
}

fn from_b256(x: alloy_primitives::B256) -> Bytes32 {
    let mut hi = [0u8; 16];
    let mut lo = [0u8; 16];
    hi.copy_from_slice(&x.0[..16]);
    lo.copy_from_slice(&x.0[16..]);
    Bytes32 { hi: u128::from_be_bytes(hi), lo: u128::from_be_bytes(lo) }
}

const EMPTY_TRIE_ROOT: Bytes32 = Bytes32 {
    hi: 0x56e81f171bcc55a6ff8345e692c0f86e,
    lo: 0x5b48e01b996cadc001622fb5e363b421,
};

#[test]
fn empty_transactions_root_is_the_empty_trie_root() {
    let r = transactions_root(&vec![]);
    assert_eq!(r, EMPTY_TRIE_ROOT);
    assert_eq!(to_b256(&r), alloy_trie::EMPTY_ROOT_HASH);
}

#[test]
fn transactions_root_matches_alloy_over_the_payloads() {
    let txs = vec![
        Tx { nonce: 0, gas_limit: 1, priority_fee_or_price: 1, payload: vec![1, 2, 3] },
        Tx { nonce: 1, gas_limit: 1, priority_fee_or_price: 1, payload: vec![4, 5] },
    ];
    let r = transactions_root(&txs);
    let payloads: Vec<&[u8]> = txs.iter().map(|t| t.payload.as_slice()).collect();
    let expected = alloy_consensus::proofs::ordered_trie_root_encoded(&payloads);
    assert_eq!(to_b256(&r), expected);
    assert_ne!(r, EMPTY_TRIE_ROOT);
}

#[test]
fn withdrawals_root_matches_alloy() {
    let w = Withdrawal {
        index: 3,
        validator_index: 9,
        address: Address { hi: 0xabcd, lo: 0x1234 },
        amount: 1_000_000,
    };
    let r = withdrawals_root(&vec![w]);
    let mut addr = [0u8; 20];
    addr[..16].copy_from_slice(&w.address.hi.to_be_bytes());
    addr[16..].copy_from_slice(&w.address.lo.to_be_bytes());
    let expected = alloy_consensus::proofs::calculate_withdrawals_root(&[
        alloy_eips::eip4895::Withdrawal {
            index: 3,
            validator_index: 9,
            address: alloy_primitives::Address::new(addr),
            amount: 1_000_000,
        },
    ]);
    assert_eq!(to_b256(&r), expected);
}

#[test]
fn requests_hash_matches_alloy() {
    let reqs = vec![vec![0u8, 1, 2, 3], vec![1u8, 9, 9]];
    let r = requests_hash(&reqs);
    let items: Vec<alloy_primitives::Bytes> = reqs
        .iter()
        .map(|q| alloy_primitives::Bytes::copy_from_slice(q))
        .collect();
    let expected = alloy_eips::eip7685::Requests::new(items).requests_hash();
    assert_eq!(to_b256(&r), expected);
}

#[test]
fn sealed_hash_is_the_keccak_of_the_rlp_header() {
    let h = Header {
        parent_hash: Bytes32 { hi: 1, lo: 2 },
        ommers_hash: Bytes32 {
            hi: 0x1dcc4de8dec75d7aab85b567b6ccd41a,
            lo: 0xd312451b948a7413f0a142fd40d49347,
        },
        beneficiary: Address { hi: 77, lo: 88 },
        state_root: Bytes32 { hi: 3, lo: 4 },
        transactions_root: EMPTY_TRIE_ROOT,
        receipts_root: EMPTY_TRIE_ROOT,
        logs_bloom: [0u8; 256],
        number: 11,
        gas_limit: 1_000_000_000,
        gas_used: 0,
        timestamp: 5,
        mix_hash: Bytes32 { hi: 6, lo: 7 },
        nonce: 0,
        base_fee_per_gas: Some(7),
        withdrawals_root: Some(EMPTY_TRIE_ROOT),
        blob_gas_used: Some(0),
        excess_blob_gas: Some(0),
        parent_beacon_block_root: Some(Bytes32 { hi: 8, lo: 9 }),
        requests_hash: None,
    };
    let got = hash_header(&h);

    let mut addr = [0u8; 20];
    addr[..16].copy_from_slice(&h.beneficiary.hi.to_be_bytes());
    addr[16..].copy_from_slice(&h.beneficiary.lo.to_be_bytes());
    let mut expected = alloy_consensus::Header::default();
    expected.parent_hash = to_b256(&h.parent_hash);
    expected.ommers_hash = to_b256(&h.ommers_hash);
    expected.beneficiary = alloy_primitives::Address::new(addr);
    expected.state_root = to_b256(&h.state_root);
    expected.transactions_root = to_b256(&h.transactions_root);
    expected.receipts_root = to_b256(&h.receipts_root);
    expected.logs_bloom = alloy_primitives::Bloom::new(h.logs_bloom);
    expected.number = 11;
    expected.gas_limit = 1_000_000_000;
    expected.gas_used = 0;
    expected.timestamp = 5;
    expected.mix_hash = to_b256(&h.mix_hash);
    expected.nonce = alloy_primitives::B64::new(0u64.to_be_bytes());
    expected.base_fee_per_gas = Some(7);
    expected.withdrawals_root = Some(to_b256(&EMPTY_TRIE_ROOT));
    expected.blob_gas_used = Some(0);
    expected.excess_blob_gas = Some(0);
    expected.parent_beacon_block_root =
        Some(to_b256(&Bytes32 { hi: 8, lo: 9 }));
    assert_eq!(got, from_b256(expected.hash_slow()));
}
