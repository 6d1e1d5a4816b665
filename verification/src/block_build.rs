//! Building the Ethereum block through the pipeline stages: the header
//! skeleton from the ordered block, the hardfork-gated optional fields,
//! the roots computed after execution, and the seal. The Merkle and
//! hash computations themselves come from the alloy crates behind
//! trusted wrappers; everything around them is verified.

use crate::prefilter::{filter_invalid_txs, keep, spec_valid_flags, StateView};
use crate::types::{Address, Block, Bytes32, ChainConfig, Header, OrderedBlock, Tx, Withdrawal};
use alloy_consensus::Header as AlloyHeader;
use alloy_eips::eip4895::Withdrawal as AlloyWithdrawal;
use alloy_primitives::Address as AlloyAddress;
use alloy_primitives::FixedBytes;
use vstd::prelude::*;

verus! {

/// The fixed gas limit the pipeline gives every block it builds.
pub const BLOCK_GAS_LIMIT: u64 = 1_000_000_000;

/// The hash of an empty ommers list, as Ethereum defines it.
pub open spec fn empty_ommers_root() -> Bytes32 {
    Bytes32 { hi: 0x1dcc4de8dec75d7aab85b567b6ccd41a, lo: 0xd312451b948a7413f0a142fd40d49347 }
}

/// The root of an empty Merkle-Patricia trie: the withdrawals root and
/// transactions root of a block with none of either.
pub open spec fn empty_trie_root() -> Bytes32 {
    Bytes32 { hi: 0x56e81f171bcc55a6ff8345e692c0f86e, lo: 0x5b48e01b996cadc001622fb5e363b421 }
}

/// The withdrawals-trie root of a withdrawal list; computed by alloy.
pub uninterp spec fn withdrawals_root_of(ws: Seq<Withdrawal>) -> Bytes32;

/// The transactions-trie root over the EIP-2718 encoded transactions;
/// computed by alloy.
pub uninterp spec fn tx_root_of(payloads: Seq<Seq<u8>>) -> Bytes32;

/// The EIP-7685 commitment over the block's request payloads; computed
/// by alloy.
pub uninterp spec fn requests_hash_of(reqs: Seq<Seq<u8>>) -> Bytes32;

/// The Ethereum block hash: keccak-256 of the RLP-encoded header;
/// computed by alloy.
pub uninterp spec fn header_hash_of(h: Header) -> Bytes32;

#[verifier::external_type_specification]
#[verifier::external_body]
pub struct ExFixedBytes<const N: usize>(FixedBytes<N>);

#[verifier::external_type_specification]
#[verifier::external_body]
pub struct ExAlloyAddress(AlloyAddress);

#[verifier::external_type_specification]
#[verifier::external_body]
pub struct ExAlloyWithdrawal(AlloyWithdrawal);

#[verifier::external_type_specification]
#[verifier::external_body]
pub struct ExAlloyHeader(AlloyHeader);

/// Converts this library's 32-byte value to alloy's.
#[verifier::external_body]
fn to_b256(x: &Bytes32) -> alloy_primitives::B256 {
    let mut b = [0u8; 32];
    b[..16].copy_from_slice(&x.hi.to_be_bytes());
    b[16..].copy_from_slice(&x.lo.to_be_bytes());
    alloy_primitives::B256::new(b)
}

/// Converts alloy's 32-byte value back to this library's.
#[verifier::external_body]
fn from_b256(x: alloy_primitives::B256) -> Bytes32 {
    let mut hi = [0u8; 16];
    let mut lo = [0u8; 16];
    hi.copy_from_slice(&x.0[..16]);
    lo.copy_from_slice(&x.0[16..]);
    Bytes32 { hi: u128::from_be_bytes(hi), lo: u128::from_be_bytes(lo) }
}

/// Converts this library's address to alloy's 20-byte address.
#[verifier::external_body]
fn to_alloy_address(a: &Address) -> AlloyAddress {
    let mut b = [0u8; 20];
    b[..16].copy_from_slice(&a.hi.to_be_bytes());
    b[16..].copy_from_slice(&a.lo.to_be_bytes());
    AlloyAddress::new(b)
}

/// Converts a withdrawal to alloy's.
#[verifier::external_body]
fn to_alloy_withdrawal(w: &Withdrawal) -> AlloyWithdrawal {
    AlloyWithdrawal {
        index: w.index,
        validator_index: w.validator_index,
        address: to_alloy_address(&w.address),
        amount: w.amount,
    }
}

/// Converts an optional 32-byte value field by field.
#[verifier::external_body]
fn opt_b256(x: &Option<Bytes32>) -> Option<alloy_primitives::B256> {
    match x {
        Some(v) => Some(to_b256(v)),
        None => None,
    }
}

/// Converts the root and hash fields of a header to an alloy header.
#[verifier::external_body]
fn header_roots_part(h: &Header) -> AlloyHeader {
    let mut a = AlloyHeader::default();
    a.parent_hash = to_b256(&h.parent_hash);
    a.ommers_hash = to_b256(&h.ommers_hash);
    a.beneficiary = to_alloy_address(&h.beneficiary);
    a.state_root = to_b256(&h.state_root);
    a.transactions_root = to_b256(&h.transactions_root);
    a.receipts_root = to_b256(&h.receipts_root);
    a.mix_hash = to_b256(&h.mix_hash);
    a.logs_bloom = alloy_primitives::Bloom::new(h.logs_bloom);
    a
}

/// Converts the remaining header fields; difficulty stays zero and the
/// extra-data field empty, as this pipeline always leaves them.
#[verifier::external_body]
fn to_alloy_header(h: &Header) -> AlloyHeader {
    let mut a = header_roots_part(h);
    a.number = h.number;
    a.gas_limit = h.gas_limit;
    a.gas_used = h.gas_used;
    a.timestamp = h.timestamp;
    a.nonce = alloy_primitives::B64::new(h.nonce.to_be_bytes());
    a.base_fee_per_gas = h.base_fee_per_gas;
    a.blob_gas_used = h.blob_gas_used;
    a.excess_blob_gas = h.excess_blob_gas;
    a.withdrawals_root = opt_b256(&h.withdrawals_root);
    a.parent_beacon_block_root = opt_b256(&h.parent_beacon_block_root);
    a.requests_hash = opt_b256(&h.requests_hash);
    a
}

/// Relies on alloy-consensus `Header::hash_slow`: the keccak-256 hash of
/// the RLP-encoded header, a function of the header fields alone.
#[verifier::external_body]
pub fn hash_header(h: &Header) -> (r: Bytes32)
    ensures
        r == header_hash_of(*h),
{
    from_b256(to_alloy_header(h).hash_slow())
}

/// Relies on alloy-consensus `proofs::calculate_withdrawals_root`: the
/// withdrawals-trie root, a function of the withdrawal fields alone.
#[verifier::external_body]
pub fn withdrawals_root(ws: &Vec<Withdrawal>) -> (r: Bytes32)
    ensures
        r == withdrawals_root_of(ws@),
{
    let conv: Vec<alloy_eips::eip4895::Withdrawal> = ws.iter().map(to_alloy_withdrawal).collect();
    from_b256(alloy_consensus::proofs::calculate_withdrawals_root(&conv))
}

/// Relies on alloy-trie `ordered_trie_root_encoded` over the EIP-2718
/// encoded transactions: a function of the encoded bytes alone, and the
/// empty-trie root when there are none.
#[verifier::external_body]
pub fn transactions_root(txs: &Vec<Tx>) -> (r: Bytes32)
    ensures
        r == tx_root_of(txs@.map_values(|t: Tx| t.payload@)),
        txs@.len() == 0 ==> r == empty_trie_root(),
{
    let items: Vec<&[u8]> = txs.iter().map(|t| t.payload.as_slice()).collect();
    from_b256(alloy_consensus::proofs::ordered_trie_root_encoded(&items))
}

/// Relies on alloy-eips `Requests::requests_hash` (EIP-7685): the
/// sha-256 commitment over the request payloads, a function of the
/// payload bytes alone.
#[verifier::external_body]
pub fn requests_hash(reqs: &Vec<Vec<u8>>) -> (r: Bytes32)
    ensures
        r == requests_hash_of(reqs@.map_values(|q: Vec<u8>| q@)),
{
    let items: Vec<alloy_primitives::Bytes> =
        reqs.iter().map(|q| alloy_primitives::Bytes::copy_from_slice(q)).collect();
    from_b256(alloy_eips::eip7685::Requests::new(items).requests_hash())
}

/// What the EVM executor hands back for one block, as the pipeline
/// reads it: the cumulative gas, the receipt commitments, and the
/// block-scoped EIP-7685 request payloads. The post-state bundle goes
/// straight to storage and is not read here.
#[derive(Debug)]
pub struct ExecOutcome {
    pub gas_used: u64,
    pub receipts_root: Bytes32,
    pub logs_bloom: [u8; 256],
    pub requests: Vec<Vec<u8>>,
}

fn copy_withdrawals(ws: &Vec<Withdrawal>) -> (r: Vec<Withdrawal>)
    ensures
        r@ == ws@,
{
    let mut r: Vec<Withdrawal> = Vec::new();
    let mut i: usize = 0;
    while i < ws.len()
        invariant
            i <= ws@.len(),
            r@ == ws@.take(i as int),
        decreases ws@.len() - i,
    {
        r.push(ws[i]);
        proof {
            assert(ws@.take(i as int + 1).drop_last() =~= ws@.take(i as int));
            assert(r@ =~= ws@.take(i as int + 1));
        }
        i += 1;
    }
    proof {
        assert(ws@.take(ws@.len() as int) =~= ws@);
    }
    r
}

/// The view of an optional withdrawals body.
pub open spec fn opt_withdrawals_view(w: Option<Vec<Withdrawal>>) -> Option<Seq<Withdrawal>> {
    match w {
        None => None,
        Some(v) => Some(v@),
    }
}

/// The header a block starts from: every field the ordered block and
/// the chain configuration determine before execution. The roots and
/// the parent hash stay zero until their stages fill them.
pub open spec fn is_header_skeleton(
    h: Header,
    ob: OrderedBlock,
    cfg: ChainConfig,
    base_fee: u64,
) -> bool {
    &&& h.parent_hash == (Bytes32 { hi: 0, lo: 0 })
    &&& h.ommers_hash == empty_ommers_root()
    &&& h.beneficiary == ob.coinbase
    &&& h.state_root == (Bytes32 { hi: 0, lo: 0 })
    &&& h.transactions_root == (Bytes32 { hi: 0, lo: 0 })
    &&& h.receipts_root == (Bytes32 { hi: 0, lo: 0 })
    &&& forall|i: int| 0 <= i < 256 ==> h.logs_bloom@[i] == 0
    &&& h.number == ob.number
    &&& h.gas_limit == BLOCK_GAS_LIMIT
    &&& h.gas_used == 0
    &&& h.timestamp == ob.timestamp
    &&& h.mix_hash == ob.prev_randao
    &&& h.nonce == 0
    &&& h.base_fee_per_gas == Some(base_fee)
    &&& h.withdrawals_root == (if cfg.spec_shanghai_active(ob.timestamp) {
        if ob.withdrawals@.len() == 0 {
            Some(empty_trie_root())
        } else {
            Some(withdrawals_root_of(ob.withdrawals@))
        }
    } else {
        None::<Bytes32>
    })
    &&& h.blob_gas_used == (if cfg.spec_cancun_active(ob.timestamp) {
        Some(0u64)
    } else {
        None::<u64>
    })
    &&& h.excess_blob_gas == (if cfg.spec_cancun_active(ob.timestamp) {
        Some(0u64)
    } else {
        None::<u64>
    })
    &&& h.parent_beacon_block_root == (if cfg.spec_cancun_active(ob.timestamp) {
        Some(ob.parent_id)
    } else {
        None::<Bytes32>
    })
    &&& h.requests_hash is None
}

/// Build the block skeleton from an ordered block: the beneficiary,
/// timestamp, randomness, number and fee fields come straight from the
/// Coordinator's block; the gas limit is fixed; the withdrawals fields
/// appear exactly when Shanghai is active, the blob and beacon fields
/// exactly when Cancun is; the beacon root provisionally carries the
/// Coordinator's parent block id, and the blob-gas fields are zero, as
/// this chain admits no blob transactions. The transactions are the
/// ordered block's after the pre-filter (see `execute_ordered_block`).
pub fn build_header_skeleton(ob: &OrderedBlock, cfg: &ChainConfig, base_fee: u64) -> (b: Block)
    ensures
        is_header_skeleton(b.header, *ob, *cfg, base_fee),
        b.transactions@.len() == 0,
        opt_withdrawals_view(b.withdrawals) == (if cfg.spec_shanghai_active(ob.timestamp) {
            Some(ob.withdrawals@)
        } else {
            None::<Seq<Withdrawal>>
        }),
{
    let shanghai = cfg.is_shanghai_active_at_timestamp(ob.timestamp);
    let cancun = cfg.is_cancun_active_at_timestamp(ob.timestamp);
    let w_root: Option<Bytes32> = if shanghai {
        if ob.withdrawals.len() == 0 {
            Some(
                Bytes32 {
                    hi: 0x56e81f171bcc55a6ff8345e692c0f86e,
                    lo: 0x5b48e01b996cadc001622fb5e363b421,
                },
            )
        } else {
            Some(withdrawals_root(&ob.withdrawals))
        }
    } else {
        None
    };
    let header = Header {
        parent_hash: Bytes32 { hi: 0, lo: 0 },
        ommers_hash: Bytes32 {
            hi: 0x1dcc4de8dec75d7aab85b567b6ccd41a,
            lo: 0xd312451b948a7413f0a142fd40d49347,
        },
        beneficiary: ob.coinbase,
        state_root: Bytes32 { hi: 0, lo: 0 },
        transactions_root: Bytes32 { hi: 0, lo: 0 },
        receipts_root: Bytes32 { hi: 0, lo: 0 },
        logs_bloom: [0u8; 256],
        number: ob.number,
        gas_limit: BLOCK_GAS_LIMIT,
        gas_used: 0,
        timestamp: ob.timestamp,
        mix_hash: ob.prev_randao,
        nonce: 0,
        base_fee_per_gas: Some(base_fee),
        withdrawals_root: w_root,
        blob_gas_used: if cancun {
            Some(0)
        } else {
            None
        },
        excess_blob_gas: if cancun {
            Some(0)
        } else {
            None
        },
        parent_beacon_block_root: if cancun {
            Some(ob.parent_id)
        } else {
            None
        },
        requests_hash: None,
    };
    let withdrawals: Option<Vec<Withdrawal>> = if shanghai {
        Some(copy_withdrawals(&ob.withdrawals))
    } else {
        None
    };
    let b = Block { header, transactions: Vec::new(), withdrawals };
    proof {
        assert(is_header_skeleton(b.header, *ob, *cfg, base_fee));
    }
    b
}

/// The verified head of the execute stage: build the skeleton, check
/// the state view agrees on the parent id, pre-filter the transactions
/// against the parent state and install the survivors in the body. The
/// EVM run itself is the host's; `finish_execute` takes its gas figure.
pub fn execute_ordered_block(
    ob: OrderedBlock,
    cfg: &ChainConfig,
    state: &StateView,
    state_parent_id: Bytes32,
    base_fee: u64,
) -> (r: (Block, Vec<Address>))
    requires
        ob.transactions@.len() == ob.senders@.len(),
        state_parent_id == ob.parent_id,
    ensures
        ({
            let flags = spec_valid_flags(
                state.accounts@,
                ob.transactions@,
                ob.senders@,
                base_fee as u128,
            );
            &&& is_header_skeleton(r.0.header, ob, *cfg, base_fee)
            &&& r.0.transactions@ == keep(ob.transactions@, flags)
            &&& r.1@ == keep(ob.senders@, flags)
            &&& opt_withdrawals_view(r.0.withdrawals) == (if cfg.spec_shanghai_active(ob.timestamp) {
                Some(ob.withdrawals@)
            } else {
                None::<Seq<Withdrawal>>
            })
        }),
        r.0.transactions@.len() == r.1@.len(),
{
    let mut block = build_header_skeleton(&ob, cfg, base_fee);
    let (txs, senders) = filter_invalid_txs(
        state,
        ob.transactions,
        ob.senders,
        base_fee as u128,
    );
    block.transactions = txs;
    (block, senders)
}

/// The gas figure of the execution outcome enters the header.
pub fn finish_execute(block: &mut Block, gas_used: u64)
    ensures
        final (block).header == (Header { gas_used, ..old(block).header }),
        final (block).transactions == old(block).transactions,
        final (block).withdrawals == old(block).withdrawals,
{
    block.header.gas_used = gas_used;
}

/// Compute the auxiliary roots after execution: the requests hash when
/// Prague is active, the receipts root and logs bloom from the
/// execution outcome, and the transactions root over the body.
pub fn calculate_roots(block: &mut Block, outcome: &ExecOutcome, cfg: &ChainConfig)
    ensures
        final (block).header == (Header {
            requests_hash: if cfg.spec_prague_active(old(block).header.timestamp) {
                Some(requests_hash_of(outcome.requests@.map_values(|q: Vec<u8>| q@)))
            } else {
                old(block).header.requests_hash
            },
            transactions_root: tx_root_of(
                old(block).transactions@.map_values(|t: Tx| t.payload@),
            ),
            receipts_root: outcome.receipts_root,
            logs_bloom: outcome.logs_bloom,
            ..old(block).header
        }),
        final (block).transactions == old(block).transactions,
        final (block).withdrawals == old(block).withdrawals,
{
    if cfg.is_prague_active_at_timestamp(block.header.timestamp) {
        block.header.requests_hash = Some(requests_hash(&outcome.requests));
    }
    block.header.receipts_root = outcome.receipts_root;
    block.header.logs_bloom = outcome.logs_bloom;
    block.header.transactions_root = transactions_root(&block.transactions);
}

/// The state root computed by the storage's merklize stage enters the
/// header.
pub fn apply_state_root(block: &mut Block, state_root: Bytes32)
    ensures
        final (block).header == (Header { state_root, ..old(block).header }),
        final (block).transactions == old(block).transactions,
        final (block).withdrawals == old(block).withdrawals,
{
    block.header.state_root = state_root;
}

/// Seal the block: the parent hash from the seal barrier enters the
/// header, and the block hash is the keccak-256 of the RLP-encoded
/// final header.
pub fn seal_block(block: &mut Block, parent_hash: Bytes32) -> (h: Bytes32)
    ensures
        final (block).header == (Header { parent_hash, ..old(block).header }),
        final (block).transactions == old(block).transactions,
        final (block).withdrawals == old(block).withdrawals,
        h == header_hash_of(final (block).header),
{
    block.header.parent_hash = parent_hash;
    hash_header(&block.header)
}

} // verus!
