//! Plain data types of the pipeline: identifiers, transactions, headers
//! and the configuration the stage logic reads.

use vstd::prelude::*;

verus! {

/// A 32-byte value (a Coordinator block id, an Ethereum block hash or a
/// Merkle root), held as two 128-bit big-endian words.
#[derive(Clone, Copy, Debug, PartialEq, Eq, Structural)]
pub struct Bytes32 {
    pub hi: u128,
    pub lo: u128,
}

/// A 20-byte account address, held as a 128-bit word and a 32-bit word,
/// both big-endian.
#[derive(Clone, Copy, Debug, PartialEq, Eq, Structural)]
pub struct Address {
    pub hi: u128,
    pub lo: u32,
}

/// A beacon-chain withdrawal, as it appears in a block body.
#[derive(Clone, Copy, Debug, PartialEq, Eq, Structural)]
pub struct Withdrawal {
    pub index: u64,
    pub validator_index: u64,
    pub address: Address,
    pub amount: u64,
}

/// A signed transaction as the pipeline reads it: the fields the
/// pre-filter inspects, plus the canonical (EIP-2718) encoding of the
/// whole transaction, which the transactions-root computation hashes.
#[derive(Clone, Debug, PartialEq, Eq)]
pub struct Tx {
    pub nonce: u64,
    pub gas_limit: u64,
    /// The transaction's priority fee cap, or its gas price for legacy
    /// transactions.
    pub priority_fee_or_price: u128,
    /// The EIP-2718 encoded bytes of the signed transaction.
    pub payload: Vec<u8>,
}

/// A block emitted by the Coordinator, immutable once received.
#[derive(Debug)]
pub struct OrderedBlock {
    pub parent_id: Bytes32,
    pub id: Bytes32,
    pub number: u64,
    pub timestamp: u64,
    pub coinbase: Address,
    pub prev_randao: Bytes32,
    pub withdrawals: Vec<Withdrawal>,
    pub transactions: Vec<Tx>,
    pub senders: Vec<Address>,
}

/// The block-id/block-hash pair produced after sealing and consumed by
/// the verification handshake with the Coordinator.
#[derive(Clone, Copy, Debug, PartialEq, Eq, Structural)]
pub struct ExecutedBlockMeta {
    pub block_id: Bytes32,
    pub block_hash: Bytes32,
}

/// Bootstrap state delivered exactly once at startup: the existing
/// block-number to block-id index.
#[derive(Debug)]
pub struct ExecutionArgs {
    pub block_number_to_block_id: Vec<(u64, Bytes32)>,
}

/// The Ethereum block header under construction. Difficulty is always
/// zero and the extra-data field always empty in this pipeline, so
/// neither is modelled.
#[derive(Clone, Debug, PartialEq, Eq)]
pub struct Header {
    pub parent_hash: Bytes32,
    pub ommers_hash: Bytes32,
    pub beneficiary: Address,
    pub state_root: Bytes32,
    pub transactions_root: Bytes32,
    pub receipts_root: Bytes32,
    pub logs_bloom: [u8; 256],
    pub number: u64,
    pub gas_limit: u64,
    pub gas_used: u64,
    pub timestamp: u64,
    pub mix_hash: Bytes32,
    pub nonce: u64,
    pub base_fee_per_gas: Option<u64>,
    pub withdrawals_root: Option<Bytes32>,
    pub blob_gas_used: Option<u64>,
    pub excess_blob_gas: Option<u64>,
    pub parent_beacon_block_root: Option<Bytes32>,
    pub requests_hash: Option<Bytes32>,
}

/// The block under construction: a mutable header plus its body.
#[derive(Clone, Debug)]
pub struct Block {
    pub header: Header,
    pub transactions: Vec<Tx>,
    pub withdrawals: Option<Vec<Withdrawal>>,
}

/// Hardfork activation times of the chain. A fork with `None` never
/// activates; one with `Some(t)` is active at every timestamp `>= t`.
#[derive(Clone, Copy, Debug)]
pub struct ChainConfig {
    pub shanghai_time: Option<u64>,
    pub cancun_time: Option<u64>,
    pub prague_time: Option<u64>,
}

pub open spec fn fork_active_at(fork_time: Option<u64>, timestamp: u64) -> bool {
    match fork_time {
        Some(t) => t <= timestamp,
        None => false,
    }
}

impl ChainConfig {
    pub open spec fn spec_shanghai_active(self, timestamp: u64) -> bool {
        fork_active_at(self.shanghai_time, timestamp)
    }

    pub open spec fn spec_cancun_active(self, timestamp: u64) -> bool {
        fork_active_at(self.cancun_time, timestamp)
    }

    pub open spec fn spec_prague_active(self, timestamp: u64) -> bool {
        fork_active_at(self.prague_time, timestamp)
    }

    pub fn is_shanghai_active_at_timestamp(&self, timestamp: u64) -> (r: bool)
        ensures
            r == self.spec_shanghai_active(timestamp),
    {
        match self.shanghai_time {
            Some(t) => t <= timestamp,
            None => false,
        }
    }

    pub fn is_cancun_active_at_timestamp(&self, timestamp: u64) -> (r: bool)
        ensures
            r == self.spec_cancun_active(timestamp),
    {
        match self.cancun_time {
            Some(t) => t <= timestamp,
            None => false,
        }
    }

    pub fn is_prague_active_at_timestamp(&self, timestamp: u64) -> (r: bool)
        ensures
            r == self.spec_prague_active(timestamp),
    {
        match self.prague_time {
            Some(t) => t <= timestamp,
            None => false,
        }
    }
}

} // verus!
