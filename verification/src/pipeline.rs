//! The pipeline coordinator's state: the four stage barriers, the two
//! halves of the verification handshake with the Coordinator, and the
//! ingress bookkeeping of the dispatch loop. Each stage of a block
//! waits on the same stage of the previous block and publishes for the
//! next, so adjacent blocks overlap in different stages but never share
//! one; the canonical stage additionally keeps its completed block
//! numbers contiguous, which makes the canonical stream ascend in steps
//! of one. The suspension and task spawning around these transitions
//! belong to the host.

use crate::channel::{
    assoc_lookup, id_notify_post, notify_post, Barrier, IdChannel, NotifyOutcome,
};
use crate::types::{Bytes32, ChainConfig, ExecutedBlockMeta, Header};
use vstd::prelude::*;

verus! {

/// The immutable heart of the service, with its internally keyed
/// channels. The host drives it one synchronous transition at a time.
pub struct Core {
    pub chain_config: ChainConfig,
    /// Hands each block's header to the next block's execute stage.
    pub execute_block_barrier: Barrier<Header>,
    /// Serialises state merklization across block numbers.
    pub merklize_barrier: Barrier<()>,
    /// Hands each block's hash to the next block's seal stage.
    pub seal_barrier: Barrier<Bytes32>,
    /// Serialises the make-canonical stage; carries a completion tick.
    pub make_canonical_barrier: Barrier<u64>,
    /// Sealed hashes published for the Coordinator, by block id.
    pub executed_block_hash_tx: IdChannel,
    /// Verified hashes returned by the Coordinator, by block id.
    pub verified_block_hash_rx: IdChannel,
    /// The number of the last block taken from the ingress queue.
    pub latest_block_number: u64,
    /// The number the barriers were seeded at: the last block already
    /// canonical when the service started.
    pub seed_number: u64,
    /// The number of the last block made canonical.
    pub latest_canonical: u64,
}

impl Core {
    /// The make-canonical barrier holds exactly the contiguous range of
    /// block numbers from the seed to the last canonical block.
    pub open spec fn canonical_wf(self) -> bool {
        &&& self.seed_number <= self.latest_canonical
        &&& forall|k: u64|
            self.make_canonical_barrier.spec_lookup(k).is_some() <==> self.seed_number <= k
                <= self.latest_canonical
    }

    /// Start the service at the latest already-committed block: every
    /// barrier is seeded at its number, so the next block's waits
    /// resolve at once.
    pub fn new_core(
        chain_config: ChainConfig,
        latest_block_header: Header,
        latest_block_hash: Bytes32,
        start_tick: u64,
    ) -> (r: Core)
        ensures
            r.canonical_wf(),
            r.seed_number == latest_block_header.number,
            r.latest_block_number == latest_block_header.number,
            r.latest_canonical == latest_block_header.number,
            r.execute_block_barrier.spec_lookup(latest_block_header.number) == Some(
                latest_block_header,
            ),
            r.merklize_barrier.spec_lookup(latest_block_header.number) == Some(()),
            r.seal_barrier.spec_lookup(latest_block_header.number) == Some(latest_block_hash),
            r.make_canonical_barrier.spec_lookup(latest_block_header.number) == Some(start_tick),
            !r.execute_block_barrier.spec_closed(),
            !r.merklize_barrier.spec_closed(),
            !r.seal_barrier.spec_closed(),
            !r.make_canonical_barrier.spec_closed(),
            !r.executed_block_hash_tx.spec_closed(),
            !r.verified_block_hash_rx.spec_closed(),
            forall|k: u64|
                k != latest_block_header.number ==> r.make_canonical_barrier.spec_lookup(
                    k,
                ).is_none(),
    {
        let n = latest_block_header.number;
        let ghost header_snapshot = latest_block_header;
        let mut exec_seed: Vec<(u64, Header)> = Vec::new();
        exec_seed.push((n, latest_block_header));
        let mut merk_seed: Vec<(u64, ())> = Vec::new();
        merk_seed.push((n, ()));
        let mut seal_seed: Vec<(u64, Bytes32)> = Vec::new();
        seal_seed.push((n, latest_block_hash));
        let mut canon_seed: Vec<(u64, u64)> = Vec::new();
        canon_seed.push((n, start_tick));
        proof {
            lemma_singleton_lookup(exec_seed@, n, header_snapshot);
            lemma_singleton_lookup(merk_seed@, n, ());
            lemma_singleton_lookup(seal_seed@, n, latest_block_hash);
            lemma_singleton_lookup(canon_seed@, n, start_tick);
        }
        Core {
            chain_config,
            execute_block_barrier: Barrier::new_with_states(exec_seed),
            merklize_barrier: Barrier::new_with_states(merk_seed),
            seal_barrier: Barrier::new_with_states(seal_seed),
            make_canonical_barrier: Barrier::new_with_states(canon_seed),
            executed_block_hash_tx: IdChannel::new(),
            verified_block_hash_rx: IdChannel::new(),
            latest_block_number: n,
            seed_number: n,
            latest_canonical: n,
        }
    }

    /// The ingress check of the dispatch loop: ordered blocks arrive
    /// with strictly consecutive numbers; anything else is a broken
    /// Coordinator, which the host treats as fatal before calling.
    pub fn on_ordered_block(&mut self, number: u64)
        requires
            old(self).latest_block_number < u64::MAX,
            number == old(self).latest_block_number + 1,
        ensures
            *final (self) == (Core { latest_block_number: number, ..*old(self) }),
    {
        self.latest_block_number = number;
    }

    /// The ingress queue closed: shut the channels the service owns.
    /// The seal barrier and the verified-hash channel stay open; the
    /// Coordinator's side closes the latter when its handle drops.
    pub fn on_ingress_closed(&mut self)
        ensures
            final (self).executed_block_hash_tx.spec_closed(),
            final (self).execute_block_barrier.spec_closed(),
            final (self).merklize_barrier.spec_closed(),
            final (self).make_canonical_barrier.spec_closed(),
            final (self).seal_barrier == old(self).seal_barrier,
            final (self).verified_block_hash_rx == old(self).verified_block_hash_rx,
            forall|k: Bytes32|
                final (self).executed_block_hash_tx.spec_lookup(k) == old(
                    self,
                ).executed_block_hash_tx.spec_lookup(k),
            forall|k: u64|
                final (self).execute_block_barrier.spec_lookup(k) == old(
                    self,
                ).execute_block_barrier.spec_lookup(k),
            forall|k: u64|
                final (self).merklize_barrier.spec_lookup(k) == old(
                    self,
                ).merklize_barrier.spec_lookup(k),
            forall|k: u64|
                final (self).make_canonical_barrier.spec_lookup(k) == old(
                    self,
                ).make_canonical_barrier.spec_lookup(k),
            final (self).latest_block_number == old(self).latest_block_number,
            final (self).latest_canonical == old(self).latest_canonical,
            final (self).seed_number == old(self).seed_number,
    {
        self.executed_block_hash_tx.close();
        self.execute_block_barrier.close();
        self.merklize_barrier.close();
        self.make_canonical_barrier.close();
    }

    /// Stage 5, first half: publish the sealed hash for the Coordinator
    /// under the block's id.
    pub fn submit_executed_block_hash(&mut self, meta: ExecutedBlockMeta) -> (r: NotifyOutcome)
        ensures
            id_notify_post(
                old(self).executed_block_hash_tx,
                final (self).executed_block_hash_tx,
                meta.block_id,
                meta.block_hash,
                r,
            ),
            final (self).verified_block_hash_rx == old(self).verified_block_hash_rx,
            final (self).execute_block_barrier == old(self).execute_block_barrier,
            final (self).merklize_barrier == old(self).merklize_barrier,
            final (self).seal_barrier == old(self).seal_barrier,
            final (self).make_canonical_barrier == old(self).make_canonical_barrier,
            final (self).latest_block_number == old(self).latest_block_number,
            final (self).latest_canonical == old(self).latest_canonical,
            final (self).seed_number == old(self).seed_number,
            final (self).chain_config == old(self).chain_config,
    {
        self.executed_block_hash_tx.notify(meta.block_id, meta.block_hash)
    }

    /// The Coordinator's pull: the hash published for a block id, if
    /// the seal stage has reached it.
    pub fn pull_executed_block_hash(&self, block_id: Bytes32) -> (r: Option<Bytes32>)
        ensures
            r == self.executed_block_hash_tx.spec_lookup(block_id),
    {
        self.executed_block_hash_tx.get(block_id)
    }

    /// The Coordinator's verdict arrives: publish the verified hash
    /// under the block's id for the waiting task.
    pub fn commit_executed_block_hash(&mut self, meta: ExecutedBlockMeta) -> (r: NotifyOutcome)
        ensures
            id_notify_post(
                old(self).verified_block_hash_rx,
                final (self).verified_block_hash_rx,
                meta.block_id,
                meta.block_hash,
                r,
            ),
            final (self).executed_block_hash_tx == old(self).executed_block_hash_tx,
            final (self).make_canonical_barrier == old(self).make_canonical_barrier,
            final (self).latest_canonical == old(self).latest_canonical,
            final (self).seed_number == old(self).seed_number,
    {
        self.verified_block_hash_rx.notify(meta.block_id, meta.block_hash)
    }

    /// Stage 5, second half: the verified hash must be the submitted
    /// one; on `false` the host halts, as a mismatch means a Byzantine
    /// Coordinator or a corrupted pipeline.
    pub fn check_verified_block_hash(submitted: Bytes32, verified: Bytes32) -> (r: bool)
        ensures
            r == (submitted == verified),
    {
        submitted == verified
    }

    /// Stage 6 completes for block `number`: under the contiguity
    /// invariant, a wait on `number - 1` that has resolved, while
    /// `number` itself is unpublished, forces `number` to be exactly one
    /// past the last canonical block, so the stream ascends in steps of
    /// one.
    pub fn complete_make_canonical(&mut self, number: u64, finish_tick: u64) -> (r: NotifyOutcome)
        requires
            old(self).canonical_wf(),
            number >= 1,
            old(self).make_canonical_barrier.spec_lookup((number - 1) as u64).is_some(),
            old(self).make_canonical_barrier.spec_lookup(number).is_none(),
            !old(self).make_canonical_barrier.spec_closed(),
            old(self).latest_canonical < u64::MAX,
        ensures
            r == NotifyOutcome::Published,
            number == old(self).latest_canonical + 1,
            final (self).latest_canonical == number,
            final (self).canonical_wf(),
            final (self).make_canonical_barrier.spec_lookup(number) == Some(finish_tick),
            final (self).seed_number == old(self).seed_number,
            final (self).latest_block_number == old(self).latest_block_number,
            final (self).executed_block_hash_tx == old(self).executed_block_hash_tx,
            final (self).verified_block_hash_rx == old(self).verified_block_hash_rx,
    {
        proof {
            lemma_canonical_stream_ascends(*self, number);
        }
        let r = self.make_canonical_barrier.notify(number, finish_tick);
        self.latest_canonical = number;
        r
    }
}

/// A fresh singleton association sequence binds its one key and no
/// other.
proof fn lemma_singleton_lookup<V>(s: Seq<(u64, V)>, k: u64, v: V)
    requires
        s.len() == 1,
        s[0] == (k, v),
    ensures
        assoc_lookup(s, k) == Some(v),
        forall|k2: u64| k2 != k ==> assoc_lookup(s, k2).is_none(),
{
    assert forall|k2: u64| k2 != k implies assoc_lookup(s, k2).is_none() by {
        assert(assoc_lookup(s, k2) == assoc_lookup(s.drop_first(), k2));
        assert(s.drop_first().len() == 0);
    }
}

/// The canonical stream ascends with step one: when block
/// `number - 1` is canonical and `number` itself is not yet, `number`
/// is exactly one past the last canonical block. With
/// `complete_make_canonical` the only operation that publishes under
/// this barrier, the `MakeCanonical` events the host observes carry
/// strictly consecutive block numbers, starting just past the seeded
/// block.
pub proof fn lemma_canonical_stream_ascends(c: Core, number: u64)
    requires
        c.canonical_wf(),
        number >= 1,
        c.make_canonical_barrier.spec_lookup((number - 1) as u64).is_some(),
        c.make_canonical_barrier.spec_lookup(number).is_none(),
    ensures
        number == c.latest_canonical + 1,
{
    assert(c.seed_number <= (number - 1) as u64 <= c.latest_canonical);
    assert(!(c.seed_number <= number <= c.latest_canonical));
}

/// Whether block `number`'s stage may start: the same stage of block
/// `number - 1` must have published its hand-off under the barrier.
pub open spec fn stage_gate_open<V>(b: Barrier<V>, number: u64) -> bool
    recommends
        number >= 1,
{
    b.spec_lookup((number - 1) as u64).is_some()
}

/// Barriers serialise a stage across block numbers: while block `n` has
/// published nothing, block `n + 1` cannot start the stage, and the
/// publish that ends block `n`'s stage is exactly what lets it. Closing
/// the channel never does.
pub proof fn lemma_stage_serialised<V>(pre: Barrier<V>, post: Barrier<V>, n: u64, v: V, r: NotifyOutcome)
    requires
        n < u64::MAX,
        pre.spec_lookup(n).is_none(),
        crate::channel::notify_post(pre, post, n, v, r),
    ensures
        !stage_gate_open(pre, (n + 1) as u64),
        stage_gate_open(post, (n + 1) as u64) <==> r == NotifyOutcome::Published,
{
}

} // verus!
