//! The transaction pre-filter: before full execution, drop every
//! transaction whose nonce does not match the sender's account or whose
//! sender cannot pay `gas_limit * (priority_fee_or_price + base_fee)`
//! from its remaining balance, simulating each sender's account through
//! its transactions in order. Relative transaction order is preserved.

use crate::amount::{amount_lt, amount_sub, amount_value, fee_total, Amount};
use crate::channel::assoc_lookup;
use crate::types::{Address, Tx};
use rayon::iter::{IntoParallelRefIterator, ParallelIterator};
use vstd::prelude::*;

verus! {

/// The account state the pre-filter reads from the parent state view.
#[derive(Clone, Copy, Debug, PartialEq, Eq, Structural)]
pub struct AccountInfo {
    pub nonce: u64,
    pub balance: Amount,
}

/// A read-only view of the parent block's post-state: the accounts the
/// pre-filter may consult. Lookup takes the first matching entry.
#[derive(Debug)]
pub struct StateView {
    pub accounts: Vec<(Address, AccountInfo)>,
}

impl StateView {
    /// The account of `a`, if the state holds one.
    pub fn basic(&self, a: Address) -> (r: Option<AccountInfo>)
        ensures
            r == assoc_lookup(self.accounts@, a),
    {
        let mut i: usize = 0;
        while i < self.accounts.len()
            invariant
                i <= self.accounts@.len(),
                forall|j: int| 0 <= j < i ==> (#[trigger] self.accounts@[j]).0 != a,
            decreases self.accounts@.len() - i,
        {
            if self.accounts[i].0 == a {
                proof {
                    crate::channel::lemma_assoc_skip(self.accounts@, a, i as int);
                    assert(self.accounts@.skip(i as int)[0] == self.accounts@[i as int]);
                }
                return Some(self.accounts[i].1);
            }
            i += 1;
        }
        proof {
            crate::channel::lemma_assoc_skip(self.accounts@, a, self.accounts@.len() as int);
        }
        None
    }
}

/// The fields of a transaction that decide its admission.
#[derive(Clone, Copy, Debug, PartialEq, Eq, Structural)]
pub struct TxCost {
    pub nonce: u64,
    pub gas_limit: u64,
    pub priority_fee_or_price: u128,
}

pub open spec fn cost_of(tx: Tx) -> TxCost {
    TxCost { nonce: tx.nonce, gas_limit: tx.gas_limit, priority_fee_or_price: tx.priority_fee_or_price }
}

pub fn tx_cost(tx: &Tx) -> (r: TxCost)
    ensures
        r == cost_of(*tx),
{
    TxCost { nonce: tx.nonce, gas_limit: tx.gas_limit, priority_fee_or_price: tx.priority_fee_or_price }
}

/// A simulated account during admission: unbounded mathematical values.
pub struct SimAccount {
    pub nonce: int,
    pub balance: int,
}

pub open spec fn sim_of(a: Option<AccountInfo>) -> Option<SimAccount> {
    match a {
        None => None,
        Some(x) => Some(SimAccount { nonce: x.nonce as int, balance: amount_value(x.balance) }),
    }
}

/// The fee the filter charges a transaction: a deliberate overestimate,
/// counting the priority fee at its cap.
pub open spec fn spec_fee(c: TxCost, base_fee: u128) -> int {
    c.gas_limit * (c.priority_fee_or_price + base_fee)
}

/// A transaction is admitted when its nonce is the account's next nonce
/// and the account balance covers the charged fee.
pub open spec fn spec_tx_ok(a: SimAccount, c: TxCost, base_fee: u128) -> bool {
    a.nonce == c.nonce && spec_fee(c, base_fee) <= a.balance
}

/// The account after an admitted transaction.
pub open spec fn spec_step(a: SimAccount, c: TxCost, base_fee: u128) -> SimAccount {
    SimAccount { nonce: a.nonce + 1, balance: a.balance - spec_fee(c, base_fee) }
}

pub open spec fn spec_apply(a: Option<SimAccount>, c: TxCost, base_fee: u128) -> Option<
    SimAccount,
> {
    match a {
        None => None,
        Some(x) => if spec_tx_ok(x, c, base_fee) {
            Some(spec_step(x, c, base_fee))
        } else {
            Some(x)
        },
    }
}

/// The simulated account of sender `a` after the first `i` transactions
/// of the block: only admitted transactions of `a` itself advance it.
pub open spec fn sim_account_at(
    acc0: Option<SimAccount>,
    costs: Seq<TxCost>,
    senders: Seq<Address>,
    base_fee: u128,
    a: Address,
    i: int,
) -> Option<SimAccount>
    decreases i,
{
    if i <= 0 {
        acc0
    } else {
        let prev = sim_account_at(acc0, costs, senders, base_fee, a, i - 1);
        if senders[i - 1] == a {
            spec_apply(prev, costs[i - 1], base_fee)
        } else {
            prev
        }
    }
}

/// Whether transaction `i` of the block survives the pre-filter: a
/// missing sender account rejects the whole bucket.
pub open spec fn spec_valid_at(
    accounts: Seq<(Address, AccountInfo)>,
    costs: Seq<TxCost>,
    senders: Seq<Address>,
    base_fee: u128,
    i: int,
) -> bool {
    let acc0 = sim_of(assoc_lookup(accounts, senders[i]));
    match sim_account_at(acc0, costs, senders, base_fee, senders[i], i) {
        None => false,
        Some(acc) => spec_tx_ok(acc, costs[i], base_fee),
    }
}

/// The admission flag of every transaction of the block.
pub open spec fn spec_valid_flags(
    accounts: Seq<(Address, AccountInfo)>,
    txs: Seq<Tx>,
    senders: Seq<Address>,
    base_fee: u128,
) -> Seq<bool> {
    Seq::new(
        txs.len(),
        |i: int| spec_valid_at(accounts, txs.map_values(|t: Tx| cost_of(t)), senders, base_fee, i),
    )
}

/// One sender's transactions, in their original ascending order, with
/// the sender's account as the state view reports it.
pub struct SenderBucket {
    pub sender: Address,
    pub account: Option<AccountInfo>,
    /// Pairs of original transaction index and admission fields.
    pub items: Vec<(usize, TxCost)>,
}

pub open spec fn bucket_costs(items: Seq<(usize, TxCost)>) -> Seq<TxCost> {
    items.map_values(|it: (usize, TxCost)| it.1)
}

/// The simulated account after a prefix of one sender's transactions.
pub open spec fn bucket_sim_after(
    acc: Option<SimAccount>,
    costs: Seq<TxCost>,
    base_fee: u128,
) -> Option<SimAccount>
    decreases costs.len(),
{
    if costs.len() == 0 {
        acc
    } else {
        spec_apply(bucket_sim_after(acc, costs.drop_last(), base_fee), costs.last(), base_fee)
    }
}

/// The admission flags of one sender's transactions, in order.
pub open spec fn bucket_flags(acc: Option<SimAccount>, costs: Seq<TxCost>, base_fee: u128) -> Seq<
    bool,
>
    decreases costs.len(),
{
    if costs.len() == 0 {
        Seq::empty()
    } else {
        bucket_flags(acc, costs.drop_last(), base_fee).push(
            match bucket_sim_after(acc, costs.drop_last(), base_fee) {
                None => false,
                Some(a) => spec_tx_ok(a, costs.last(), base_fee),
            },
        )
    }
}

pub proof fn lemma_bucket_flags_len(acc: Option<SimAccount>, costs: Seq<TxCost>, base_fee: u128)
    ensures
        bucket_flags(acc, costs, base_fee).len() == costs.len(),
    decreases costs.len(),
{
    if costs.len() > 0 {
        lemma_bucket_flags_len(acc, costs.drop_last(), base_fee);
    }
}

/// Admission flags of a prefix agree with the prefix of the flags.
pub proof fn lemma_bucket_flags_prefix(
    acc: Option<SimAccount>,
    costs: Seq<TxCost>,
    base_fee: u128,
    j: int,
)
    requires
        0 <= j <= costs.len(),
    ensures
        bucket_flags(acc, costs, base_fee).take(j) =~= bucket_flags(acc, costs.take(j), base_fee),
    decreases costs.len(),
{
    lemma_bucket_flags_len(acc, costs, base_fee);
    if j == costs.len() {
        assert(costs.take(j) =~= costs);
        assert(bucket_flags(acc, costs, base_fee).take(j) =~= bucket_flags(acc, costs, base_fee));
    } else {
        assert(costs.len() > 0);
        lemma_bucket_flags_len(acc, costs.drop_last(), base_fee);
        lemma_bucket_flags_prefix(acc, costs.drop_last(), base_fee, j);
        assert(costs.drop_last().take(j) =~= costs.take(j));
        assert(bucket_flags(acc, costs, base_fee).take(j) =~= bucket_flags(
            acc,
            costs.drop_last(),
            base_fee,
        ).take(j));
    }
}

/// The admission decisions of one bucket, paired with the original
/// transaction indices: a function of the bucket's own content alone.
pub open spec fn bucket_flag_pairs(b: SenderBucket, base_fee: u128) -> Seq<(usize, bool)> {
    Seq::new(
        b.items@.len(),
        |k: int|
            (
                b.items@[k].0,
                bucket_flags(sim_of(b.account), bucket_costs(b.items@), base_fee)[k],
            ),
    )
}

pub open spec fn opt_sim(cur: Option<(u128, Amount)>) -> Option<SimAccount> {
    match cur {
        None => None,
        Some(c) => Some(SimAccount { nonce: c.0 as int, balance: amount_value(c.1) }),
    }
}

/// Walk one sender's transactions in order, admitting each against the
/// simulated account and charging admitted ones.
pub fn bucket_flags_exec(b: &SenderBucket, base_fee: u128) -> (r: Vec<(usize, bool)>)
    ensures
        r@ == bucket_flag_pairs(*b, base_fee),
{
    let ghost acc0 = sim_of(b.account);
    let ghost all_costs = bucket_costs(b.items@);
    let mut cur: Option<(u128, Amount)> = match b.account {
        Some(a) => Some((a.nonce as u128, a.balance)),
        None => None,
    };
    let mut out: Vec<(usize, bool)> = Vec::new();
    let mut k: usize = 0;
    proof {
        lemma_bucket_flags_len(acc0, all_costs, base_fee);
    }
    while k < b.items.len()
        invariant
            k <= b.items@.len(),
            all_costs == bucket_costs(b.items@),
            acc0 == sim_of(b.account),
            all_costs.len() == b.items@.len(),
            bucket_flags(acc0, all_costs, base_fee).len() == all_costs.len(),
            out@.len() == k,
            forall|m: int|
                0 <= m < k ==> out@[m] == (
                    b.items@[m].0,
                    bucket_flags(acc0, all_costs, base_fee)[m],
                ),
            opt_sim(cur) == bucket_sim_after(acc0, all_costs.take(k as int), base_fee),
            match cur {
                Some(c) => c.0 <= 0x1_0000_0000_0000_0000u128,
                None => true,
            },
        decreases b.items@.len() - k,
    {
        let (idx, cost) = b.items[k];
        proof {
            assert(all_costs.take(k as int + 1).drop_last() =~= all_costs.take(k as int));
            assert(all_costs.take(k as int + 1).last() == cost);
            lemma_bucket_flags_prefix(acc0, all_costs, base_fee, k as int + 1);
            lemma_bucket_flags_len(acc0, all_costs.take(k as int + 1), base_fee);
            assert(bucket_flags(acc0, all_costs, base_fee)[k as int] == bucket_flags(
                acc0,
                all_costs.take(k as int + 1),
                base_fee,
            ).last());
        }
        match cur {
            None => {
                out.push((idx, false));
            },
            Some((n, bal)) => {
                let fee = fee_total(cost.gas_limit, cost.priority_fee_or_price, base_fee);
                let nonce_ok: bool = (cost.nonce as u128) == n;
                let balance_ok: bool = !amount_lt(&bal, &fee);
                let ok = nonce_ok && balance_ok;
                if ok {
                    cur = Some((n + 1, amount_sub(&bal, &fee)));
                }
                out.push((idx, ok));
            },
        }
        k += 1;
    }
    proof {
        assert(all_costs.take(k as int) =~= all_costs);
        assert(out@ =~= bucket_flag_pairs(*b, base_fee));
    }
    out
}

/// A bucket is well formed for the block when it holds exactly the
/// indices of its sender's transactions among the first `upto`, in
/// ascending order, with their admission fields, and the account the
/// state view reports for that sender.
pub open spec fn bucket_wf(
    b: SenderBucket,
    accounts: Seq<(Address, AccountInfo)>,
    costs: Seq<TxCost>,
    senders: Seq<Address>,
    upto: int,
) -> bool {
    &&& b.account == assoc_lookup(accounts, b.sender)
    &&& forall|k: int|
        0 <= k < b.items@.len() ==> {
            &&& (#[trigger] b.items@[k]).0 < upto
            &&& senders[b.items@[k].0 as int] == b.sender
            &&& b.items@[k].1 == costs[b.items@[k].0 as int]
        }
    &&& forall|k1: int, k2: int|
        0 <= k1 < k2 < b.items@.len() ==> (#[trigger] b.items@[k1]).0 < (#[trigger] b.items@[k2]).0
    &&& forall|j: int|
        0 <= j < upto && #[trigger] senders[j] == b.sender ==> exists|k: int|
            0 <= k < b.items@.len() && (#[trigger] b.items@[k]).0 == j
}

/// The sender buckets of a block: every bucket well formed, senders
/// pairwise distinct, and every transaction index covered by a bucket.
pub open spec fn buckets_wf(
    buckets: Seq<SenderBucket>,
    accounts: Seq<(Address, AccountInfo)>,
    costs: Seq<TxCost>,
    senders: Seq<Address>,
    upto: int,
) -> bool {
    &&& forall|bi: int|
        0 <= bi < buckets.len() ==> bucket_wf(#[trigger] buckets[bi], accounts, costs, senders, upto)
    &&& forall|b1: int, b2: int|
        0 <= b1 < b2 < buckets.len() ==> (#[trigger] buckets[b1]).sender != (
        #[trigger] buckets[b2]).sender
    &&& forall|j: int| #![trigger senders[j]]
        0 <= j < upto ==> exists|bi: int|
            0 <= bi < buckets.len() && (#[trigger] buckets[bi]).sender == senders[j]
}

/// A bucket well formed for the first `upto` transactions is well formed
/// for one more, as long as that one is not its sender's.
proof fn lemma_bucket_wf_extend(
    b: SenderBucket,
    accounts: Seq<(Address, AccountInfo)>,
    costs: Seq<TxCost>,
    senders: Seq<Address>,
    upto: int,
)
    requires
        bucket_wf(b, accounts, costs, senders, upto),
        0 <= upto,
        senders[upto] != b.sender,
    ensures
        bucket_wf(b, accounts, costs, senders, upto + 1),
{
    assert forall|j: int|
        0 <= j < upto + 1 && #[trigger] senders[j] == b.sender implies exists|k: int|
        0 <= k < b.items@.len() && (#[trigger] b.items@[k]).0 == j by {
        assert(j != upto);
        assert(0 <= j < upto && senders[j] == b.sender);
    }
}

/// With no transaction of `a` in `[lo, hi)`, the simulated account of
/// `a` does not move across that span.
proof fn lemma_sim_gap(
    acc0: Option<SimAccount>,
    costs: Seq<TxCost>,
    senders: Seq<Address>,
    base_fee: u128,
    a: Address,
    lo: int,
    hi: int,
)
    requires
        0 <= lo <= hi,
        forall|j: int| lo <= j < hi ==> #[trigger] senders[j] != a,
    ensures
        sim_account_at(acc0, costs, senders, base_fee, a, hi) == sim_account_at(
            acc0,
            costs,
            senders,
            base_fee,
            a,
            lo,
        ),
    decreases hi - lo,
{
    if hi > lo {
        lemma_sim_gap(acc0, costs, senders, base_fee, a, lo, hi - 1);
    }
}

/// The bucket-local simulation agrees with the whole-block simulation:
/// after the first `k` items of a well-formed bucket, the account is the
/// block-wide account of the sender just before item `k`'s transaction.
proof fn lemma_bucket_matches_global(
    b: SenderBucket,
    accounts: Seq<(Address, AccountInfo)>,
    costs: Seq<TxCost>,
    senders: Seq<Address>,
    base_fee: u128,
    k: int,
)
    requires
        bucket_wf(b, accounts, costs, senders, senders.len() as int),
        costs.len() == senders.len(),
        0 <= k < b.items@.len(),
    ensures
        bucket_sim_after(sim_of(b.account), bucket_costs(b.items@).take(k), base_fee)
            == sim_account_at(
            sim_of(b.account),
            costs,
            senders,
            base_fee,
            b.sender,
            b.items@[k].0 as int,
        ),
    decreases k,
{
    let acc0 = sim_of(b.account);
    let i_k = b.items@[k].0 as int;
    if k == 0 {
        assert forall|j: int| 0 <= j < i_k implies #[trigger] senders[j] != b.sender by {
            if senders[j] == b.sender {
                let m = choose|m: int|
                    0 <= m < b.items@.len() && (#[trigger] b.items@[m]).0 == j;
                if m > 0 {
                    assert(b.items@[0].0 < b.items@[m].0);
                }
            }
        }
        lemma_sim_gap(acc0, costs, senders, base_fee, b.sender, 0, i_k);
        assert(bucket_costs(b.items@).take(0) =~= Seq::<TxCost>::empty());
    } else {
        lemma_bucket_matches_global(b, accounts, costs, senders, base_fee, k - 1);
        let i_prev = b.items@[k - 1].0 as int;
        assert(b.items@[k - 1].0 < b.items@[k].0);
        assert(senders[i_prev] == b.sender);
        assert forall|j: int| i_prev + 1 <= j < i_k implies #[trigger] senders[j] != b.sender by {
            if senders[j] == b.sender {
                let m = choose|m: int|
                    0 <= m < b.items@.len() && (#[trigger] b.items@[m]).0 == j;
                if m < k - 1 {
                    assert(b.items@[m].0 < b.items@[k - 1].0);
                } else if m == k - 1 {
                } else if m == k {
                } else {
                    assert(b.items@[k].0 < b.items@[m].0);
                }
            }
        }
        lemma_sim_gap(acc0, costs, senders, base_fee, b.sender, i_prev + 1, i_k);
        assert(sim_account_at(acc0, costs, senders, base_fee, b.sender, i_prev + 1) == spec_apply(
            sim_account_at(acc0, costs, senders, base_fee, b.sender, i_prev),
            costs[i_prev],
            base_fee,
        ));
        assert(bucket_costs(b.items@).take(k).drop_last() =~= bucket_costs(b.items@).take(k - 1));
        assert(bucket_costs(b.items@).take(k).last() == b.items@[k - 1].1);
        assert(b.items@[k - 1].1 == costs[i_prev]);
    }
}

/// The decision a well-formed bucket records for its `k`-th item is the
/// block-wide admission decision of that item's transaction.
proof fn lemma_bucket_pair_valid(
    b: SenderBucket,
    accounts: Seq<(Address, AccountInfo)>,
    costs: Seq<TxCost>,
    senders: Seq<Address>,
    base_fee: u128,
    k: int,
)
    requires
        bucket_wf(b, accounts, costs, senders, senders.len() as int),
        costs.len() == senders.len(),
        0 <= k < b.items@.len(),
    ensures
        bucket_flag_pairs(b, base_fee)[k].0 == b.items@[k].0,
        bucket_flag_pairs(b, base_fee)[k].1 == spec_valid_at(
            accounts,
            costs,
            senders,
            base_fee,
            b.items@[k].0 as int,
        ),
{
    let acc0 = sim_of(b.account);
    let all_costs = bucket_costs(b.items@);
    let i_k = b.items@[k].0 as int;
    lemma_bucket_matches_global(b, accounts, costs, senders, base_fee, k);
    lemma_bucket_flags_len(acc0, all_costs, base_fee);
    lemma_bucket_flags_prefix(acc0, all_costs, base_fee, k + 1);
    lemma_bucket_flags_len(acc0, all_costs.take(k + 1), base_fee);
    assert(all_costs.take(k + 1).drop_last() =~= all_costs.take(k));
    assert(all_costs.take(k + 1).last() == b.items@[k].1);
    assert(bucket_flags(acc0, all_costs, base_fee)[k] == bucket_flags(
        acc0,
        all_costs.take(k + 1),
        base_fee,
    ).last());
    assert(senders[i_k] == b.sender);
    assert(b.items@[k].1 == costs[i_k]);
}

/// Relies on rayon's `par_iter().map(..).collect::<Vec<_>>()`: the
/// collected vector holds, in bucket order, exactly what the verified
/// per-bucket walk returns for each bucket; rayon only schedules the
/// calls across threads.
#[verifier::external_body]
fn flag_buckets(buckets: &Vec<SenderBucket>, base_fee: u128) -> (r: Vec<Vec<(usize, bool)>>)
    ensures
        r@.len() == buckets@.len(),
        forall|bi: int|
            0 <= bi < buckets@.len() ==> (#[trigger] r@[bi])@ == bucket_flag_pairs(
                buckets@[bi],
                base_fee,
            ),
{
    buckets.par_iter().map(|b| bucket_flags_exec(b, base_fee)).collect()
}

/// The elements of `s` at the positions flagged true, in order.
pub open spec fn keep<T>(s: Seq<T>, flags: Seq<bool>) -> Seq<T>
    decreases s.len(),
{
    if s.len() == 0 {
        Seq::empty()
    } else {
        let init = keep(s.drop_last(), flags.drop_last());
        if flags[s.len() - 1] {
            init.push(s.last())
        } else {
            init
        }
    }
}

/// Keeping by all-true flags is the identity.
pub proof fn lemma_keep_all_true<T>(s: Seq<T>, flags: Seq<bool>)
    requires
        flags.len() == s.len(),
        forall|j: int| 0 <= j < flags.len() ==> flags[j],
    ensures
        keep(s, flags) =~= s,
    decreases s.len(),
{
    if s.len() > 0 {
        lemma_keep_all_true(s.drop_last(), flags.drop_last());
    }
}

/// Two equally long inputs kept by the same flags keep the same length.
pub proof fn lemma_keep_same_shape<T, U>(s: Seq<T>, u: Seq<U>, flags: Seq<bool>)
    requires
        s.len() == u.len(),
    ensures
        keep(s, flags).len() == keep(u, flags).len(),
    decreases s.len(),
{
    if s.len() > 0 {
        lemma_keep_same_shape(s.drop_last(), u.drop_last(), flags.drop_last());
    }
}

/// The flagged positions themselves, in ascending order.
pub open spec fn true_positions(flags: Seq<bool>) -> Seq<int>
    decreases flags.len(),
{
    if flags.len() == 0 {
        Seq::empty()
    } else {
        let init = true_positions(flags.drop_last());
        if flags.last() {
            init.push(flags.len() - 1)
        } else {
            init
        }
    }
}

/// What is kept is the subsequence of the input at the flagged
/// positions: the positions are strictly ascending, so relative order is
/// preserved, and the same positions serve any list kept by these flags.
pub proof fn lemma_keep_is_subsequence<T>(s: Seq<T>, flags: Seq<bool>)
    requires
        s.len() == flags.len(),
    ensures
        keep(s, flags).len() == true_positions(flags).len(),
        forall|k: int|
            0 <= k < true_positions(flags).len() ==> {
                &&& 0 <= #[trigger] true_positions(flags)[k] < s.len()
                &&& keep(s, flags)[k] == s[true_positions(flags)[k]]
            },
        forall|k1: int, k2: int|
            0 <= k1 < k2 < true_positions(flags).len() ==> true_positions(flags)[k1]
                < true_positions(flags)[k2],
    decreases s.len(),
{
    if s.len() > 0 {
        lemma_keep_is_subsequence(s.drop_last(), flags.drop_last());
        let pos = true_positions(flags);
        let posi = true_positions(flags.drop_last());
        assert forall|k: int| 0 <= k < pos.len() implies {
            &&& 0 <= #[trigger] pos[k] < s.len()
            &&& keep(s, flags)[k] == s[pos[k]]
        } by {
            if k < posi.len() {
                assert(pos[k] == posi[k]);
                assert(keep(s, flags)[k] == keep(s.drop_last(), flags.drop_last())[k]);
                assert(s.drop_last()[posi[k]] == s[posi[k]]);
            }
        }
    }
}

/// Pre-filter preserves order: both output lists are the subsequences of
/// the inputs at the same strictly ascending positions, the positions of
/// the admitted transactions, and they stay equally long.
pub proof fn lemma_prefilter_preserves_order(
    accounts: Seq<(Address, AccountInfo)>,
    txs: Seq<Tx>,
    senders: Seq<Address>,
    base_fee: u128,
)
    requires
        txs.len() == senders.len(),
    ensures
        ({
            let flags = spec_valid_flags(accounts, txs, senders, base_fee);
            let pos = true_positions(flags);
            &&& keep(txs, flags).len() == pos.len()
            &&& keep(senders, flags).len() == pos.len()
            &&& forall|k: int|
                0 <= k < pos.len() ==> {
                    &&& 0 <= #[trigger] pos[k] < txs.len()
                    &&& keep(txs, flags)[k] == txs[pos[k]]
                    &&& keep(senders, flags)[k] == senders[pos[k]]
                }
            &&& forall|k1: int, k2: int| 0 <= k1 < k2 < pos.len() ==> pos[k1] < pos[k2]
        }),
{
    let flags = spec_valid_flags(accounts, txs, senders, base_fee);
    lemma_keep_is_subsequence(txs, flags);
    lemma_keep_is_subsequence(senders, flags);
}

/// Pre-filter idempotence, one sender at a time: filter a sender's
/// transactions against its account, then filter the kept ones again
/// against the same account. The second pass admits every transaction,
/// leaves the simulated account exactly where the first pass left it,
/// and so keeps the list unchanged. The block-wide filter runs each
/// sender independently through exactly this simulation.
pub proof fn lemma_prefilter_idempotent_per_sender(
    acc: Option<SimAccount>,
    costs: Seq<TxCost>,
    base_fee: u128,
)
    ensures
        ({
            let kept = keep(costs, bucket_flags(acc, costs, base_fee));
            &&& bucket_sim_after(acc, kept, base_fee) == bucket_sim_after(acc, costs, base_fee)
            &&& forall|k: int|
                0 <= k < bucket_flags(acc, kept, base_fee).len() ==> bucket_flags(
                    acc,
                    kept,
                    base_fee,
                )[k]
            &&& keep(kept, bucket_flags(acc, kept, base_fee)) =~= kept
        }),
    decreases costs.len(),
{
    lemma_bucket_flags_len(acc, costs, base_fee);
    let flags = bucket_flags(acc, costs, base_fee);
    let kept = keep(costs, flags);
    if costs.len() == 0 {
        assert(kept =~= Seq::<TxCost>::empty());
        lemma_bucket_flags_len(acc, kept, base_fee);
        lemma_keep_all_true(kept, bucket_flags(acc, kept, base_fee));
    } else {
        lemma_prefilter_idempotent_per_sender(acc, costs.drop_last(), base_fee);
        let prev_flags = bucket_flags(acc, costs.drop_last(), base_fee);
        lemma_bucket_flags_len(acc, costs.drop_last(), base_fee);
        assert(flags.drop_last() =~= prev_flags);
        let kept_prev = keep(costs.drop_last(), prev_flags);
        if flags[costs.len() - 1] {
            assert(kept == keep(costs.drop_last(), flags.drop_last()).push(costs.last()));
            assert(keep(costs.drop_last(), flags.drop_last()) =~= kept_prev);
            assert(kept.drop_last() =~= kept_prev);
            assert(kept.last() == costs.last());
            assert(bucket_sim_after(acc, kept, base_fee) == spec_apply(
                bucket_sim_after(acc, kept_prev, base_fee),
                costs.last(),
                base_fee,
            ));
            assert(bucket_sim_after(acc, costs, base_fee) == spec_apply(
                bucket_sim_after(acc, costs.drop_last(), base_fee),
                costs.last(),
                base_fee,
            ));
            lemma_bucket_flags_len(acc, kept, base_fee);
            lemma_bucket_flags_len(acc, kept_prev, base_fee);
            assert(bucket_flags(acc, kept, base_fee) == bucket_flags(acc, kept_prev, base_fee).push(
                match bucket_sim_after(acc, kept_prev, base_fee) {
                    None => false,
                    Some(a) => spec_tx_ok(a, kept.last(), base_fee),
                },
            ));
            assert forall|k: int|
                0 <= k < bucket_flags(acc, kept, base_fee).len() implies bucket_flags(
                acc,
                kept,
                base_fee,
            )[k] by {
                if k < bucket_flags(acc, kept_prev, base_fee).len() {
                    assert(bucket_flags(acc, kept, base_fee)[k] == bucket_flags(
                        acc,
                        kept_prev,
                        base_fee,
                    )[k]);
                }
            }
            lemma_keep_all_true(kept, bucket_flags(acc, kept, base_fee));
        } else {
            assert(kept == keep(costs.drop_last(), flags.drop_last()));
            assert(keep(costs.drop_last(), flags.drop_last()) =~= kept_prev);
            assert(bucket_sim_after(acc, costs, base_fee) == spec_apply(
                bucket_sim_after(acc, costs.drop_last(), base_fee),
                costs.last(),
                base_fee,
            ));
            assert(match bucket_sim_after(acc, costs.drop_last(), base_fee) {
                None => true,
                Some(a) => !spec_tx_ok(a, costs.last(), base_fee),
            });
            lemma_bucket_flags_len(acc, kept, base_fee);
            lemma_keep_all_true(kept, bucket_flags(acc, kept, base_fee));
        }
    }
}

/// One sender's admission fields among the block's, in order.
pub open spec fn sender_costs(costs: Seq<TxCost>, senders: Seq<Address>, a: Address) -> Seq<TxCost>
    decreases senders.len(),
{
    if senders.len() == 0 {
        Seq::empty()
    } else {
        let init = sender_costs(costs.drop_last(), senders.drop_last(), a);
        if senders.last() == a {
            init.push(costs[senders.len() - 1])
        } else {
            init
        }
    }
}

/// One sender's admission flags among the block's, in order.
pub open spec fn sender_flags(flags: Seq<bool>, senders: Seq<Address>, a: Address) -> Seq<bool>
    decreases senders.len(),
{
    if senders.len() == 0 {
        Seq::empty()
    } else {
        let init = sender_flags(flags.drop_last(), senders.drop_last(), a);
        if senders.last() == a {
            init.push(flags[senders.len() - 1])
        } else {
            init
        }
    }
}

/// The simulated account after `i` transactions reads only the first
/// `i` of them.
proof fn lemma_sim_prefix(
    acc0: Option<SimAccount>,
    costs: Seq<TxCost>,
    senders: Seq<Address>,
    base_fee: u128,
    a: Address,
    i: int,
)
    requires
        0 <= i <= costs.len(),
        i <= senders.len(),
    ensures
        sim_account_at(acc0, costs, senders, base_fee, a, i) == sim_account_at(
            acc0,
            costs.take(i),
            senders.take(i),
            base_fee,
            a,
            i,
        ),
    decreases i,
{
    if i > 0 {
        lemma_sim_prefix(acc0, costs, senders, base_fee, a, i - 1);
        lemma_sim_prefix(acc0, costs.take(i), senders.take(i), base_fee, a, i - 1);
        assert(costs.take(i).take(i - 1) =~= costs.take(i - 1));
        assert(senders.take(i).take(i - 1) =~= senders.take(i - 1));
        assert(costs.take(i)[i - 1] == costs[i - 1]);
        assert(senders.take(i)[i - 1] == senders[i - 1]);
    }
}

/// The block-wide simulation of one sender is that sender's own
/// transactions run in order from its account.
proof fn lemma_global_is_per_sender(
    acc0: Option<SimAccount>,
    costs: Seq<TxCost>,
    senders: Seq<Address>,
    base_fee: u128,
    a: Address,
    i: int,
)
    requires
        costs.len() == senders.len(),
        0 <= i <= senders.len(),
    ensures
        sim_account_at(acc0, costs, senders, base_fee, a, i) == bucket_sim_after(
            acc0,
            sender_costs(costs.take(i), senders.take(i), a),
            base_fee,
        ),
    decreases i,
{
    if i == 0 {
        assert(senders.take(0) =~= Seq::<Address>::empty());
    } else {
        lemma_global_is_per_sender(acc0, costs, senders, base_fee, a, i - 1);
        let ct = costs.take(i);
        let st = senders.take(i);
        assert(ct.drop_last() =~= costs.take(i - 1));
        assert(st.drop_last() =~= senders.take(i - 1));
        assert(st.last() == senders[i - 1]);
        assert(ct[st.len() - 1] == costs[i - 1]);
        let prev_sc = sender_costs(costs.take(i - 1), senders.take(i - 1), a);
        assert(sender_costs(ct.drop_last(), st.drop_last(), a) == prev_sc);
        if senders[i - 1] == a {
            assert(sender_costs(ct, st, a) == prev_sc.push(costs[i - 1]));
            assert(prev_sc.push(costs[i - 1]).drop_last() =~= prev_sc);
            assert(bucket_sim_after(acc0, prev_sc.push(costs[i - 1]), base_fee) == spec_apply(
                bucket_sim_after(acc0, prev_sc, base_fee),
                costs[i - 1],
                base_fee,
            ));
        } else {
            assert(sender_costs(ct, st, a) == prev_sc);
        }
    }
}

/// The block-wide admission flags of one sender, in their order, are
/// exactly the flags of that sender's own simulation.
proof fn lemma_flags_restrict(
    accounts: Seq<(Address, AccountInfo)>,
    costs: Seq<TxCost>,
    senders: Seq<Address>,
    base_fee: u128,
    a: Address,
)
    requires
        costs.len() == senders.len(),
    ensures
        ({
            let flags = Seq::new(
                senders.len(),
                |i: int| spec_valid_at(accounts, costs, senders, base_fee, i),
            );
            sender_flags(flags, senders, a) =~= bucket_flags(
                sim_of(assoc_lookup(accounts, a)),
                sender_costs(costs, senders, a),
                base_fee,
            )
        }),
    decreases senders.len(),
{
    let n = senders.len() as int;
    let flags = Seq::new(n as nat, |i: int| spec_valid_at(accounts, costs, senders, base_fee, i));
    let acc0 = sim_of(assoc_lookup(accounts, a));
    if n == 0 {
        assert(sender_flags(flags, senders, a) =~= Seq::<bool>::empty());
        assert(sender_costs(costs, senders, a) =~= Seq::<TxCost>::empty());
    } else {
        lemma_flags_restrict(accounts, costs.drop_last(), senders.drop_last(), base_fee, a);
        let flags_prev = Seq::new(
            (n - 1) as nat,
            |i: int| spec_valid_at(accounts, costs.drop_last(), senders.drop_last(), base_fee, i),
        );
        assert forall|i: int| 0 <= i < n - 1 implies flags[i] == flags_prev[i] by {
            let ai = senders[i];
            let acc0i = sim_of(assoc_lookup(accounts, ai));
            lemma_sim_prefix(acc0i, costs, senders, base_fee, ai, i);
            lemma_sim_prefix(
                acc0i,
                costs.drop_last(),
                senders.drop_last(),
                base_fee,
                ai,
                i,
            );
            assert(costs.drop_last().take(i) =~= costs.take(i));
            assert(senders.drop_last().take(i) =~= senders.take(i));
            assert(costs.drop_last()[i] == costs[i]);
            assert(senders.drop_last()[i] == senders[i]);
        }
        assert(flags.drop_last() =~= flags_prev);
        let sc_prev = sender_costs(costs.drop_last(), senders.drop_last(), a);
        lemma_bucket_flags_len(acc0, sc_prev, base_fee);
        if senders.last() == a {
            assert(sender_flags(flags, senders, a) == sender_flags(
                flags_prev,
                senders.drop_last(),
                a,
            ).push(flags[n - 1]));
            assert(sender_costs(costs, senders, a) == sc_prev.push(costs[n - 1]));
            assert(sc_prev.push(costs[n - 1]).drop_last() =~= sc_prev);
            assert(bucket_flags(acc0, sc_prev.push(costs[n - 1]), base_fee) == bucket_flags(
                acc0,
                sc_prev,
                base_fee,
            ).push(
                match bucket_sim_after(acc0, sc_prev, base_fee) {
                    None => false,
                    Some(x) => spec_tx_ok(x, costs[n - 1], base_fee),
                },
            ));
            lemma_global_is_per_sender(acc0, costs, senders, base_fee, a, n - 1);
            assert(costs.take(n - 1) =~= costs.drop_last());
            assert(senders.take(n - 1) =~= senders.drop_last());
            assert(flags[n - 1] == spec_valid_at(accounts, costs, senders, base_fee, n - 1));
        } else {
            assert(sender_flags(flags, senders, a) == sender_flags(
                flags_prev,
                senders.drop_last(),
                a,
            ));
            assert(sender_costs(costs, senders, a) == sc_prev);
        }
    }
}

/// Restricting to one sender commutes with keeping the admitted
/// transactions.
proof fn lemma_keep_restrict(
    costs: Seq<TxCost>,
    senders: Seq<Address>,
    flags: Seq<bool>,
    a: Address,
)
    requires
        costs.len() == senders.len(),
        flags.len() == senders.len(),
    ensures
        sender_costs(keep(costs, flags), keep(senders, flags), a) =~= keep(
            sender_costs(costs, senders, a),
            sender_flags(flags, senders, a),
        ),
    decreases senders.len(),
{
    if senders.len() > 0 {
        lemma_keep_restrict(costs.drop_last(), senders.drop_last(), flags.drop_last(), a);
        lemma_keep_same_shape(costs.drop_last(), senders.drop_last(), flags.drop_last());
        let n = senders.len() as int;
        let kc_prev = keep(costs.drop_last(), flags.drop_last());
        let ks_prev = keep(senders.drop_last(), flags.drop_last());
        let sc_prev = sender_costs(costs.drop_last(), senders.drop_last(), a);
        let sf_prev = sender_flags(flags.drop_last(), senders.drop_last(), a);
        lemma_sender_same_shape(costs.drop_last(), flags.drop_last(), senders.drop_last(), a);
        if flags[n - 1] {
            assert(keep(costs, flags) == kc_prev.push(costs[n - 1]));
            assert(keep(senders, flags) == ks_prev.push(senders[n - 1]));
            assert(kc_prev.push(costs[n - 1]).drop_last() =~= kc_prev);
            assert(ks_prev.push(senders[n - 1]).drop_last() =~= ks_prev);
            if senders[n - 1] == a {
                assert(sender_costs(keep(costs, flags), keep(senders, flags), a) == sender_costs(
                    kc_prev,
                    ks_prev,
                    a,
                ).push(costs[n - 1]));
                assert(sender_costs(costs, senders, a) == sc_prev.push(costs[n - 1]));
                assert(sender_flags(flags, senders, a) == sf_prev.push(true));
                assert(sc_prev.push(costs[n - 1]).drop_last() =~= sc_prev);
                assert(sf_prev.push(true).drop_last() =~= sf_prev);
                assert(keep(sc_prev.push(costs[n - 1]), sf_prev.push(true)) == keep(
                    sc_prev,
                    sf_prev,
                ).push(costs[n - 1]));
            } else {
                assert(sender_costs(keep(costs, flags), keep(senders, flags), a) == sender_costs(
                    kc_prev,
                    ks_prev,
                    a,
                ));
            }
        } else {
            assert(keep(costs, flags) == kc_prev);
            assert(keep(senders, flags) == ks_prev);
            if senders[n - 1] == a {
                assert(sender_costs(costs, senders, a) == sc_prev.push(costs[n - 1]));
                assert(sender_flags(flags, senders, a) == sf_prev.push(false));
                assert(sc_prev.push(costs[n - 1]).drop_last() =~= sc_prev);
                assert(sf_prev.push(false).drop_last() =~= sf_prev);
                assert(keep(sc_prev.push(costs[n - 1]), sf_prev.push(false)) == keep(
                    sc_prev,
                    sf_prev,
                ));
            }
        }
    }
}

/// A sender's restricted cost and flag sequences are equally long.
proof fn lemma_sender_same_shape(
    costs: Seq<TxCost>,
    flags: Seq<bool>,
    senders: Seq<Address>,
    a: Address,
)
    ensures
        sender_costs(costs, senders, a).len() == sender_flags(flags, senders, a).len(),
    decreases senders.len(),
{
    if senders.len() > 0 {
        lemma_sender_same_shape(costs.drop_last(), flags.drop_last(), senders.drop_last(), a);
    }
}

/// When every flag of a sender's restriction holds, each of that
/// sender's block-wide flags holds.
proof fn lemma_flag_in_restriction(flags: Seq<bool>, senders: Seq<Address>, k: int)
    requires
        flags.len() == senders.len(),
        0 <= k < senders.len(),
        forall|m: int|
            0 <= m < sender_flags(flags, senders, senders[k]).len() ==> sender_flags(
                flags,
                senders,
                senders[k],
            )[m],
    ensures
        flags[k],
    decreases senders.len(),
{
    let n = senders.len() as int;
    let a = senders[k];
    let sf = sender_flags(flags, senders, a);
    let sf_prev = sender_flags(flags.drop_last(), senders.drop_last(), a);
    if k == n - 1 {
        assert(sf == sf_prev.push(flags[k]));
        assert(sf[sf.len() - 1] == flags[k]);
    } else {
        assert(senders.drop_last()[k] == a);
        assert forall|m: int| 0 <= m < sf_prev.len() implies sf_prev[m] by {
            if senders.last() == a {
                assert(sf == sf_prev.push(flags[n - 1]));
                assert(sf[m] == sf_prev[m]);
            } else {
                assert(sf == sf_prev);
            }
        }
        lemma_flag_in_restriction(flags.drop_last(), senders.drop_last(), k);
        assert(flags.drop_last()[k] == flags[k]);
    }
}

/// Keeping commutes with reading off the admission fields.
proof fn lemma_keep_costs(txs: Seq<Tx>, flags: Seq<bool>)
    requires
        flags.len() == txs.len(),
    ensures
        keep(txs, flags).map_values(|t: Tx| cost_of(t)) =~= keep(
            txs.map_values(|t: Tx| cost_of(t)),
            flags,
        ),
    decreases txs.len(),
{
    if txs.len() > 0 {
        lemma_keep_costs(txs.drop_last(), flags.drop_last());
        assert(txs.map_values(|t: Tx| cost_of(t)).drop_last() =~= txs.drop_last().map_values(
            |t: Tx| cost_of(t),
        ));
        let n = txs.len() as int;
        if flags[n - 1] {
            assert(keep(txs, flags) == keep(txs.drop_last(), flags.drop_last()).push(txs.last()));
            assert(keep(txs, flags).map_values(|t: Tx| cost_of(t)) =~= keep(
                txs.drop_last(),
                flags.drop_last(),
            ).map_values(|t: Tx| cost_of(t)).push(cost_of(txs.last())));
            assert(txs.map_values(|t: Tx| cost_of(t))[n - 1] == cost_of(txs.last()));
        }
    }
}

/// Pre-filter idempotence: every transaction the first pass keeps, a
/// second pass against the same state admits again, so filtering the
/// filtered block returns it unchanged.
pub proof fn lemma_prefilter_idempotent(
    accounts: Seq<(Address, AccountInfo)>,
    txs: Seq<Tx>,
    senders: Seq<Address>,
    base_fee: u128,
)
    requires
        txs.len() == senders.len(),
    ensures
        ({
            let flags = spec_valid_flags(accounts, txs, senders, base_fee);
            let txs2 = keep(txs, flags);
            let senders2 = keep(senders, flags);
            let flags2 = spec_valid_flags(accounts, txs2, senders2, base_fee);
            &&& forall|k: int| 0 <= k < flags2.len() ==> flags2[k]
            &&& keep(txs2, flags2) =~= txs2
            &&& keep(senders2, flags2) =~= senders2
        }),
{
    let costs = txs.map_values(|t: Tx| cost_of(t));
    let flags = spec_valid_flags(accounts, txs, senders, base_fee);
    let txs2 = keep(txs, flags);
    let senders2 = keep(senders, flags);
    let costs2 = txs2.map_values(|t: Tx| cost_of(t));
    let flags2 = spec_valid_flags(accounts, txs2, senders2, base_fee);
    lemma_keep_same_shape(txs, senders, flags);
    lemma_keep_costs(txs, flags);
    lemma_keep_same_shape(costs, senders, flags);
    assert(costs2 =~= keep(costs, flags));
    assert(flags =~= Seq::new(
        senders.len(),
        |i: int| spec_valid_at(accounts, costs, senders, base_fee, i),
    ));
    assert(flags2 =~= Seq::new(
        senders2.len(),
        |i: int| spec_valid_at(accounts, costs2, senders2, base_fee, i),
    ));
    assert forall|k: int| 0 <= k < flags2.len() implies flags2[k] by {
        let a = senders2[k];
        let acc0 = sim_of(assoc_lookup(accounts, a));
        let sc = sender_costs(costs, senders, a);
        lemma_flags_restrict(accounts, costs, senders, base_fee, a);
        lemma_keep_restrict(costs, senders, flags, a);
        lemma_flags_restrict(accounts, costs2, senders2, base_fee, a);
        lemma_prefilter_idempotent_per_sender(acc0, sc, base_fee);
        assert(sender_costs(costs2, senders2, a) =~= keep(sc, bucket_flags(acc0, sc, base_fee)));
        assert(sender_flags(flags2, senders2, a) =~= bucket_flags(
            acc0,
            keep(sc, bucket_flags(acc0, sc, base_fee)),
            base_fee,
        ));
        assert(forall|m: int|
            0 <= m < sender_flags(flags2, senders2, a).len() ==> sender_flags(
                flags2,
                senders2,
                a,
            )[m]);
        lemma_flag_in_restriction(flags2, senders2, k);
    }
    lemma_keep_all_true(txs2, flags2);
    lemma_keep_all_true(senders2, flags2);
}

/// Drop, before execution, every transaction the parent state already
/// rejects: a nonce that is not the sender's next, or a balance that no
/// longer covers `gas_limit * (priority_fee_or_price + base_fee)`, each
/// sender simulated through its transactions in original order. Both
/// lists are pruned by the same positions, preserving relative order; a
/// block with nothing to drop is returned as it came.
pub fn filter_invalid_txs(
    state: &StateView,
    txs: Vec<Tx>,
    senders: Vec<Address>,
    base_fee: u128,
) -> (r: (Vec<Tx>, Vec<Address>))
    requires
        txs@.len() == senders@.len(),
    ensures
        r.0@ == keep(txs@, spec_valid_flags(state.accounts@, txs@, senders@, base_fee)),
        r.1@ == keep(senders@, spec_valid_flags(state.accounts@, txs@, senders@, base_fee)),
        r.0@.len() == r.1@.len(),
{
    let ghost otxs = txs@;
    let ghost osenders = senders@;
    let ghost costs = txs@.map_values(|t: Tx| cost_of(t));
    let ghost accounts = state.accounts@;
    let n = txs.len();

    // Bucket the transaction indices by sender, preserving order.
    let mut buckets: Vec<SenderBucket> = Vec::new();
    let mut i: usize = 0;
    while i < n
        invariant
            txs@ == otxs,
            senders@ == osenders,
            accounts == state.accounts@,
            costs == txs@.map_values(|t: Tx| cost_of(t)),
            n == txs@.len(),
            txs@.len() == senders@.len(),
            i <= n,
            buckets_wf(buckets@, accounts, costs, senders@, i as int),
        decreases n - i,
    {
        let a = senders[i];
        let cost = tx_cost(&txs[i]);
        assert(costs[i as int] == cost);
        let mut bi: usize = 0;
        let mut found: bool = false;
        while !found && bi < buckets.len()
            invariant
                bi <= buckets@.len(),
                forall|b2: int| 0 <= b2 < bi ==> (#[trigger] buckets@[b2]).sender != a,
                found ==> bi < buckets@.len() && buckets@[bi as int].sender == a,
            decreases buckets@.len() - bi + (if found {
                0int
            } else {
                1int
            }),
        {
            if buckets[bi].sender == a {
                found = true;
            } else {
                bi += 1;
            }
        }
        if found {
            let ghost pre = buckets@;
            let mut bk = buckets.remove(bi);
            let ghost old_bk = bk;
            bk.items.push((i, cost));
            buckets.insert(bi, bk);
            proof {
                assert(buckets@ =~= pre.update(bi as int, bk));
                assert(old_bk == pre[bi as int]);
                assert(bk.items@ =~= old_bk.items@.push((i, cost)));
                assert(bucket_wf(bk, accounts, costs, senders@, i as int + 1)) by {
                    assert forall|j2: int|
                        0 <= j2 < i as int + 1 && #[trigger] senders@[j2] == bk.sender implies exists|k: int|
                        0 <= k < bk.items@.len() && (#[trigger] bk.items@[k]).0 == j2 by {
                        if j2 < i as int {
                            let k = choose|k: int|
                                0 <= k < old_bk.items@.len() && (#[trigger] old_bk.items@[k]).0
                                    == j2;
                            assert(bk.items@[k].0 == j2);
                        } else {
                            assert(bk.items@[old_bk.items@.len() as int].0 == j2);
                        }
                    }
                }
                assert forall|b2: int|
                    0 <= b2 < buckets@.len() implies bucket_wf(
                    #[trigger] buckets@[b2],
                    accounts,
                    costs,
                    senders@,
                    i as int + 1,
                ) by {
                    if b2 != bi as int {
                        lemma_bucket_wf_extend(
                            buckets@[b2],
                            accounts,
                            costs,
                            senders@,
                            i as int,
                        );
                    }
                }
                assert forall|j2: int| #![trigger senders@[j2]] 0 <= j2 < i as int + 1 implies exists|b3: int|
                    0 <= b3 < buckets@.len() && (#[trigger] buckets@[b3]).sender == senders@[j2] by {
                    if j2 < i as int {
                        let b3 = choose|b3: int|
                            0 <= b3 < pre.len() && (#[trigger] pre[b3]).sender == senders@[j2];
                        assert(buckets@[b3].sender == senders@[j2]);
                    } else {
                        assert(buckets@[bi as int].sender == senders@[j2]);
                    }
                }
            }
        } else {
            let account = state.basic(a);
            let mut items: Vec<(usize, TxCost)> = Vec::new();
            items.push((i, cost));
            let nb = SenderBucket { sender: a, account, items };
            let ghost pre = buckets@;
            buckets.push(nb);
            proof {
                assert(nb.account == assoc_lookup(accounts, nb.sender));
                assert(nb.items@.len() == 1 && nb.items@[0] == (i, cost));
                assert(bucket_wf(nb, accounts, costs, senders@, i as int + 1)) by {
                    assert forall|j2: int|
                        0 <= j2 < i as int + 1 && #[trigger] senders@[j2] == nb.sender implies exists|k: int|
                        0 <= k < nb.items@.len() && (#[trigger] nb.items@[k]).0 == j2 by {
                        if j2 < i as int {
                            let b3 = choose|b3: int|
                                0 <= b3 < pre.len() && (#[trigger] pre[b3]).sender == senders@[j2];
                            assert(false);
                        } else {
                            assert(nb.items@[0].0 == j2);
                        }
                    }
                }
                assert forall|b2: int|
                    0 <= b2 < buckets@.len() implies bucket_wf(
                    #[trigger] buckets@[b2],
                    accounts,
                    costs,
                    senders@,
                    i as int + 1,
                ) by {
                    if b2 < pre.len() {
                        assert(buckets@[b2] == pre[b2]);
                        lemma_bucket_wf_extend(pre[b2], accounts, costs, senders@, i as int);
                    }
                }
                assert forall|j2: int| #![trigger senders@[j2]] 0 <= j2 < i as int + 1 implies exists|b3: int|
                    0 <= b3 < buckets@.len() && (#[trigger] buckets@[b3]).sender == senders@[j2] by {
                    if j2 < i as int {
                        let b3 = choose|b3: int|
                            0 <= b3 < pre.len() && (#[trigger] pre[b3]).sender == senders@[j2];
                        assert(buckets@[b3].sender == senders@[j2]);
                    } else {
                        assert(buckets@[pre.len() as int].sender == senders@[j2]);
                    }
                }
            }
        }
        i += 1;
    }

    // Decide each bucket in parallel.
    let flag_vecs = flag_buckets(&buckets, base_fee);

    // Scatter the decisions back into block order.
    let mut flags: Vec<bool> = Vec::new();
    let mut j: usize = 0;
    while j < n
        invariant
            j <= n,
            flags@.len() == j,
            forall|m: int| 0 <= m < j ==> !(#[trigger] flags@[m]),
        decreases n - j,
    {
        flags.push(false);
        j += 1;
    }
    let mut bi: usize = 0;
    while bi < flag_vecs.len()
        invariant
            n == txs@.len(),
            txs@.len() == senders@.len(),
            costs == txs@.map_values(|t: Tx| cost_of(t)),
            costs.len() == senders@.len(),
            buckets_wf(buckets@, accounts, costs, senders@, n as int),
            flag_vecs@.len() == buckets@.len(),
            forall|b2: int|
                0 <= b2 < buckets@.len() ==> (#[trigger] flag_vecs@[b2])@ == bucket_flag_pairs(
                    buckets@[b2],
                    base_fee,
                ),
            bi <= flag_vecs@.len(),
            flags@.len() == n,
            forall|b2: int, k2: int| #![trigger flag_vecs@[b2]@[k2]]
                0 <= b2 < bi && 0 <= k2 < flag_vecs@[b2]@.len() ==> flags@[flag_vecs@[b2]@[k2].0 as int] == flag_vecs@[b2]@[k2].1,
        decreases flag_vecs@.len() - bi,
    {
        let m = flag_vecs[bi].len();
        let mut k: usize = 0;
        while k < m
            invariant
                n == txs@.len(),
                txs@.len() == senders@.len(),
                costs == txs@.map_values(|t: Tx| cost_of(t)),
                costs.len() == senders@.len(),
                buckets_wf(buckets@, accounts, costs, senders@, n as int),
                flag_vecs@.len() == buckets@.len(),
                forall|b2: int|
                    0 <= b2 < buckets@.len() ==> (#[trigger] flag_vecs@[b2])@ == bucket_flag_pairs(
                        buckets@[b2],
                        base_fee,
                    ),
                bi < flag_vecs@.len(),
                m == flag_vecs@[bi as int]@.len(),
                k <= m,
                flags@.len() == n,
                forall|b2: int, k2: int| #![trigger flag_vecs@[b2]@[k2]]
                    0 <= b2 < bi && 0 <= k2 < flag_vecs@[b2]@.len() ==> flags@[flag_vecs@[b2]@[k2].0 as int] == flag_vecs@[b2]@[k2].1,
                forall|k2: int|
                    0 <= k2 < k ==> flags@[(#[trigger] flag_vecs@[bi as int]@[k2]).0 as int]
                        == flag_vecs@[bi as int]@[k2].1,
            decreases m - k,
        {
            let (idx, fl) = flag_vecs[bi][k];
            proof {
                lemma_bucket_flags_len(
                    sim_of(buckets@[bi as int].account),
                    bucket_costs(buckets@[bi as int].items@),
                    base_fee,
                );
                assert(bucket_flag_pairs(buckets@[bi as int], base_fee)[k as int] == (
                    buckets@[bi as int].items@[k as int].0,
                    bucket_flags(
                        sim_of(buckets@[bi as int].account),
                        bucket_costs(buckets@[bi as int].items@),
                        base_fee,
                    )[k as int],
                ));
                assert(idx == buckets@[bi as int].items@[k as int].0);
                assert(idx < n);
            }
            let ghost pre_flags = flags@;
            flags.remove(idx);
            flags.insert(idx, fl);
            proof {
                let bcur = buckets@[bi as int];
                assert(flags@ =~= pre_flags.update(idx as int, fl));
                // Writes of the current bucket touch only its own sender's
                // indices, disjoint from every other bucket's.
                assert forall|b2: int, k2: int| #![trigger flag_vecs@[b2]@[k2]]
                    0 <= b2 < bi && 0 <= k2 < flag_vecs@[b2]@.len() implies flags@[flag_vecs@[b2]@[k2].0 as int] == flag_vecs@[b2]@[k2].1 by {
                    let other = buckets@[b2];
                    assert(flag_vecs@[b2]@[k2].0 == other.items@[k2].0);
                    assert(senders@[other.items@[k2].0 as int] == other.sender);
                    assert(senders@[idx as int] == bcur.sender);
                    assert(other.sender != bcur.sender);
                }
            }
            k += 1;
        }
        bi += 1;
    }

    proof {
        // Every index is covered by its sender's bucket, so the scatter
        // filled every flag with the block-wide admission decision.
        assert forall|j2: int| 0 <= j2 < n implies flags@[j2] == spec_valid_at(
            accounts,
            costs,
            senders@,
            base_fee,
            j2,
        ) by {
            let a2 = senders@[j2];
            let b2 = choose|b2: int|
                0 <= b2 < buckets@.len() && (#[trigger] buckets@[b2]).sender == a2;
            let bk = buckets@[b2];
            let k2 = choose|k2: int| 0 <= k2 < bk.items@.len() && (#[trigger] bk.items@[k2]).0 == j2;
            lemma_bucket_pair_valid(bk, accounts, costs, senders@, base_fee, k2);
            assert(flag_vecs@[b2]@[k2] == bucket_flag_pairs(bk, base_fee)[k2]);
        }
        assert(flags@ =~= spec_valid_flags(accounts, otxs, osenders, base_fee));
    }

    // Keep the admitted transactions, in order; copy nothing when all are
    // admitted.
    let mut all_valid: bool = true;
    let mut j: usize = 0;
    while j < n
        invariant
            j <= n,
            flags@.len() == n,
            all_valid <==> (forall|m: int| 0 <= m < j ==> #[trigger] flags@[m]),
        decreases n - j,
    {
        if !flags[j] {
            all_valid = false;
        }
        j += 1;
    }
    if all_valid {
        proof {
            lemma_keep_all_true(otxs, flags@);
            lemma_keep_all_true(osenders, flags@);
        }
        return (txs, senders);
    }
    let mut rest_txs = txs;
    let mut rest_senders = senders;
    let mut out_txs: Vec<Tx> = Vec::new();
    let mut out_senders: Vec<Address> = Vec::new();
    let mut j: usize = 0;
    while j < n
        invariant
            n == otxs.len(),
            otxs.len() == osenders.len(),
            flags@.len() == n,
            j <= n,
            rest_txs@ =~= otxs.skip(j as int),
            rest_senders@ =~= osenders.skip(j as int),
            out_txs@ == keep(otxs.take(j as int), flags@.take(j as int)),
            out_senders@ == keep(osenders.take(j as int), flags@.take(j as int)),
        decreases n - j,
    {
        let tx = rest_txs.remove(0);
        let snd = rest_senders.remove(0);
        proof {
            assert(otxs.skip(j as int)[0] == otxs[j as int]);
            assert(osenders.skip(j as int)[0] == osenders[j as int]);
            assert(otxs.skip(j as int).remove(0) =~= otxs.skip(j as int + 1));
            assert(osenders.skip(j as int).remove(0) =~= osenders.skip(j as int + 1));
            assert(otxs.take(j as int + 1).drop_last() =~= otxs.take(j as int));
            assert(osenders.take(j as int + 1).drop_last() =~= osenders.take(j as int));
            assert(flags@.take(j as int + 1).drop_last() =~= flags@.take(j as int));
        }
        if flags[j] {
            out_txs.push(tx);
            out_senders.push(snd);
        }
        j += 1;
    }
    proof {
        assert(otxs.take(n as int) =~= otxs);
        assert(osenders.take(n as int) =~= osenders);
        assert(flags@.take(n as int) =~= flags@);
        lemma_keep_same_shape(otxs, osenders, flags@);
    }
    (out_txs, out_senders)
}

} // verus!
