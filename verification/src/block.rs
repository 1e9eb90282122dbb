//! Blocks: ordered batches of transactions sealed by proof-of-work.
//!
//! A block's hash commits to its timestamp, its transactions as resolved,
//! its predecessor's hash and the winning nonce. The hash stays empty until
//! the block is mined; mining resolves every contained transaction to
//! `SUCCESS` or `FAILED` against a scratch copy of the ledger (earlier
//! transactions of the same block draining the balance seen by later ones),
//! then searches for the least nonce whose digest meets the difficulty.
//! Settlement applies the `SUCCESS` transfers to the real ledger afterwards.

use vstd::prelude::*;
use vstd::pervasive::VecAdditionalExecFns;
use vstd::string::StrSliceExecFns;
use crate::account::Account;
use crate::account::spec_transfer;
use crate::account::transfer_applicable;
use crate::blockchain::Blockchain;
use crate::crypto::sha256_digest;
use crate::crypto::sha256_hex;
use crate::numstr::spec_dec_str;
use crate::numstr::u64_to_string;
use crate::transaction::Transaction;
use crate::transaction::TxStatus;
use crate::transaction::TxView;
use crate::transaction::spec_tx_str;
use crate::transaction::spec_tx_valid;
use crate::transaction::with_status;

verus! {

/// A block: an ordered batch of transactions plus a proof-of-work seal.
#[derive(Debug)]
pub struct Block {
    pub timestamp: u64,
    pub transactions: Vec<Transaction>,
    pub previous_hash: String,
    pub hash: String,
    pub nonce: u32,
    pub block_capacity: usize,
    pub mined: bool,
}

/// The mathematical image of a block.
pub ghost struct BlockView {
    pub timestamp: u64,
    pub transactions: Seq<TxView>,
    pub previous_hash: Seq<char>,
    pub hash: Seq<char>,
    pub nonce: u32,
    pub block_capacity: usize,
    pub mined: bool,
}

impl View for Block {
    type V = BlockView;

    open spec fn view(&self) -> BlockView {
        BlockView {
            timestamp: self.timestamp,
            transactions: self.transactions@.map_values(|t: Transaction| t@),
            previous_hash: self.previous_hash@,
            hash: self.hash@,
            nonce: self.nonce,
            block_capacity: self.block_capacity,
            mined: self.mined,
        }
    }
}

impl Clone for Block {
    fn clone(&self) -> (r: Self)
        ensures
            r@ == self@,
    {
        let transactions = self.transactions.clone();
        proof {
            assert(transactions@ =~= self.transactions@);
        }
        Block {
            timestamp: self.timestamp,
            transactions,
            previous_hash: self.previous_hash.clone(),
            hash: self.hash.clone(),
            nonce: self.nonce,
            block_capacity: self.block_capacity,
            mined: self.mined,
        }
    }
}

/// The concatenated renderings of the transactions inside the hashed
/// string.
pub open spec fn spec_txs_str(ts: Seq<TxView>) -> Seq<char>
    decreases ts.len(),
{
    if ts.len() == 0 {
        Seq::empty()
    } else {
        spec_txs_str(ts.drop_last()) + spec_tx_str(ts.last())
    }
}

/// The string a block hashes: timestamp, transactions, previous hash and
/// nonce; neither the stored hash nor the mined flag take part.
pub open spec fn spec_block_data(b: BlockView) -> Seq<char> {
    spec_dec_str(b.timestamp as nat) + "#"@ + spec_txs_str(b.transactions) + "#"@
        + b.previous_hash + "#"@ + spec_dec_str(b.nonce as nat)
}

/// The first `d` characters are all `'0'`.
pub open spec fn spec_meets_difficulty(h: Seq<char>, d: nat) -> bool {
    d <= h.len() && forall|i: int| 0 <= i < d ==> h[i] == '0'
}

/// A sealed block: the stored hash is the digest of the block's data and
/// meets the difficulty.
pub open spec fn block_sealed(b: BlockView, d: nat) -> bool {
    &&& b.hash == sha256_hex(spec_block_data(b))
    &&& b.hash.len() == 64
    &&& spec_meets_difficulty(b.hash, d)
}

/// The block invariant: sealed once mined, an empty placeholder hash
/// before.
pub open spec fn block_wf(b: BlockView, d: nat) -> bool {
    if b.mined {
        block_sealed(b, d)
    } else {
        b.hash.len() == 0
    }
}

/// The ledger after one settlement step: a `SUCCESS` transaction whose
/// transfer is applicable moves its amount, everything else moves nothing.
pub open spec fn spec_apply_tx(m: Map<Seq<char>, u64>, t: TxView) -> Map<Seq<char>, u64> {
    if t.status == TxStatus::SUCCESS && transfer_applicable(m, t.from_address, t.to_address, t.amount) {
        spec_transfer(m, t.from_address, t.to_address, t.amount)
    } else {
        m
    }
}

/// The ledger after settling the transactions in order.
pub open spec fn spec_settle(m: Map<Seq<char>, u64>, ts: Seq<TxView>) -> Map<Seq<char>, u64>
    decreases ts.len(),
{
    if ts.len() == 0 {
        m
    } else {
        spec_settle(spec_apply_tx(m, ts.first()), ts.drop_first())
    }
}

/// The status a transaction resolves to against ledger state `m`.
pub open spec fn spec_resolved_status(t: TxView, m: Map<Seq<char>, u64>) -> TxStatus {
    if spec_tx_valid(t, m) {
        TxStatus::SUCCESS
    } else {
        TxStatus::FAILED
    }
}

/// The transactions with their statuses resolved in order, each validated
/// against the scratch ledger left by its predecessors.
pub open spec fn spec_resolve_txs(ts: Seq<TxView>, m: Map<Seq<char>, u64>) -> Seq<TxView>
    decreases ts.len(),
{
    if ts.len() == 0 {
        Seq::empty()
    } else {
        let t = with_status(ts.first(), spec_resolved_status(ts.first(), m));
        seq![t] + spec_resolve_txs(ts.drop_first(), spec_apply_tx(m, t))
    }
}

/// The scratch ledger left behind by resolving the transactions in order.
pub open spec fn spec_resolve_state(ts: Seq<TxView>, m: Map<Seq<char>, u64>) -> Map<Seq<char>, u64>
    decreases ts.len(),
{
    if ts.len() == 0 {
        m
    } else {
        let t = with_status(ts.first(), spec_resolved_status(ts.first(), m));
        spec_resolve_state(ts.drop_first(), spec_apply_tx(m, t))
    }
}

/// Resolution keeps the number of transactions.
pub proof fn lemma_resolve_len(ts: Seq<TxView>, m: Map<Seq<char>, u64>)
    ensures
        spec_resolve_txs(ts, m).len() == ts.len(),
    decreases ts.len(),
{
    if ts.len() > 0 {
        let t = with_status(ts.first(), spec_resolved_status(ts.first(), m));
        lemma_resolve_len(ts.drop_first(), spec_apply_tx(m, t));
    }
}

/// Resolving one more transaction appends its resolution against the
/// scratch ledger of the earlier ones.
pub proof fn lemma_resolve_push(ts: Seq<TxView>, m: Map<Seq<char>, u64>, t: TxView)
    ensures
        spec_resolve_txs(ts.push(t), m) == spec_resolve_txs(ts, m).push(
            with_status(t, spec_resolved_status(t, spec_resolve_state(ts, m))),
        ),
        spec_resolve_state(ts.push(t), m) == spec_apply_tx(
            spec_resolve_state(ts, m),
            with_status(t, spec_resolved_status(t, spec_resolve_state(ts, m))),
        ),
    decreases ts.len(),
{
    reveal_with_fuel(spec_resolve_txs, 2);
    reveal_with_fuel(spec_resolve_state, 2);
    let t2 = with_status(t, spec_resolved_status(t, spec_resolve_state(ts, m)));
    if ts.len() == 0 {
        assert(spec_resolve_state(ts, m) == m);
        assert(ts.push(t).first() == t);
        assert(ts.push(t).drop_first() =~= Seq::<TxView>::empty());
        assert(spec_resolve_txs(ts.push(t), m) == seq![t2] + spec_resolve_txs(
            Seq::<TxView>::empty(),
            spec_apply_tx(m, t2),
        ));
        assert(seq![t2] + Seq::<TxView>::empty() =~= spec_resolve_txs(ts, m).push(t2));
    } else {
        let t0 = with_status(ts.first(), spec_resolved_status(ts.first(), m));
        let m1 = spec_apply_tx(m, t0);
        lemma_resolve_push(ts.drop_first(), m1, t);
        assert(ts.push(t).first() == ts.first());
        assert(ts.push(t).drop_first() =~= ts.drop_first().push(t));
        assert(spec_resolve_txs(ts.push(t), m) == seq![t0] + spec_resolve_txs(
            ts.drop_first().push(t),
            m1,
        ));
        assert(spec_resolve_state(ts, m) == spec_resolve_state(ts.drop_first(), m1));
        assert(spec_resolve_txs(ts.drop_first().push(t), m1) == spec_resolve_txs(
            ts.drop_first(),
            m1,
        ).push(t2));
        assert(seq![t0] + spec_resolve_txs(ts.drop_first(), m1).push(t2) =~= (seq![t0]
            + spec_resolve_txs(ts.drop_first(), m1)).push(t2));
        assert(spec_resolve_txs(ts, m) == seq![t0] + spec_resolve_txs(ts.drop_first(), m1));
        assert(spec_resolve_state(ts.push(t), m) == spec_resolve_state(
            ts.drop_first().push(t),
            m1,
        ));
    }
}

/// Settling one more transaction applies it to the ledger left by the
/// earlier ones.
pub proof fn lemma_settle_push(ts: Seq<TxView>, m: Map<Seq<char>, u64>, t: TxView)
    ensures
        spec_settle(m, ts.push(t)) == spec_apply_tx(spec_settle(m, ts), t),
    decreases ts.len(),
{
    reveal_with_fuel(spec_settle, 2);
    if ts.len() == 0 {
        assert(ts.push(t).drop_first() =~= Seq::<TxView>::empty());
        assert(ts.push(t).first() == t);
    } else {
        lemma_settle_push(ts.drop_first(), spec_apply_tx(m, ts.first()), t);
        assert(ts.push(t).drop_first() =~= ts.drop_first().push(t));
        assert(ts.push(t).first() == ts.first());
    }
}

/// The validity pass and the settlement pass are consistent: settling the
/// transactions exactly as mining resolved them reproduces the scratch
/// ledger that the resolution walked, so no transfer is applied for a
/// transaction judged `FAILED` and none is skipped for one judged
/// `SUCCESS`.
pub proof fn lemma_settlement_matches_resolution(ts: Seq<TxView>, m: Map<Seq<char>, u64>)
    ensures
        spec_settle(m, spec_resolve_txs(ts, m)) == spec_resolve_state(ts, m),
    decreases ts.len(),
{
    if ts.len() > 0 {
        let t = with_status(ts.first(), spec_resolved_status(ts.first(), m));
        let m1 = spec_apply_tx(m, t);
        lemma_settlement_matches_resolution(ts.drop_first(), m1);
        let rest = spec_resolve_txs(ts.drop_first(), m1);
        assert((seq![t] + rest).first() == t);
        assert((seq![t] + rest).drop_first() =~= rest);
        assert(spec_settle(m, seq![t] + rest) == spec_settle(m1, rest));
    }
}

/// Whether mining fires for this block: not yet mined, and either forced
/// or at capacity.
pub open spec fn spec_mine_triggered(b: BlockView, force: bool) -> bool {
    !b.mined && (force || b.transactions.len() >= b.block_capacity)
}

/// Whether nonce `n` wins the proof-of-work search for block `b` at
/// difficulty `d`.
pub open spec fn found_nonce(b: BlockView, n: u32, d: nat) -> bool {
    spec_meets_difficulty(sha256_hex(spec_block_data(BlockView { nonce: n, ..b })), d)
}

/// What mining leaves behind when it fires: statuses resolved, the
/// search started at the block's stored nonce, and either the least
/// winning nonce sealed the block or the nonce space was exhausted and
/// the block stayed open with its placeholder hash.
pub open spec fn spec_mined_from(
    pre: BlockView,
    post: BlockView,
    m: Map<Seq<char>, u64>,
    d: nat,
) -> bool {
    let base = BlockView { transactions: spec_resolve_txs(pre.transactions, m), ..pre };
    &&& post.timestamp == pre.timestamp
    &&& post.previous_hash == pre.previous_hash
    &&& post.block_capacity == pre.block_capacity
    &&& post.transactions == base.transactions
    &&& post.nonce >= pre.nonce
    &&& forall|n: u32| pre.nonce <= n < post.nonce ==> !found_nonce(base, n, d)
    &&& if post.mined {
        &&& found_nonce(base, post.nonce, d)
        &&& post.hash == sha256_hex(spec_block_data(BlockView { nonce: post.nonce, ..base }))
        &&& post.hash.len() == 64
        &&& spec_meets_difficulty(post.hash, d)
    } else {
        &&& post.nonce == u32::MAX
        &&& !found_nonce(base, post.nonce, d)
        &&& post.hash == pre.hash
    }
}

/// The full contract of the mining entry point: a no-op on a block that
/// is already mined (or not yet triggered), the search result otherwise.
pub open spec fn spec_mine_post(
    pre: Block,
    post: Block,
    m: Map<Seq<char>, u64>,
    d: nat,
    force: bool,
) -> bool {
    if spec_mine_triggered(pre@, force) {
        spec_mined_from(pre@, post@, m, d)
    } else {
        post == pre
    }
}

impl Block {
    /// The string this block hashes, rendered from its current fields.
    pub fn block_data_string(&self) -> (r: String)
        ensures
            r@ == spec_block_data(self@),
    {
        let ghost ts = self@.transactions;
        let mut r = u64_to_string(self.timestamp);
        r.append("#");
        let n: usize = self.transactions.len();
        let mut i: usize = 0;
        while i < n
            invariant
                i <= n,
                n == self.transactions@.len(),
                ts == self@.transactions,
                r@ == spec_dec_str(self.timestamp as nat) + "#"@ + spec_txs_str(ts.take(i as int)),
            decreases n - i,
        {
            let s = self.transactions[i].data_string();
            r.append(s.as_str());
            proof {
                assert(ts.take(i + 1).drop_last() =~= ts.take(i as int));
                assert(ts.take(i + 1).last() == ts[i as int]);
            }
            i = i + 1;
        }
        proof {
            assert(ts.take(n as int) =~= ts);
        }
        r.append("#");
        r.append(self.previous_hash.as_str());
        r.append("#");
        let nonce = u64_to_string(self.nonce as u64);
        r.append(nonce.as_str());
        proof {
            assert(r@ =~= spec_block_data(self@));
        }
        r
    }

    /// The digest of this block's data, as it stands.
    pub fn calculate_hash(&self) -> (r: String)
        ensures
            r@ == sha256_hex(spec_block_data(self@)),
            r@.len() == 64,
    {
        let data = self.block_data_string();
        sha256_digest(data.as_str())
    }

    /// Resolves and seals this block, if it is due: on an already mined
    /// block this is a no-op, and nothing fires below capacity unless
    /// `force` asks for the final settlement of a partially filled block.
    /// Transactions are validated in order against a scratch copy of
    /// `account` (no real transfer is applied here), then the proof-of-work
    /// search runs upward from the stored nonce.
    pub fn mine_block_with_capacity(&mut self, difficulty: usize, account: &Account, force: bool)
        requires
            account.wf(),
            difficulty <= 64,
        ensures
            spec_mine_post(*old(self), *final(self), account@, difficulty as nat, force),
    {
        if self.mined {
            return ;
        }
        if !force && self.transactions.len() < self.block_capacity {
            return ;
        }
        let ghost ts0 = self@.transactions;
        let ghost m0 = account@;
        let mut scratch = account.clone();
        let n: usize = self.transactions.len();
        let mut i: usize = 0;
        while i < n
            invariant
                i <= n,
                n == self.transactions@.len(),
                n == ts0.len(),
                scratch.wf(),
                self.timestamp == old(self).timestamp,
                self.previous_hash == old(self).previous_hash,
                self.hash == old(self).hash,
                self.nonce == old(self).nonce,
                self.block_capacity == old(self).block_capacity,
                self.mined == old(self).mined,
                ts0 == old(self)@.transactions,
                self@.transactions =~= spec_resolve_txs(ts0.take(i as int), m0) + ts0.skip(
                    i as int,
                ),
                scratch@ == spec_resolve_state(ts0.take(i as int), m0),
            decreases n - i,
        {
            let valid = self.transactions[i].is_valid(&scratch);
            let mut t = self.transactions[i].clone();
            t.status = if valid {
                TxStatus::SUCCESS
            } else {
                TxStatus::FAILED
            };
            proof {
                lemma_resolve_len(ts0.take(i as int), m0);
                assert(self@.transactions[i as int] == ts0.skip(i as int)[0]);
                assert(self@.transactions[i as int] == ts0[i as int]);
                assert(t@ == with_status(ts0[i as int], spec_resolved_status(ts0[i as int], scratch@)));
            }
            if valid {
                match scratch.get_balance(&t.to_address) {
                    Some(to_balance) => {
                        let same = t.from_address == t.to_address;
                        if same || t.amount <= u64::MAX - to_balance {
                            scratch.transfer(&t.from_address, &t.to_address, t.amount);
                        }
                    },
                    None => (),
                }
            }
            let ghost prev = self@.transactions;
            self.transactions.set(i, t);
            proof {
                lemma_resolve_push(ts0.take(i as int), m0, ts0[i as int]);
                lemma_resolve_len(ts0.take(i as int), m0);
                lemma_resolve_len(ts0.take(i + 1), m0);
                assert(ts0.take(i + 1) =~= ts0.take(i as int).push(ts0[i as int]));
                let t2 = with_status(
                    ts0[i as int],
                    spec_resolved_status(ts0[i as int], spec_resolve_state(ts0.take(i as int), m0)),
                );
                assert(t@ == t2);
                let rprev = spec_resolve_txs(ts0.take(i as int), m0);
                let rnew = spec_resolve_txs(ts0.take(i + 1), m0);
                assert(rnew == rprev.push(t2));
                assert(self@.transactions.len() == n);
                assert forall|j: int| 0 <= j < n implies self@.transactions[j] == (rnew + ts0.skip(
                    i + 1,
                ))[j] by {
                    if j == i as int {
                        assert(self@.transactions[j] == t@);
                        assert((rnew + ts0.skip(i + 1))[j] == t2);
                    } else {
                        assert(self@.transactions[j] == prev[j]);
                        assert(prev[j] == (rprev + ts0.skip(i as int))[j]);
                        if j < i as int {
                            assert((rprev + ts0.skip(i as int))[j] == rprev[j]);
                            assert((rnew + ts0.skip(i + 1))[j] == rprev[j]);
                        } else {
                            assert((rprev + ts0.skip(i as int))[j] == ts0[j]);
                            assert((rnew + ts0.skip(i + 1))[j] == ts0[j]);
                        }
                    }
                }
                assert(self@.transactions =~= rnew + ts0.skip(i + 1));
            }
            i = i + 1;
        }
        proof {
            assert(ts0.take(n as int) =~= ts0);
            assert(ts0.skip(n as int) =~= Seq::<TxView>::empty());
            assert(self@.transactions =~= spec_resolve_txs(ts0, m0));
        }
        let ghost base = BlockView { transactions: spec_resolve_txs(ts0, m0), ..old(self)@ };
        loop
            invariant
                self.timestamp == old(self).timestamp,
                self.previous_hash == old(self).previous_hash,
                self.hash == old(self).hash,
                self.block_capacity == old(self).block_capacity,
                self.mined == old(self).mined,
                !self.mined,
                self@.transactions == base.transactions,
                base == (BlockView { transactions: spec_resolve_txs(ts0, m0), ..old(self)@ }),
                ts0 == old(self)@.transactions,
                m0 == account@,
                spec_mine_triggered(old(self)@, force),
                self.nonce >= old(self).nonce,
                difficulty <= 64,
                forall|n: u32|
                    old(self).nonce <= n < self.nonce ==> !found_nonce(
                        base,
                        n,
                        difficulty as nat,
                    ),
            decreases u32::MAX - self.nonce,
        {
            let h = self.calculate_hash();
            proof {
                assert(self@ == (BlockView { nonce: self.nonce, ..base }));
            }
            if hash_meets_difficulty(h.as_str(), difficulty) {
                self.hash = h;
                self.mined = true;
                return ;
            }
            if self.nonce == u32::MAX {
                return ;
            }
            self.nonce = self.nonce + 1;
        }
    }

    /// Applies this block's settlement to the chain's ledger: every
    /// `SUCCESS` transaction whose transfer is still applicable moves its
    /// amount, in order; `FAILED` and `PENDING` transactions move nothing.
    /// Nothing else of the chain is touched.
    pub fn execute_txn(&self, blockchain: &mut Blockchain)
        requires
            old(blockchain).accounts.wf(),
        ensures
            final(blockchain).accounts.wf(),
            final(blockchain).accounts@ == spec_settle(
                old(blockchain).accounts@,
                self@.transactions,
            ),
            final(blockchain).chain == old(blockchain).chain,
            final(blockchain).difficulty == old(blockchain).difficulty,
            final(blockchain).pending_transactions == old(blockchain).pending_transactions,
            final(blockchain).mining_reward == old(blockchain).mining_reward,
            final(blockchain).block_capacity == old(blockchain).block_capacity,
    {
        let ghost m0 = old(blockchain).accounts@;
        let ghost ts = self@.transactions;
        let n: usize = self.transactions.len();
        let mut i: usize = 0;
        while i < n
            invariant
                i <= n,
                n == self.transactions@.len(),
                ts == self@.transactions,
                blockchain.accounts.wf(),
                blockchain.accounts@ == spec_settle(m0, ts.take(i as int)),
                blockchain.chain == old(blockchain).chain,
                blockchain.difficulty == old(blockchain).difficulty,
                blockchain.pending_transactions == old(blockchain).pending_transactions,
                blockchain.mining_reward == old(blockchain).mining_reward,
                blockchain.block_capacity == old(blockchain).block_capacity,
            decreases n - i,
        {
            let t = &self.transactions[i];
            proof {
                assert(ts[i as int] == t@);
            }
            if matches!(t.status, TxStatus::SUCCESS) {
                let applicable = match blockchain.accounts.get_balance(&t.from_address) {
                    Some(from_balance) => {
                        if from_balance >= t.amount {
                            match blockchain.accounts.get_balance(&t.to_address) {
                                Some(to_balance) => t.from_address == t.to_address || t.amount
                                    <= u64::MAX - to_balance,
                                None => false,
                            }
                        } else {
                            false
                        }
                    },
                    None => false,
                };
                if applicable {
                    blockchain.accounts.transfer(&t.from_address, &t.to_address, t.amount);
                }
            }
            proof {
                lemma_settle_push(ts.take(i as int), m0, ts[i as int]);
                assert(ts.take(i + 1) =~= ts.take(i as int).push(ts[i as int]));
            }
            i = i + 1;
        }
        proof {
            assert(ts.take(n as int) =~= ts);
        }
    }

    /// The first transaction whose message digest equals `msg`, if any.
    pub fn find_transaction_by_signature(&self, msg: &str) -> (r: Option<&Transaction>)
        ensures
            r matches Some(t) ==> exists|i: int|
                spec_first_tx_match(self@.transactions, msg@, i) && self@.transactions[i] == t@,
            r is None ==> forall|i: int|
                0 <= i < self@.transactions.len() ==> self@.transactions[i].msg != msg@,
    {
        let key = String::from_str(msg);
        let n: usize = self.transactions.len();
        let mut i: usize = 0;
        while i < n
            invariant
                i <= n,
                n == self.transactions@.len(),
                key@ == msg@,
                forall|j: int| 0 <= j < i ==> self@.transactions[j].msg != msg@,
            decreases n - i,
        {
            if self.transactions[i].msg == key {
                proof {
                    assert(self@.transactions[i as int] == self.transactions[i as int]@);
                    assert(spec_first_tx_match(self@.transactions, msg@, i as int));
                }
                return Some(&self.transactions[i]);
            }
            i = i + 1;
        }
        None
    }
}

/// The transaction at `i` is the first whose message digest is `m`.
pub open spec fn spec_first_tx_match(ts: Seq<TxView>, m: Seq<char>, i: int) -> bool {
    &&& 0 <= i < ts.len()
    &&& ts[i].msg == m
    &&& forall|j: int| 0 <= j < i ==> ts[j].msg != m
}

/// Whether the first `difficulty` characters of `h` are all `'0'`.
pub fn hash_meets_difficulty(h: &str, difficulty: usize) -> (r: bool)
    requires
        difficulty <= h@.len(),
    ensures
        r == spec_meets_difficulty(h@, difficulty as nat),
{
    let mut i: usize = 0;
    while i < difficulty
        invariant
            i <= difficulty,
            difficulty <= h@.len(),
            forall|j: int| 0 <= j < i ==> h@[j] == '0',
        decreases difficulty - i,
    {
        if h.get_char(i) != '0' {
            return false;
        }
        i = i + 1;
    }
    true
}

} // verus!
