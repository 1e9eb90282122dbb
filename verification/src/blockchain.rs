//! The chain: an ordered sequence of blocks starting at a genesis block,
//! the global difficulty, and the single account ledger that settled
//! blocks mutate.

use vstd::prelude::*;
use crate::account::Account;
use crate::block::Block;
use crate::block::BlockView;
use crate::block::block_wf;
use crate::block::lemma_resolve_len;
use crate::block::spec_block_data;
use crate::block::spec_mine_triggered;
use crate::block::spec_mined_from;
use crate::block::spec_settle;
use crate::crypto::ecdsa_sign_hex;
use crate::crypto::ecdsa_verify_hex;
use crate::crypto::is_pubkey_hex;
use crate::crypto::pk_of_secret;
use crate::crypto::public_key_for;
use crate::crypto::sha256_hex;
use crate::transaction::Transaction;
use crate::transaction::TxStatus;
use crate::transaction::TxView;

verus! {

/// Why the chain refuses to build and admit a transfer.
#[derive(Clone, Copy, Debug, PartialEq, Eq, Structural)]
pub enum ChainError {
    /// The secret key is not a valid key encoding.
    InvalidSecretKey,
    /// An address does not parse as a public key encoding.
    InvalidAddress,
    /// The sender's balance does not cover the amount.
    InsufficientFunds,
    /// The message is not a 32-byte hex digest, so it cannot be signed.
    InvalidMessage,
}

/// The chain. It owns the one [`Account`] ledger; every transfer enters
/// through the settlement of a mined block.
#[derive(Debug)]
pub struct Blockchain {
    pub chain: Vec<Block>,
    pub difficulty: usize,
    pub pending_transactions: Vec<Transaction>,
    pub mining_reward: u64,
    pub block_capacity: usize,
    pub accounts: Account,
}

/// The mathematical image of a chain.
pub ghost struct ChainView {
    pub chain: Seq<BlockView>,
    pub difficulty: usize,
    pub pending_transactions: Seq<TxView>,
    pub mining_reward: u64,
    pub block_capacity: usize,
    pub accounts: Map<Seq<char>, u64>,
}

impl View for Blockchain {
    type V = ChainView;

    open spec fn view(&self) -> ChainView {
        ChainView {
            chain: self.chain@.map_values(|b: Block| b@),
            difficulty: self.difficulty,
            pending_transactions: self.pending_transactions@.map_values(|t: Transaction| t@),
            mining_reward: self.mining_reward,
            block_capacity: self.block_capacity,
            accounts: self.accounts@,
        }
    }
}

impl Clone for Blockchain {
    fn clone(&self) -> (r: Self)
        ensures
            r@ == self@,
            r.accounts.wf() == self.accounts.wf(),
    {
        let chain = self.chain.clone();
        let pending_transactions = self.pending_transactions.clone();
        proof {
            assert(chain@.map_values(|b: Block| b@) =~= self.chain@.map_values(|b: Block| b@));
            assert(pending_transactions@ =~= self.pending_transactions@);
        }
        Blockchain {
            chain,
            difficulty: self.difficulty,
            pending_transactions,
            mining_reward: self.mining_reward,
            block_capacity: self.block_capacity,
            accounts: self.accounts.clone(),
        }
    }
}

/// A freshly opened block: no transactions, no proof-of-work yet.
pub open spec fn spec_open_block(timestamp: u64, prev: Seq<char>, capacity: usize) -> BlockView {
    BlockView {
        timestamp,
        transactions: Seq::empty(),
        previous_hash: prev,
        hash: Seq::empty(),
        nonce: 0,
        block_capacity: capacity,
        mined: false,
    }
}

/// The chain after a transaction is appended to the open block; on an
/// empty chain the genesis block is created first and receives the
/// transaction.
pub open spec fn spec_chain_after_append(pre: ChainView, t: TxView, ts: u64) -> Seq<BlockView> {
    if pre.chain.len() == 0 {
        seq![
            BlockView {
                transactions: seq![t],
                ..spec_open_block(ts, "0"@, pre.block_capacity)
            },
        ]
    } else {
        let last = pre.chain.last();
        pre.chain.update(
            pre.chain.len() - 1,
            BlockView { transactions: last.transactions.push(t), ..last },
        )
    }
}

/// The full effect of admitting one transaction: append, attempt mining
/// under the capacity policy, and on a seal settle the block and open its
/// successor.
pub open spec fn spec_add_tx_post(pre: ChainView, post: ChainView, t: TxView, ts: u64) -> bool {
    let c2 = spec_chain_after_append(pre, t, ts);
    let n: int = c2.len() as int;
    let b2 = c2.last();
    &&& post.difficulty == pre.difficulty
    &&& post.pending_transactions == pre.pending_transactions
    &&& post.mining_reward == pre.mining_reward
    &&& post.block_capacity == pre.block_capacity
    &&& if !spec_mine_triggered(b2, false) {
        post.chain == c2 && post.accounts == pre.accounts
    } else {
        let mb = post.chain[n - 1];
        &&& n <= post.chain.len()
        &&& spec_mined_from(b2, mb, pre.accounts, pre.difficulty as nat)
        &&& if mb.mined {
            &&& post.accounts == spec_settle(pre.accounts, mb.transactions)
            &&& post.chain == c2.update(n - 1, mb).push(
                spec_open_block(ts, mb.hash, pre.block_capacity),
            )
        } else {
            &&& post.accounts == pre.accounts
            &&& post.chain == c2.update(n - 1, mb)
        }
    }
}

/// The balance of `a`, taking an unregistered address as holding nothing.
pub open spec fn spec_balance_or_zero(m: Map<Seq<char>, u64>, a: Seq<char>) -> u64 {
    if m.contains_key(a) {
        m[a]
    } else {
        0u64
    }
}

/// Which rejection, if any, a submitted transfer runs into, in the order
/// the checks are made: key material, addresses, funds, message digest.
pub open spec fn spec_submit_outcome(
    pre: ChainView,
    sk: Seq<char>,
    to: Seq<char>,
    amount: u64,
    msg: Seq<char>,
) -> Option<ChainError> {
    if pk_of_secret(sk) is None {
        Some(ChainError::InvalidSecretKey)
    } else if !is_pubkey_hex(to) || !is_pubkey_hex(pk_of_secret(sk)->0) {
        Some(ChainError::InvalidAddress)
    } else if amount > spec_balance_or_zero(pre.accounts, pk_of_secret(sk)->0) {
        Some(ChainError::InsufficientFunds)
    } else if ecdsa_sign_hex(msg, sk) is None {
        Some(ChainError::InvalidMessage)
    } else {
        None
    }
}

/// The signed transaction a submitted transfer builds: sender and
/// attached key are the public key derived from the secret key, and the
/// nonce records the open block's nonce as an ordering hint.
pub open spec fn spec_built_tx(
    pre: ChainView,
    sk: Seq<char>,
    to: Seq<char>,
    amount: u64,
    msg: Seq<char>,
) -> TxView {
    TxView {
        from_address: pk_of_secret(sk)->0,
        to_address: to,
        msg,
        amount,
        pub_key: pk_of_secret(sk)->0,
        signature: Some(ecdsa_sign_hex(msg, sk)->0),
        status: TxStatus::PENDING,
        nonce: if pre.chain.len() > 0 {
            pre.chain.last().nonce
        } else {
            0u32
        },
    }
}

/// The chain after registering sender and recipient, in that order, each
/// with a zero balance if absent.
pub open spec fn spec_with_initialized(pre: ChainView, pk: Seq<char>, to: Seq<char>) -> ChainView {
    let m1 = if pre.accounts.contains_key(pk) {
        pre.accounts
    } else {
        pre.accounts.insert(pk, 0u64)
    };
    let m2 = if m1.contains_key(to) {
        m1
    } else {
        m1.insert(to, 0u64)
    };
    ChainView { accounts: m2, ..pre }
}

/// Admitting a transaction preserves the chain's structural invariant.
pub proof fn lemma_add_tx_wf(pre: ChainView, post: ChainView, t: TxView, ts: u64, d: nat)
    requires
        spec_chain_wf(pre.chain, d),
        pre.chain.len() > 0 ==> !pre.chain.last().mined,
        d == pre.difficulty,
        d <= 64,
        spec_add_tx_post(pre, post, t, ts),
    ensures
        spec_chain_wf(post.chain, d),
        post.chain.len() > 0 ==> !post.chain.last().mined,
{
    let c2 = spec_chain_after_append(pre, t, ts);
    let n: int = c2.len() as int;
    let b2 = c2.last();
    // The appended block keeps its placeholder hash, so it is well formed,
    // and the rest of the chain is untouched.
    if pre.chain.len() > 0 {
        assert(block_wf(pre.chain.last(), d));
    }
    assert(b2.hash.len() == 0);
    assert(!b2.mined);
    assert(forall|i: int| 0 <= i < n - 1 ==> c2[i] == pre.chain[i]);
    assert forall|i: int| 0 <= i < n implies block_wf(#[trigger] c2[i], d) by {
        if i < n - 1 {
            assert(block_wf(pre.chain[i], d));
        }
    }
    assert forall|i: int| 1 <= i < n implies spec_chain_linked_at(c2, i) by {
        assert(spec_chain_linked_at(pre.chain, i));
    }
    if !spec_mine_triggered(b2, false) {
        assert(post.chain == c2);
    } else {
        let mb = post.chain[n - 1];
        let base = BlockView { transactions: crate::block::spec_resolve_txs(b2.transactions, pre.accounts), ..b2 };
        if mb.mined {
            assert(spec_block_data(mb) == spec_block_data(
                BlockView { nonce: mb.nonce, ..base },
            ));
            assert(block_wf(mb, d));
            let open = spec_open_block(ts, mb.hash, pre.block_capacity);
            assert(post.chain == c2.update(n - 1, mb).push(open));
            assert(post.chain.len() == n + 1);
            assert forall|i: int| 0 <= i < post.chain.len() implies block_wf(
                #[trigger] post.chain[i],
                d,
            ) by {
                if i < n - 1 {
                    assert(post.chain[i] == pre.chain[i]);
                    assert(block_wf(pre.chain[i], d));
                } else if i == n - 1 {
                    assert(post.chain[i] == mb);
                } else {
                    assert(post.chain[i] == open);
                }
            }
            assert forall|i: int| 1 <= i < post.chain.len() implies spec_chain_linked_at(
                post.chain,
                i,
            ) by {
                if i < n - 1 {
                    assert(spec_chain_linked_at(pre.chain, i));
                } else if i == n - 1 {
                    assert(spec_chain_linked_at(c2, i));
                    assert(mb.previous_hash == b2.previous_hash);
                } else {
                    assert(post.chain[i] == open);
                    assert(post.chain[i - 1] == mb);
                }
            }
            assert forall|i: int| 0 <= i < post.chain.len() - 1 implies (
            #[trigger] post.chain[i]).mined by {
                if i < n - 1 {
                    assert(pre.chain[i].mined);
                }
            }
        } else {
            assert(post.chain == c2.update(n - 1, mb));
            assert(mb.hash == b2.hash);
            assert forall|i: int| 0 <= i < post.chain.len() implies block_wf(
                #[trigger] post.chain[i],
                d,
            ) by {
                if i < n - 1 {
                    assert(post.chain[i] == pre.chain[i]);
                    assert(block_wf(pre.chain[i], d));
                }
            }
            assert forall|i: int| 1 <= i < post.chain.len() implies spec_chain_linked_at(
                post.chain,
                i,
            ) by {
                if i < n - 1 {
                    assert(spec_chain_linked_at(pre.chain, i));
                } else {
                    assert(spec_chain_linked_at(c2, i));
                    assert(mb.previous_hash == b2.previous_hash);
                }
            }
            assert forall|i: int| 0 <= i < post.chain.len() - 1 implies (
            #[trigger] post.chain[i]).mined by {
                assert(pre.chain[i].mined);
            }
        }
    }
}

/// What the chain walk checks of the block at `i`: a never-mined block
/// (empty hash) is skipped; otherwise the stored hash must be the digest
/// of the block's data and the block must point at its predecessor's hash.
pub open spec fn spec_block_checked(c: Seq<BlockView>, i: int) -> bool {
    c[i].hash.len() == 0 || (c[i].hash == sha256_hex(spec_block_data(c[i]))
        && c[i].previous_hash == c[i - 1].hash)
}

/// Chain integrity: every non-genesis block with a non-empty hash passes
/// the check above.
pub open spec fn spec_chain_valid(c: Seq<BlockView>) -> bool {
    forall|i: int| 1 <= i < c.len() ==> spec_block_checked(c, i)
}

/// The block at `i` points at its predecessor's stored hash.
pub open spec fn spec_chain_linked_at(c: Seq<BlockView>, i: int) -> bool {
    c[i].previous_hash == c[i - 1].hash
}

/// The structural invariant the chain maintains: every block meets the
/// block invariant at the chain's difficulty, every non-genesis block is
/// linked to its predecessor, and every block but the last is mined.
pub open spec fn spec_chain_wf(c: Seq<BlockView>, d: nat) -> bool {
    &&& forall|i: int| 0 <= i < c.len() ==> block_wf(#[trigger] c[i], d)
    &&& forall|i: int| 1 <= i < c.len() ==> spec_chain_linked_at(c, i)
    &&& forall|i: int| 0 <= i < c.len() - 1 ==> (#[trigger] c[i]).mined
}

/// A well-formed chain passes the integrity walk.
pub proof fn lemma_wf_chain_valid(c: Seq<BlockView>, d: nat)
    requires
        spec_chain_wf(c, d),
    ensures
        spec_chain_valid(c),
{
    assert forall|i: int| 1 <= i < c.len() implies spec_block_checked(c, i) by {
        assert(block_wf(c[i], d));
        assert(spec_chain_linked_at(c, i));
    }
}

/// Rewriting the previous-hash reference of any block with a non-empty
/// hash to anything but what it was breaks the integrity walk.
pub proof fn lemma_tampered_previous_hash_detected(c: Seq<BlockView>, i: int, p: Seq<char>)
    requires
        spec_chain_valid(c),
        1 <= i < c.len(),
        c[i].hash.len() != 0,
        p != c[i].previous_hash,
    ensures
        !spec_chain_valid(c.update(i, BlockView { previous_hash: p, ..c[i] })),
{
    let c2 = c.update(i, BlockView { previous_hash: p, ..c[i] });
    assert(spec_block_checked(c, i));
    assert(c2[i - 1] == c[i - 1]);
    assert(!spec_block_checked(c2, i));
}

/// The transactions of all blocks, in chain order.
pub open spec fn spec_chain_txs(c: Seq<BlockView>) -> Seq<TxView>
    decreases c.len(),
{
    if c.len() == 0 {
        Seq::empty()
    } else {
        spec_chain_txs(c.drop_last()) + c.last().transactions
    }
}

/// The ledger after settling every block in order.
pub open spec fn spec_settle_chain(m: Map<Seq<char>, u64>, c: Seq<BlockView>) -> Map<Seq<char>, u64>
    decreases c.len(),
{
    if c.len() == 0 {
        m
    } else {
        spec_settle(spec_settle_chain(m, c.drop_last()), c.last().transactions)
    }
}

impl Blockchain {
    /// The structural invariant of the whole chain: a well-formed ledger,
    /// a reachable difficulty, well-formed linked blocks, and an open
    /// (never-mined) block at the end for new transactions.
    pub open spec fn wf(&self) -> bool {
        &&& self.accounts.wf()
        &&& self.difficulty <= 64
        &&& spec_chain_wf(self@.chain, self.difficulty as nat)
        &&& self@.chain.len() > 0 ==> !self@.chain.last().mined
    }

    /// The first block of a fresh chain: zero previous-hash, no
    /// transactions, not yet mined.
    pub fn create_genesis_block(timestamp: u64, block_capacity: usize) -> (r: Block)
        ensures
            r@ == spec_open_block(timestamp, "0"@, block_capacity),
    {
        let r = Block {
            timestamp,
            transactions: Vec::new(),
            previous_hash: String::from_str("0"),
            hash: String::new(),
            nonce: 0,
            block_capacity,
            mined: false,
        };
        proof {
            assert(r@.transactions =~= Seq::<TxView>::empty());
        }
        r
    }

    /// The last block of the chain, if the chain holds one.
    pub fn get_latest_block(&self) -> (r: Option<&Block>)
        ensures
            r is Some <==> self@.chain.len() > 0,
            r matches Some(b) ==> b@ == self@.chain.last(),
    {
        let n: usize = self.chain.len();
        if n == 0 {
            None
        } else {
            Some(&self.chain[n - 1])
        }
    }

    /// The chain itself, for callers that hold it behind a shared handle.
    pub fn get_blockchain(&self) -> (r: &Self)
        ensures
            r == self,
    {
        self
    }

    /// Applies the settlement of `block` to this chain's ledger: every
    /// `SUCCESS` transaction whose transfer is still applicable moves its
    /// amount, in order; nothing else changes.
    pub fn execute_txn(&mut self, block: &Block)
        requires
            old(self).accounts.wf(),
        ensures
            final(self).accounts.wf(),
            final(self).accounts@ == spec_settle(old(self).accounts@, block@.transactions),
            final(self).chain == old(self).chain,
            final(self).difficulty == old(self).difficulty,
            final(self).pending_transactions == old(self).pending_transactions,
            final(self).mining_reward == old(self).mining_reward,
            final(self).block_capacity == old(self).block_capacity,
    {
        block.execute_txn(self);
    }

    /// Settles every block of `chain` against this chain's ledger, in
    /// order.
    pub fn execute_chain(&mut self, chain: &Vec<Block>)
        requires
            old(self).accounts.wf(),
        ensures
            final(self).accounts.wf(),
            final(self).accounts@ == spec_settle_chain(
                old(self).accounts@,
                chain@.map_values(|b: Block| b@),
            ),
            final(self).chain == old(self).chain,
            final(self).difficulty == old(self).difficulty,
            final(self).pending_transactions == old(self).pending_transactions,
            final(self).mining_reward == old(self).mining_reward,
            final(self).block_capacity == old(self).block_capacity,
    {
        let ghost cs = chain@.map_values(|b: Block| b@);
        let ghost m0 = old(self).accounts@;
        let n: usize = chain.len();
        let mut i: usize = 0;
        while i < n
            invariant
                i <= n,
                n == chain@.len(),
                cs == chain@.map_values(|b: Block| b@),
                m0 == old(self).accounts@,
                self.accounts.wf(),
                self.accounts@ == spec_settle_chain(m0, cs.take(i as int)),
                self.chain == old(self).chain,
                self.difficulty == old(self).difficulty,
                self.pending_transactions == old(self).pending_transactions,
                self.mining_reward == old(self).mining_reward,
                self.block_capacity == old(self).block_capacity,
            decreases n - i,
        {
            self.execute_txn(&chain[i]);
            proof {
                assert(cs.take(i + 1).drop_last() =~= cs.take(i as int));
                assert(cs.take(i + 1).last() == cs[i as int]);
            }
            i = i + 1;
        }
        proof {
            assert(cs.take(n as int) =~= cs);
        }
    }

    /// Walks the chain from its second block, verifying for every block
    /// with a non-empty hash that the stored hash is reproducible from the
    /// block's data and that the block links to its predecessor's hash.
    pub fn is_chain_valid(&self) -> (r: bool)
        ensures
            r == spec_chain_valid(self@.chain),
    {
        let n: usize = self.chain.len();
        let mut i: usize = 1;
        while i < n
            invariant
                1 <= i,
                i <= n || n < 1,
                n == self.chain@.len(),
                forall|j: int| 1 <= j < i ==> spec_block_checked(self@.chain, j),
            decreases n - i,
        {
            let block = &self.chain[i];
            if !block.hash.as_str().is_empty() {
                let recomputed = block.calculate_hash();
                if !(block.hash == recomputed) {
                    proof {
                        assert(!spec_block_checked(self@.chain, i as int));
                    }
                    return false;
                }
                if !(block.previous_hash == self.chain[i - 1].hash) {
                    proof {
                        assert(!spec_block_checked(self@.chain, i as int));
                    }
                    return false;
                }
            }
            i = i + 1;
        }
        true
    }

    /// A snapshot of every block, in chain order.
    pub fn get_all_blocks(&self) -> (r: Vec<Block>)
        ensures
            r@.map_values(|b: Block| b@) == self@.chain,
    {
        let r = self.chain.clone();
        proof {
            assert(r@.map_values(|b: Block| b@) =~= self@.chain);
        }
        r
    }

    /// A snapshot of every transaction of every block, in chain order.
    pub fn get_all_tx(&self) -> (r: Vec<Transaction>)
        ensures
            r@.map_values(|t: Transaction| t@) == spec_chain_txs(self@.chain),
    {
        let ghost cs = self@.chain;
        let mut txs: Vec<Transaction> = Vec::new();
        let n: usize = self.chain.len();
        let mut i: usize = 0;
        while i < n
            invariant
                i <= n,
                n == self.chain@.len(),
                cs == self@.chain,
                txs@.map_values(|t: Transaction| t@) == spec_chain_txs(cs.take(i as int)),
            decreases n - i,
        {
            let block = &self.chain[i];
            let m: usize = block.transactions.len();
            let mut j: usize = 0;
            while j < m
                invariant
                    j <= m,
                    i < n,
                    n == self.chain@.len(),
                    m == self.chain@[i as int].transactions@.len(),
                    block == &self.chain[i as int],
                    cs == self@.chain,
                    txs@.map_values(|t: Transaction| t@) == spec_chain_txs(cs.take(i as int))
                        + cs[i as int].transactions.take(j as int),
                decreases m - j,
            {
                let tx = block.transactions[j].clone();
                proof {
                    assert(tx@ == cs[i as int].transactions[j as int]);
                }
                let ghost prev = txs@;
                txs.push(tx);
                proof {
                    let target = spec_chain_txs(cs.take(i as int)) + cs[
                        i as int
                    ].transactions.take(j + 1);
                    assert(cs[i as int].transactions.take(j + 1) =~= cs[
                        i as int
                    ].transactions.take(j as int).push(cs[i as int].transactions[j as int]));
                    assert(txs@ == prev.push(tx));
                    assert(cs[i as int].transactions.len() == m);
                    assert(prev.map_values(|t: Transaction| t@).len() == prev.len());
                    assert(txs@.map_values(|t: Transaction| t@).len() == target.len());
                    assert forall|k: int|
                        0 <= k < txs@.len() implies txs@.map_values(|t: Transaction| t@)[k]
                        == target[k] by {
                        if k < prev.len() {
                            assert(txs@[k] == prev[k]);
                            assert(prev.map_values(|t: Transaction| t@)[k] == target[k]);
                        } else {
                            assert(txs@[k] == tx);
                        }
                    }
                    assert(txs@.map_values(|t: Transaction| t@) =~= target);
                }
                j = j + 1;
            }
            proof {
                assert(cs[i as int].transactions.take(m as int) =~= cs[i as int].transactions);
                assert(cs.take(i + 1).drop_last() =~= cs.take(i as int));
                assert(cs.take(i + 1).last() == cs[i as int]);
                assert(spec_chain_txs(cs.take(i + 1)) == spec_chain_txs(cs.take(i as int)) + cs[
                    i as int
                ].transactions);
            }
            i = i + 1;
        }
        proof {
            assert(cs.take(n as int) =~= cs);
        }
        txs
    }

    /// Settles `block` against the ledger and opens the successor block,
    /// linked to `block`'s hash.
    fn create_new_block(&mut self, block: &Block, timestamp: u64) -> (r: Block)
        requires
            old(self).accounts.wf(),
        ensures
            final(self).accounts.wf(),
            final(self).accounts@ == spec_settle(old(self).accounts@, block@.transactions),
            final(self).chain == old(self).chain,
            final(self).difficulty == old(self).difficulty,
            final(self).pending_transactions == old(self).pending_transactions,
            final(self).mining_reward == old(self).mining_reward,
            final(self).block_capacity == old(self).block_capacity,
            r@ == spec_open_block(timestamp, block@.hash, old(self).block_capacity),
    {
        block.execute_txn(self);
        let r = Block {
            timestamp,
            transactions: Vec::new(),
            previous_hash: block.hash.clone(),
            hash: String::new(),
            nonce: 0,
            block_capacity: self.block_capacity,
            mined: false,
        };
        proof {
            assert(r@.transactions =~= Seq::<TxView>::empty());
        }
        r
    }

    /// Admits a transaction: appends it to the open block (creating the
    /// genesis block first on an empty chain), then attempts mining under
    /// the capacity policy. If the block mined, its `SUCCESS` transfers
    /// are settled and a fresh open block is pushed, linked to the sealed
    /// block's hash. Returns the transaction as it stands in the chain:
    /// resolved if mining fired, still `PENDING` otherwise.
    pub fn add_transaction(&mut self, transaction: Transaction, timestamp: u64) -> (r: Result<
        Transaction,
        ChainError,
    >)
        requires
            old(self).wf(),
        ensures
            final(self).wf(),
            spec_chain_valid(final(self)@.chain),
            r is Ok,
            spec_add_tx_post(old(self)@, final(self)@, transaction@, timestamp),
            r matches Ok(rt) ==> rt@ == final(self)@.chain[spec_chain_after_append(
                old(self)@,
                transaction@,
                timestamp,
            ).len() - 1].transactions.last(),
    {
        let ghost pre = self@;
        let ghost c2 = spec_chain_after_append(pre, transaction@, timestamp);
        if self.chain.len() == 0 {
            let genesis = Self::create_genesis_block(timestamp, self.block_capacity);
            self.chain.push(genesis);
        }
        let mut block = self.chain.pop().unwrap();
        proof {
            assert(self@.chain =~= c2.drop_last());
        }
        block.transactions.push(transaction);
        proof {
            assert(block@.transactions =~= c2.last().transactions);
            assert(block@ == c2.last());
        }
        block.mine_block_with_capacity(self.difficulty, &self.accounts, false);
        proof {
            if spec_mine_triggered(c2.last(), false) {
                lemma_resolve_len(c2.last().transactions, pre.accounts);
            }
            assert(block@.transactions.len() > 0);
        }
        let result_tx = block.transactions[block.transactions.len() - 1].clone();
        proof {
            assert(result_tx@ == block@.transactions.last());
        }
        if block.mined {
            let new_block = self.create_new_block(&block, timestamp);
            let ghost mined_view = block@;
            self.chain.push(block);
            self.chain.push(new_block);
            proof {
                assert(self@.chain =~= c2.update(c2.len() - 1, mined_view).push(new_block@));
                assert(self@.chain[c2.len() - 1] == mined_view);
                assert(spec_add_tx_post(pre, self@, transaction@, timestamp));
                lemma_add_tx_wf(pre, self@, transaction@, timestamp, self.difficulty as nat);
                lemma_wf_chain_valid(self@.chain, self.difficulty as nat);
            }
            Ok(result_tx)
        } else {
            let ghost open_view = block@;
            self.chain.push(block);
            proof {
                assert(self@.chain =~= c2.update(c2.len() - 1, open_view));
                assert(self@.chain[c2.len() - 1] == open_view);
                if !spec_mine_triggered(c2.last(), false) {
                    assert(open_view == c2.last());
                    assert(c2.update(c2.len() - 1, open_view) =~= c2);
                }
                assert(spec_add_tx_post(pre, self@, transaction@, timestamp));
                lemma_add_tx_wf(pre, self@, transaction@, timestamp, self.difficulty as nat);
                lemma_wf_chain_valid(self@.chain, self.difficulty as nat);
            }
            Ok(result_tx)
        }
    }

    /// Builds, signs and admits a transfer from the holder of
    /// `secret_key` to `to_address`, rejecting malformed key material,
    /// malformed addresses, a balance that does not cover the amount, and
    /// a message that is not a signable 32-byte hex digest. A rejection
    /// leaves the chain untouched.
    pub fn submit_transaction(
        &mut self,
        secret_key: &str,
        to_address: String,
        amount: u64,
        msg: String,
        timestamp: u64,
    ) -> (r: Result<Transaction, ChainError>)
        requires
            old(self).wf(),
        ensures
            final(self).wf(),
            r is Err <==> spec_submit_outcome(
                old(self)@,
                secret_key@,
                to_address@,
                amount,
                msg@,
            ) is Some,
            r matches Err(e) ==> Some(e) == spec_submit_outcome(
                old(self)@,
                secret_key@,
                to_address@,
                amount,
                msg@,
            ) && *final(self) == *old(self),
            r is Ok ==> spec_add_tx_post(
                spec_with_initialized(old(self)@, pk_of_secret(secret_key@)->0, to_address@),
                final(self)@,
                spec_built_tx(old(self)@, secret_key@, to_address@, amount, msg@),
                timestamp,
            ),
            r matches Ok(rt) ==> rt@ == final(self)@.chain[spec_chain_after_append(
                spec_with_initialized(old(self)@, pk_of_secret(secret_key@)->0, to_address@),
                spec_built_tx(old(self)@, secret_key@, to_address@, amount, msg@),
                timestamp,
            ).len() - 1].transactions.last(),
            r is Ok ==> ecdsa_verify_hex(
                msg@,
                ecdsa_sign_hex(msg@, secret_key@)->0,
                pk_of_secret(secret_key@)->0,
            ),
    {
        let pk = match public_key_for(secret_key) {
            Some(pk) => pk,
            None => {
                return Err(ChainError::InvalidSecretKey);
            },
        };
        if !self.accounts.is_valid_address(&to_address) {
            return Err(ChainError::InvalidAddress);
        }
        if !self.accounts.is_valid_address(&pk) {
            return Err(ChainError::InvalidAddress);
        }
        let balance: u64 = match self.accounts.get_balance(&pk) {
            Some(b) => b,
            None => 0,
        };
        if amount > balance {
            return Err(ChainError::InsufficientFunds);
        }
        let nonce: u32 = match self.get_latest_block() {
            Some(b) => b.nonce,
            None => 0,
        };
        let mut tx = Transaction {
            from_address: pk.clone(),
            to_address,
            msg,
            amount,
            pub_key: pk,
            signature: None,
            status: TxStatus::PENDING,
            nonce,
        };
        if !tx.sign_transaction(secret_key) {
            return Err(ChainError::InvalidMessage);
        }
        self.accounts.initialize(&tx.from_address);
        self.accounts.initialize(&tx.to_address);
        proof {
            assert(self@ == spec_with_initialized(
                old(self)@,
                pk_of_secret(secret_key@)->0,
                tx.to_address@,
            ));
            assert(tx@ == spec_built_tx(
                old(self)@,
                secret_key@,
                tx.to_address@,
                amount,
                tx.msg@,
            ));
        }
        self.add_transaction(tx, timestamp)
    }

    /// The balance of a registered address, `None` for an unknown one.
    pub fn get_balance(&self, public_key: &String) -> (r: Option<u64>)
        requires
            self.accounts.wf(),
        ensures
            r == (if self@.accounts.contains_key(public_key@) {
                Some(self@.accounts[public_key@])
            } else {
                None::<u64>
            }),
    {
        self.accounts.get_balance(public_key)
    }
}

} // verus!
