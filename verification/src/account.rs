//! The account ledger: a flat mapping from address (the string encoding of
//! a public key) to a non-negative balance.
//!
//! Balances move exclusively through [`Account::transfer`], which the chain
//! calls while settling a mined block; addresses must be registered with
//! [`Account::initialize`] before they are queried or take part in a
//! transfer.

use vstd::prelude::*;
use vstd::pervasive::VecAdditionalExecFns;
use crate::crypto::is_pubkey_hex;
use crate::crypto::parse_public_key;

verus! {

/// One ledger entry: an address and its balance.
#[derive(Debug)]
pub struct AccountEntry {
    pub address: String,
    pub balance: u64,
}

/// The ledger, stored as a list of entries with pairwise distinct
/// addresses; it denotes the mapping [`entries_map`] of its entries.
#[derive(Debug)]
pub struct Account {
    pub entries: Vec<AccountEntry>,
}

/// Pairwise distinct addresses.
pub open spec fn distinct_addresses(s: Seq<AccountEntry>) -> bool {
    forall|i: int, j: int|
        0 <= i < j < s.len() ==> s[i].address@ != s[j].address@
}

/// The mapping that a list of entries denotes.
pub open spec fn entries_map(s: Seq<AccountEntry>) -> Map<Seq<char>, u64>
    decreases s.len(),
{
    if s.len() == 0 {
        Map::empty()
    } else {
        entries_map(s.drop_last()).insert(s.last().address@, s.last().balance)
    }
}

impl View for Account {
    type V = Map<Seq<char>, u64>;

    open spec fn view(&self) -> Map<Seq<char>, u64> {
        entries_map(self.entries@)
    }
}

impl Clone for AccountEntry {
    fn clone(&self) -> (r: Self)
        ensures
            r == *self,
    {
        AccountEntry { address: self.address.clone(), balance: self.balance }
    }
}

impl Clone for Account {
    fn clone(&self) -> (r: Self)
        ensures
            r.entries@ == self.entries@,
            r@ == self@,
            r.wf() == self.wf(),
    {
        let entries = self.entries.clone();
        proof {
            assert(entries@ =~= self.entries@);
        }
        Account { entries }
    }
}

/// An address may be registered with a key on the map, dropped from it, or
/// rebound to a balance; the denoted mapping changes accordingly.
proof fn lemma_entries_map_contains(s: Seq<AccountEntry>)
    ensures
        forall|k: Seq<char>|
            entries_map(s).contains_key(k) <==> exists|i: int|
                0 <= i < s.len() && s[i].address@ == k,
    decreases s.len(),
{
    if s.len() > 0 {
        lemma_entries_map_contains(s.drop_last());
        assert forall|k: Seq<char>| entries_map(s).contains_key(k) implies exists|i: int|
            0 <= i < s.len() && s[i].address@ == k by {
            if k == s.last().address@ {
                assert(s[s.len() - 1].address@ == k);
            } else {
                assert(entries_map(s.drop_last()).contains_key(k));
                let i = choose|i: int|
                    0 <= i < s.drop_last().len() && s.drop_last()[i].address@ == k;
                assert(s.drop_last()[i] == s[i]);
                assert(s[i].address@ == k);
            }
        }
        assert forall|k: Seq<char>|
            (exists|i: int| 0 <= i < s.len() && s[i].address@ == k) implies entries_map(
            s,
        ).contains_key(k) by {
            let i = choose|i: int| 0 <= i < s.len() && s[i].address@ == k;
            if i < s.len() - 1 {
                assert(s.drop_last()[i].address@ == k);
                assert(entries_map(s.drop_last()).contains_key(k));
            } else {
                assert(k == s.last().address@);
            }
        }
    }
}

/// With distinct addresses, every entry is bound in the denoted mapping.
proof fn lemma_entries_map_index(s: Seq<AccountEntry>, i: int)
    requires
        distinct_addresses(s),
        0 <= i < s.len(),
    ensures
        entries_map(s).contains_key(s[i].address@),
        entries_map(s)[s[i].address@] == s[i].balance,
    decreases s.len(),
{
    if i < s.len() - 1 {
        assert(distinct_addresses(s.drop_last()));
        lemma_entries_map_index(s.drop_last(), i);
        assert(s[i].address@ != s.last().address@);
    }
}

/// Replacing the entry at `i` by one with the same address rebinds just
/// that address in the denoted mapping.
proof fn lemma_entries_map_update(s: Seq<AccountEntry>, i: int, e: AccountEntry)
    requires
        distinct_addresses(s),
        0 <= i < s.len(),
        e.address@ == s[i].address@,
    ensures
        entries_map(s.update(i, e)) == entries_map(s).insert(e.address@, e.balance),
        distinct_addresses(s.update(i, e)),
    decreases s.len(),
{
    let t = s.update(i, e);
    if i == s.len() - 1 {
        assert(t.drop_last() =~= s.drop_last());
        assert(entries_map(t) =~= entries_map(s).insert(e.address@, e.balance));
    } else {
        assert(distinct_addresses(s.drop_last()));
        lemma_entries_map_update(s.drop_last(), i, e);
        assert(t.drop_last() =~= s.drop_last().update(i, e));
        assert(t.last() == s.last());
        assert(s[i].address@ != s.last().address@);
        assert(entries_map(t) =~= entries_map(s).insert(e.address@, e.balance));
    }
}

impl Account {
    /// The structural invariant: no address occurs twice.
    pub open spec fn wf(&self) -> bool {
        distinct_addresses(self.entries@)
    }

    /// An empty ledger.
    pub fn new() -> (r: Account)
        ensures
            r@ == Map::<Seq<char>, u64>::empty(),
            r.wf(),
    {
        Account { entries: Vec::new() }
    }

    /// The position of an address in the entry list, if it is registered.
    fn find_index(&self, address: &String) -> (r: Option<usize>)
        ensures
            r matches Some(i) ==> i < self.entries@.len() && self.entries@[i as int].address@
                == address@,
            r is None ==> forall|j: int|
                0 <= j < self.entries@.len() ==> self.entries@[j].address@ != address@,
    {
        let n: usize = self.entries.len();
        let mut i: usize = 0;
        while i < n
            invariant
                i <= n,
                n == self.entries@.len(),
                forall|j: int| 0 <= j < i ==> self.entries@[j].address@ != address@,
            decreases n - i,
        {
            if self.entries[i].address == *address {
                return Some(i);
            }
            i = i + 1;
        }
        None
    }

    /// Registers `address` with a zero balance if it is absent; a second
    /// registration is a no-op and never resets an existing balance.
    pub fn initialize(&mut self, address: &String)
        requires
            old(self).wf(),
        ensures
            final(self).wf(),
            final(self)@ == (if old(self)@.contains_key(address@) {
                old(self)@
            } else {
                old(self)@.insert(address@, 0u64)
            }),
            final(self)@.contains_key(address@),
    {
        proof {
            lemma_entries_map_contains(self.entries@);
        }
        match self.find_index(address) {
            Some(i) => {
                proof {
                    lemma_entries_map_index(self.entries@, i as int);
                }
            },
            None => {
                let ghost s = self.entries@;
                self.entries.push(AccountEntry { address: address.clone(), balance: 0 });
                proof {
                    assert(self.entries@.drop_last() =~= s);
                    assert(distinct_addresses(self.entries@));
                }
            },
        }
    }

    /// The balance bound to `address`, or `None` for an address that was
    /// never registered.
    pub fn get_balance(&self, address: &String) -> (r: Option<u64>)
        requires
            self.wf(),
        ensures
            r == (if self@.contains_key(address@) {
                Some(self@[address@])
            } else {
                None::<u64>
            }),
    {
        proof {
            lemma_entries_map_contains(self.entries@);
        }
        match self.find_index(address) {
            Some(i) => {
                proof {
                    lemma_entries_map_index(self.entries@, i as int);
                }
                Some(self.entries[i].balance)
            },
            None => None,
        }
    }

    /// Adds `amount` to the balance of a registered address; reports
    /// whether the deposit was applied (it is not when the address is
    /// unregistered or the balance would overflow).
    pub fn credit(&mut self, address: &String, amount: u64) -> (ok: bool)
        requires
            old(self).wf(),
        ensures
            final(self).wf(),
            ok == (old(self)@.contains_key(address@) && old(self)@[address@] + amount
                <= u64::MAX),
            ok ==> final(self)@ == old(self)@.insert(
                address@,
                (old(self)@[address@] + amount) as u64,
            ),
            !ok ==> final(self)@ == old(self)@,
    {
        proof {
            lemma_entries_map_contains(self.entries@);
        }
        match self.find_index(address) {
            Some(i) => {
                proof {
                    lemma_entries_map_index(self.entries@, i as int);
                }
                let balance: u64 = self.entries[i].balance;
                if amount <= u64::MAX - balance {
                    let addr = self.entries[i].address.clone();
                    let ghost s = self.entries@;
                    self.entries.set(i, AccountEntry { address: addr, balance: balance + amount });
                    proof {
                        lemma_entries_map_update(s, i as int, self.entries@[i as int]);
                    }
                    true
                } else {
                    false
                }
            },
            None => false,
        }
    }

    /// Whether `address` parses as a public key encoding; structural only,
    /// independent of registration.
    pub fn is_valid_address(&self, address: &String) -> (r: bool)
        ensures
            r == is_pubkey_hex(address@),
    {
        parse_public_key(address.as_str())
    }

    /// Moves `amount` from `from` to `to`, both balances changing as one
    /// unit. The caller must have validated the transfer: both addresses
    /// registered, sufficient funds, no overflow of the recipient.
    pub fn transfer(&mut self, from: &String, to: &String, amount: u64)
        requires
            old(self).wf(),
            transfer_applicable(old(self)@, from@, to@, amount),
        ensures
            final(self).wf(),
            final(self)@ == spec_transfer(old(self)@, from@, to@, amount),
    {
        proof {
            lemma_entries_map_contains(self.entries@);
        }
        if *from == *to {
            return ;
        }
        let i = match self.find_index(from) {
            Some(i) => i,
            None => {
                proof {
                    assert(false);
                }
                return ;
            },
        };
        let j = match self.find_index(to) {
            Some(j) => j,
            None => {
                proof {
                    assert(false);
                }
                return ;
            },
        };
        proof {
            lemma_entries_map_index(self.entries@, i as int);
            lemma_entries_map_index(self.entries@, j as int);
        }
        let from_balance: u64 = self.entries[i].balance;
        let from_addr = self.entries[i].address.clone();
        let ghost s0 = self.entries@;
        self.entries.set(i, AccountEntry { address: from_addr, balance: from_balance - amount });
        proof {
            lemma_entries_map_update(s0, i as int, self.entries@[i as int]);
            lemma_entries_map_index(self.entries@, j as int);
        }
        let to_balance: u64 = self.entries[j].balance;
        let to_addr = self.entries[j].address.clone();
        let ghost s1 = self.entries@;
        self.entries.set(j, AccountEntry { address: to_addr, balance: to_balance + amount });
        proof {
            lemma_entries_map_update(s1, j as int, self.entries@[j as int]);
            assert(final(self)@ =~= spec_transfer(old(self)@, from@, to@, amount));
        }
    }
}

/// Whether a transfer can be applied to the mapping `m`: both addresses
/// registered, the sender covers `amount`, and the recipient's balance
/// does not overflow.
pub open spec fn transfer_applicable(
    m: Map<Seq<char>, u64>,
    from: Seq<char>,
    to: Seq<char>,
    amount: u64,
) -> bool {
    &&& m.contains_key(from)
    &&& m.contains_key(to)
    &&& m[from] >= amount
    &&& (from == to || m[to] + amount <= u64::MAX)
}

/// The mapping after moving `amount` from `from` to `to`; a transfer to
/// oneself moves nothing.
pub open spec fn spec_transfer(
    m: Map<Seq<char>, u64>,
    from: Seq<char>,
    to: Seq<char>,
    amount: u64,
) -> Map<Seq<char>, u64> {
    if from == to {
        m
    } else {
        m.insert(from, (m[from] - amount) as u64).insert(to, (m[to] + amount) as u64)
    }
}

/// A transfer followed by the opposite transfer of the same amount
/// restores every balance.
pub proof fn lemma_transfer_round_trip(
    m: Map<Seq<char>, u64>,
    a: Seq<char>,
    b: Seq<char>,
    x: u64,
)
    requires
        transfer_applicable(m, a, b, x),
    ensures
        transfer_applicable(spec_transfer(m, a, b, x), b, a, x),
        spec_transfer(spec_transfer(m, a, b, x), b, a, x) == m,
{
    if a != b {
        let m1 = spec_transfer(m, a, b, x);
        assert(spec_transfer(m1, b, a, x) =~= m);
    }
}

} // verus!
