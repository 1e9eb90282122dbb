//! Signed transfer intents and their lifecycle.
//!
//! A transaction is created `PENDING`, signed once, admitted into the open
//! block, and resolved to `SUCCESS` or `FAILED` exactly once, when the
//! block holding it is mined; it is never mutated afterwards.

use vstd::prelude::*;
use crate::account::Account;
use crate::crypto::ecdsa_sign;
use crate::crypto::ecdsa_sign_hex;
use crate::crypto::ecdsa_verify;
use crate::crypto::ecdsa_verify_hex;
use crate::crypto::pk_of_secret;
use crate::numstr::spec_dec_str;
use crate::numstr::u64_to_string;

verus! {

/// The lifecycle of a transaction: `PENDING` until the block holding it is
/// mined, then `SUCCESS` or `FAILED`, terminally.
#[allow(non_camel_case_types)]
#[derive(Clone, Copy, Debug, PartialEq, Eq, Structural)]
pub enum TxStatus {
    PENDING,
    FAILED,
    SUCCESS,
}

/// A signed transfer intent. Addresses and the public key are hex string
/// encodings; `msg` is the hex SHA-256 digest that is signed; `nonce`
/// records the open block's nonce at creation time, an ordering hint only.
#[derive(Debug)]
pub struct Transaction {
    pub from_address: String,
    pub to_address: String,
    pub msg: String,
    pub amount: u64,
    pub pub_key: String,
    pub signature: Option<String>,
    pub status: TxStatus,
    pub nonce: u32,
}

/// The mathematical image of a transaction.
pub ghost struct TxView {
    pub from_address: Seq<char>,
    pub to_address: Seq<char>,
    pub msg: Seq<char>,
    pub amount: u64,
    pub pub_key: Seq<char>,
    pub signature: Option<Seq<char>>,
    pub status: TxStatus,
    pub nonce: u32,
}

impl View for Transaction {
    type V = TxView;

    open spec fn view(&self) -> TxView {
        TxView {
            from_address: self.from_address@,
            to_address: self.to_address@,
            msg: self.msg@,
            amount: self.amount,
            pub_key: self.pub_key@,
            signature: match self.signature {
                Some(s) => Some(s@),
                None => None,
            },
            status: self.status,
            nonce: self.nonce,
        }
    }
}

impl Clone for Transaction {
    fn clone(&self) -> (r: Self)
        ensures
            r == *self,
    {
        Transaction {
            from_address: self.from_address.clone(),
            to_address: self.to_address.clone(),
            msg: self.msg.clone(),
            amount: self.amount,
            pub_key: self.pub_key.clone(),
            signature: match &self.signature {
                Some(s) => Some(s.clone()),
                None => None,
            },
            status: self.status,
            nonce: self.nonce,
        }
    }
}

/// `t` with its signature replaced.
pub open spec fn with_signature(t: TxView, sig: Seq<char>) -> TxView {
    TxView { signature: Some(sig), ..t }
}

/// `t` with its status replaced.
pub open spec fn with_status(t: TxView, status: TxStatus) -> TxView {
    TxView { status, ..t }
}

/// A valid transaction against ledger state `m`: it carries a signature,
/// its sender is registered with a balance covering the amount, and the
/// signature verifies for the message digest under the attached key.
pub open spec fn spec_tx_valid(t: TxView, m: Map<Seq<char>, u64>) -> bool {
    &&& t.signature is Some
    &&& m.contains_key(t.from_address)
    &&& m[t.from_address] >= t.amount
    &&& ecdsa_verify_hex(t.msg, t.signature->0, t.pub_key)
}

impl Transaction {
    /// Signs the transaction's message digest with the given hex secret
    /// key, attaching the signature; reports whether signing succeeded
    /// (it does not when the key does not parse or `msg` is not a 32-byte
    /// hex digest, and the transaction is then left unchanged). Signing a
    /// transaction twice silently overwrites the first signature.
    ///
    /// On success the attached signature is the one that verification
    /// accepts for this digest under the public key derived from
    /// `secret_key`.
    pub fn sign_transaction(&mut self, secret_key: &str) -> (ok: bool)
        ensures
            ok == (ecdsa_sign_hex(old(self).msg@, secret_key@) is Some),
            !ok ==> *final(self) == *old(self),
            ok ==> final(self)@ == with_signature(
                old(self)@,
                ecdsa_sign_hex(old(self).msg@, secret_key@)->0,
            ),
            ok ==> pk_of_secret(secret_key@) is Some && ecdsa_verify_hex(
                old(self).msg@,
                ecdsa_sign_hex(old(self).msg@, secret_key@)->0,
                pk_of_secret(secret_key@)->0,
            ),
    {
        match ecdsa_sign(self.msg.as_str(), secret_key) {
            Some(sig) => {
                self.signature = Some(sig);
                true
            },
            None => false,
        }
    }

    /// Whether the transaction is valid against the current ledger state:
    /// funds are checked first (the cheap reject), then the signature.
    pub fn is_valid(&self, account: &Account) -> (r: bool)
        requires
            account.wf(),
        ensures
            r == spec_tx_valid(self@, account@),
    {
        let balance: u64 = match account.get_balance(&self.from_address) {
            Some(b) => b,
            None => {
                return false;
            },
        };
        if balance < self.amount {
            return false;
        }
        match &self.signature {
            Some(sig) => ecdsa_verify(self.msg.as_str(), sig.as_str(), self.pub_key.as_str()),
            None => false,
        }
    }

    /// The canonical rendering of the transaction inside the string a
    /// block hashes; every field takes part, so a sealed block commits to
    /// the transactions as resolved.
    pub fn data_string(&self) -> (r: String)
        ensures
            r@ == spec_tx_str(self@),
    {
        let mut r = self.from_address.clone();
        r.append("|");
        r.append(self.to_address.as_str());
        r.append("|");
        r.append(self.msg.as_str());
        r.append("|");
        let amount = u64_to_string(self.amount);
        r.append(amount.as_str());
        r.append("|");
        r.append(self.pub_key.as_str());
        r.append("|");
        match &self.signature {
            Some(sig) => r.append(sig.as_str()),
            None => (),
        }
        r.append("|");
        r.append(status_str(self.status));
        r.append("|");
        let nonce = u64_to_string(self.nonce as u64);
        r.append(nonce.as_str());
        r.append(";");
        proof {
            assert(r@ =~= spec_tx_str(self@));
        }
        r
    }
}

/// The rendering of a status inside the hashed string.
pub open spec fn spec_status_str(s: TxStatus) -> Seq<char> {
    match s {
        TxStatus::PENDING => "P"@,
        TxStatus::FAILED => "F"@,
        TxStatus::SUCCESS => "S"@,
    }
}

fn status_str(s: TxStatus) -> (r: &'static str)
    ensures
        r@ == spec_status_str(s),
{
    match s {
        TxStatus::PENDING => "P",
        TxStatus::FAILED => "F",
        TxStatus::SUCCESS => "S",
    }
}

/// The rendering of a transaction inside the string a block hashes.
pub open spec fn spec_tx_str(t: TxView) -> Seq<char> {
    t.from_address + "|"@ + t.to_address + "|"@ + t.msg + "|"@ + spec_dec_str(t.amount as nat)
        + "|"@ + t.pub_key + "|"@ + (match t.signature {
        Some(s) => s,
        None => Seq::<char>::empty(),
    }) + "|"@ + spec_status_str(t.status) + "|"@ + spec_dec_str(t.nonce as nat) + ";"@
}

/// Every transaction that carries a signature accepted by verification
/// for its digest under its attached key, and whose sender holds funds
/// covering its amount, is valid; with [`Transaction::sign_transaction`]'s
/// contract this yields validity of every freshly signed transaction with
/// a sufficient sender balance whose attached key matches the signing key.
pub proof fn lemma_signed_tx_valid(t: TxView, m: Map<Seq<char>, u64>)
    requires
        t.signature is Some,
        ecdsa_verify_hex(t.msg, t.signature->0, t.pub_key),
        m.contains_key(t.from_address),
        m[t.from_address] >= t.amount,
    ensures
        spec_tx_valid(t, m),
{
}

} // verus!
