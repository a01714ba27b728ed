use vstd::prelude::*;
use vstd::string::StringExecFns;
use vstd::utf8::encode_utf8;

use crate::amount::{decimal_render, render_amount, Amount};
use crate::clock::get_timestamp;
use crate::errors::LedgerError;
use crate::hashing::{generate_sha256_hash, spec_sha256_hex};
use crate::numerals::{dec_str, u64_to_string};

verus! {

/// The mathematical content of a transaction: every field as a plain value.
#[verifier::ext_equal]
pub ghost struct TxModel {
    pub txid: Seq<char>,
    pub amount: Amount,
    pub from: Seq<char>,
    pub to: Seq<char>,
    pub timestamp: u64,
}

/// An immutable record of a value transfer, self-identified by the hash of
/// its own fields.
#[derive(Debug)]
pub struct Transaction {
    pub txid: String,
    pub amount: Amount,
    pub from: String,
    pub to: String,
    pub timestamp: u64,
}

impl View for Transaction {
    type V = TxModel;

    open spec fn view(&self) -> TxModel {
        TxModel {
            txid: self.txid@,
            amount: self.amount,
            from: self.from@,
            to: self.to@,
            timestamp: self.timestamp,
        }
    }
}

/// The text whose hash identifies a transaction: amount, sender, receiver and
/// creation time, concatenated in that order.
pub open spec fn tx_preimage(amount: Amount, from: Seq<char>, to: Seq<char>, timestamp: u64) -> Seq<
    char,
> {
    decimal_render(amount.mantissa, amount.scale) + from + to + dec_str(timestamp as int)
}

/// The id a transaction with the given fields must carry.
pub open spec fn spec_txid(amount: Amount, from: Seq<char>, to: Seq<char>, timestamp: u64) -> Seq<
    char,
> {
    spec_sha256_hex(encode_utf8(tx_preimage(amount, from, to, timestamp)))
}

impl Transaction {
    /// A transaction is well formed when its amount is representable and its
    /// id is the hash of its own fields.
    pub open spec fn wf(self) -> bool {
        &&& self.amount.valid()
        &&& self@.txid == spec_txid(self.amount, self@.from, self@.to, self.timestamp)
    }

    /// Builds the transaction created at the given instant; its id is the
    /// hash of amount, sender, receiver and creation time.
    pub fn new_at(amount: Amount, from: String, to: String, timestamp: u64) -> (r: Transaction)
        requires
            amount.valid(),
        ensures
            r@ == (TxModel {
                txid: spec_txid(amount, from@, to@, timestamp),
                amount,
                from: from@,
                to: to@,
                timestamp,
            }),
            r.wf(),
    {
        let mut preimage = render_amount(&amount);
        preimage.append(from.as_str());
        preimage.append(to.as_str());
        let ts = u64_to_string(timestamp);
        preimage.append(ts.as_str());
        let txid = generate_sha256_hash(preimage);
        Transaction { txid, amount, from, to, timestamp }
    }

    /// Captures the current wall-clock time as the creation instant and
    /// builds the transaction; every field but the timestamp is pinned.
    pub fn new(amount: Amount, from: String, to: String) -> (r: Transaction)
        requires
            amount.valid(),
        ensures
            r.amount == amount,
            r@.from == from@,
            r@.to == to@,
            r@.txid == spec_txid(amount, from@, to@, r.timestamp),
            r.wf(),
    {
        let timestamp = get_timestamp();
        Transaction::new_at(amount, from, to, timestamp)
    }

    /// Builds a transaction from an externally supplied request; a missing
    /// field is rejected with `BadRequest`, exactly then.
    pub fn from_payload(amount: Option<Amount>, from: Option<String>, to: Option<String>) -> (r:
        Result<Transaction, LedgerError>)
        requires
            amount is Some ==> amount->0.valid(),
        ensures
            match r {
                Ok(t) => {
                    &&& amount is Some && from is Some && to is Some
                    &&& t.amount == amount->0
                    &&& t@.from == from->0@
                    &&& t@.to == to->0@
                    &&& t@.txid == spec_txid(t.amount, t@.from, t@.to, t.timestamp)
                    &&& t.wf()
                },
                Err(e) => {
                    &&& e == LedgerError::BadRequest
                    &&& (amount is None || from is None || to is None)
                },
            },
    {
        match (amount, from, to) {
            (Some(a), Some(f), Some(t)) => Ok(Transaction::new(a, f, t)),
            _ => Err(LedgerError::BadRequest),
        }
    }

    /// A field-for-field copy.
    pub fn duplicate(&self) -> (r: Transaction)
        ensures
            r@ == self@,
    {
        Transaction {
            txid: self.txid.clone(),
            amount: self.amount,
            from: self.from.clone(),
            to: self.to.clone(),
            timestamp: self.timestamp,
        }
    }
}

} // verus!
