//! Transactions, and the records from which they are read.

use vstd::prelude::*;
use crate::fixedpoint::{parse_amount, string_to_fixed_point};

verus! {

/// What a transaction asks for.
#[allow(non_camel_case_types)]
#[derive(Debug, Copy, Clone, PartialEq, Eq, Structural)]
pub enum TransactionType {
    /// Credit the client's account.
    DEPOSIT,
    /// Debit the client's account.
    WITHDRAWAL,
    /// Contest an earlier deposit: its funds are held.
    DISPUTE,
    /// Settle a dispute in the client's favour: the held funds are released.
    RESOLVE,
    /// Settle a dispute by reversing the deposit: the account is frozen.
    CHARGEBACK,
}

/// One transaction, without its identifier. The amount is counted in
/// ten-thousandths; only deposits and withdrawals look at it.
#[derive(Debug, Copy, Clone)]
pub struct Transaction {
    pub kind: TransactionType,
    pub client: u16,
    pub amount: i64,
}

/// A transaction with the identifier it came under.
pub type TransactionIdTuple = (u32, Transaction);

/// A transaction as it is read from a record: the amount is still text.
#[derive(Debug)]
pub struct DeserializedTransaction {
    pub kind: TransactionType,
    pub client: u16,
    pub tx: u32,
    pub amount: String,
}

impl DeserializedTransaction {
    /// The transaction that this record stands for, where its amount is one.
    pub open spec fn transaction(self) -> Result<TransactionIdTuple, Seq<char>> {
        match parse_amount(self.amount@) {
            Ok(amount) => Ok(
                (self.tx, Transaction { kind: self.kind, client: self.client, amount: amount as i64 }),
            ),
            Err(e) => Err(e.text()),
        }
    }

    /// Reads the record's amount and makes the transaction, under the
    /// record's identifier. A record whose amount cannot be read is refused,
    /// with the sentence that says why.
    pub fn into_transaction(self) -> (result: Result<TransactionIdTuple, &'static str>)
        ensures
            match self.transaction() {
                Ok(t) => result == Ok::<TransactionIdTuple, &'static str>(t),
                Err(text) => result is Err && result->Err_0@ == text,
            },
    {
        match string_to_fixed_point(self.amount.as_str()) {
            Ok(amount) => Ok((self.tx, Transaction { kind: self.kind, client: self.client, amount })),
            Err(message) => Err(message),
        }
    }
}

} // verus!
