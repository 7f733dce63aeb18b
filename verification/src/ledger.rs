//! The rules of the ledger, as mathematics.
//!
//! A [`Ledger`] is what a bank knows: the balances of its clients, the
//! deposits it has seen, and the deposits that are under dispute. The
//! function [`Ledger::apply`] says what each transaction makes of it, and
//! [`Ledger::outcome`] whether the transaction was taken or why not.

use vstd::prelude::*;
use crate::transactions::{Transaction, TransactionType};

verus! {

/// The funds of one client, counted in ten-thousandths.
pub struct Balance {
    /// What the client can withdraw.
    pub available: int,
    /// What is held back while deposits are under dispute.
    pub held: int,
    /// Whether a chargeback has frozen the account.
    pub locked: bool,
}

impl Balance {
    /// The balance of a client that nothing has happened to.
    pub open spec fn zero() -> Balance {
        Balance { available: 0, held: 0, locked: false }
    }

    /// All the client's funds, available or held.
    pub open spec fn total(self) -> int {
        self.available + self.held
    }

    /// Whether an `i64` can hold each of the two amounts.
    pub open spec fn representable(self) -> bool {
        &&& i64::MIN <= self.available <= i64::MAX
        &&& i64::MIN <= self.held <= i64::MAX
    }
}

/// What is kept of a deposit: whose it was, and how much.
#[derive(Debug, Copy, Clone)]
pub struct DepositRecord {
    pub client: u16,
    pub amount: i64,
}

/// What became of a transaction.
#[derive(Debug, Copy, Clone, PartialEq, Eq, Structural)]
pub enum Outcome {
    /// It was taken, and the ledger changed as its kind says.
    Applied,
    /// A withdrawal from a frozen account.
    FrozenAccount,
    /// A withdrawal of more than is available.
    InsufficientFunds,
    /// A dispute of a deposit that is under dispute already.
    DuplicateDispute,
    /// A dispute of something that is no deposit.
    UnknownTransaction,
    /// A resolve of a deposit that is not under dispute.
    UndisputedResolve,
    /// A chargeback of a deposit that is not under dispute.
    UndisputedChargeback,
}

impl Outcome {
    /// The warning that a refused transaction calls for; none for one that
    /// was taken.
    pub open spec fn warning_text(self) -> Option<Seq<char>> {
        match self {
            Outcome::Applied => None,
            Outcome::FrozenAccount => Some("Error: Withdrawal attempted on frozen account"@),
            Outcome::InsufficientFunds => Some("Error: withdrawal bigger than available funds"@),
            Outcome::DuplicateDispute => Some("Warning: Dropped duplicate dispute claim"@),
            Outcome::UnknownTransaction => Some("Warning: Dropped dispute with invalid tx id"@),
            Outcome::UndisputedResolve => Some(
                "Warning: Dropped dispute resolve with undisputed tx"@,
            ),
            Outcome::UndisputedChargeback => Some(
                "Warning: Dropped chargeback with undisputed tx"@,
            ),
        }
    }

    /// The warning that a refused transaction calls for; none for one that
    /// was taken.
    pub fn warning(self) -> (warning: Option<&'static str>)
        ensures
            warning is None <==> self == Outcome::Applied,
            match warning {
                Some(text) => self.warning_text() == Some(text@),
                None => self.warning_text() is None,
            },
    {
        match self {
            Outcome::Applied => None,
            Outcome::FrozenAccount => Some("Error: Withdrawal attempted on frozen account"),
            Outcome::InsufficientFunds => Some("Error: withdrawal bigger than available funds"),
            Outcome::DuplicateDispute => Some("Warning: Dropped duplicate dispute claim"),
            Outcome::UnknownTransaction => Some("Warning: Dropped dispute with invalid tx id"),
            Outcome::UndisputedResolve => Some(
                "Warning: Dropped dispute resolve with undisputed tx",
            ),
            Outcome::UndisputedChargeback => Some("Warning: Dropped chargeback with undisputed tx"),
        }
    }
}

/// The state of the bank.
pub struct Ledger {
    /// The balance of every client that a transaction has named.
    pub accounts: Map<u16, Balance>,
    /// Every deposit, under its transaction's identifier.
    pub deposits: Map<u32, DepositRecord>,
    /// The identifiers of the deposits under dispute.
    pub disputes: Set<u32>,
}

impl Ledger {
    /// The ledger before any transaction.
    pub open spec fn empty() -> Ledger {
        Ledger { accounts: Map::empty(), deposits: Map::empty(), disputes: Set::empty() }
    }

    /// The balance of `client`: zero where the ledger has no account for it.
    pub open spec fn balance(self, client: u16) -> Balance {
        if self.accounts.contains_key(client) {
            self.accounts[client]
        } else {
            Balance::zero()
        }
    }

    /// The ledger with `balance` as the balance of `client`.
    pub open spec fn with_balance(self, client: u16, balance: Balance) -> Ledger {
        Ledger { accounts: self.accounts.insert(client, balance), ..self }
    }

    /// The ledger with an account for `client`, a new one where it had none.
    pub open spec fn with_account(self, client: u16) -> Ledger {
        self.with_balance(client, self.balance(client))
    }

    /// What holds of every ledger that transactions have made: a deposit
    /// under dispute is on record, and the client of a recorded deposit has
    /// an account.
    pub open spec fn wf(self) -> bool {
        &&& forall|id: u32| self.disputes.contains(id) ==> self.deposits.contains_key(id)
        &&& forall|id: u32| #[trigger]
            self.deposits.contains_key(id) ==> self.accounts.contains_key(self.deposits[id].client)
    }

    /// Whether an `i64` can hold every amount in the ledger.
    pub open spec fn representable(self) -> bool {
        forall|client: u16| #[trigger]
            self.accounts.contains_key(client) ==> self.accounts[client].representable()
    }

    /// Whether the deposit `id` is under dispute.
    pub open spec fn disputed(self, id: u32) -> bool {
        self.disputes.contains(id) && self.deposits.contains_key(id)
    }

    /// What becomes of the transaction `tx` with identifier `id`.
    pub open spec fn outcome(self, id: u32, tx: Transaction) -> Outcome {
        match tx.kind {
            TransactionType::DEPOSIT => Outcome::Applied,
            TransactionType::WITHDRAWAL => {
                if self.balance(tx.client).locked {
                    Outcome::FrozenAccount
                } else if self.balance(tx.client).available < tx.amount {
                    Outcome::InsufficientFunds
                } else {
                    Outcome::Applied
                }
            },
            TransactionType::DISPUTE => {
                if self.disputes.contains(id) {
                    Outcome::DuplicateDispute
                } else if !self.deposits.contains_key(id) {
                    Outcome::UnknownTransaction
                } else {
                    Outcome::Applied
                }
            },
            TransactionType::RESOLVE => {
                if self.disputed(id) {
                    Outcome::Applied
                } else {
                    Outcome::UndisputedResolve
                }
            },
            TransactionType::CHARGEBACK => {
                if self.disputed(id) {
                    Outcome::Applied
                } else {
                    Outcome::UndisputedChargeback
                }
            },
        }
    }

    /// The ledger after a transaction that was taken, but for the account
    /// that naming a client opens.
    pub open spec fn effect(self, id: u32, tx: Transaction) -> Ledger {
        match tx.kind {
            TransactionType::DEPOSIT => {
                let before = self.balance(tx.client);
                Ledger {
                    accounts: self.accounts.insert(
                        tx.client,
                        Balance { available: before.available + tx.amount, ..before },
                    ),
                    deposits: self.deposits.insert(
                        id,
                        DepositRecord { client: tx.client, amount: tx.amount },
                    ),
                    disputes: self.disputes,
                }
            },
            TransactionType::WITHDRAWAL => {
                let before = self.balance(tx.client);
                self.with_balance(
                    tx.client,
                    Balance { available: before.available - tx.amount, ..before },
                )
            },
            TransactionType::DISPUTE => {
                let deposit = self.deposits[id];
                let before = self.balance(deposit.client);
                Ledger {
                    accounts: self.accounts.insert(
                        deposit.client,
                        Balance {
                            available: before.available - deposit.amount,
                            held: before.held + deposit.amount,
                            locked: before.locked,
                        },
                    ),
                    deposits: self.deposits,
                    disputes: self.disputes.insert(id),
                }
            },
            TransactionType::RESOLVE => {
                let deposit = self.deposits[id];
                let before = self.balance(deposit.client);
                Ledger {
                    accounts: self.accounts.insert(
                        deposit.client,
                        Balance {
                            available: before.available + deposit.amount,
                            held: before.held - deposit.amount,
                            locked: before.locked,
                        },
                    ),
                    deposits: self.deposits,
                    disputes: self.disputes.remove(id),
                }
            },
            TransactionType::CHARGEBACK => {
                let deposit = self.deposits[id];
                let before = self.balance(deposit.client);
                Ledger {
                    accounts: self.accounts.insert(
                        deposit.client,
                        Balance {
                            available: before.available,
                            held: before.held - deposit.amount,
                            locked: true,
                        },
                    ),
                    deposits: self.deposits,
                    disputes: self.disputes.remove(id),
                }
            },
        }
    }

    /// The ledger after the transaction `tx` with identifier `id`: changed as
    /// the kind of `tx` says where it is taken, unchanged where it is not,
    /// and either way with an account for the client that `tx` names.
    pub open spec fn apply(self, id: u32, tx: Transaction) -> Ledger {
        if self.outcome(id, tx) == Outcome::Applied {
            self.effect(id, tx).with_account(tx.client)
        } else {
            self.with_account(tx.client)
        }
    }

    /// The ledger after the transactions of `log`, in their order.
    pub open spec fn replay(self, log: Seq<(u32, Transaction)>) -> Ledger
        decreases log.len(),
    {
        if log.len() == 0 {
            self
        } else {
            self.replay(log.drop_last()).apply(log.last().0, log.last().1)
        }
    }

    /// A transaction keeps the ledger well formed.
    pub proof fn lemma_apply_keeps_wf(self, id: u32, tx: Transaction)
        requires
            self.wf(),
        ensures
            self.apply(id, tx).wf(),
    {
        let after = self.apply(id, tx);
        assert forall|other: u32| #[trigger] after.deposits.contains_key(other) implies after.accounts.contains_key(
            after.deposits[other].client,
        ) by {
            if self.deposits.contains_key(other) {
                assert(self.accounts.contains_key(self.deposits[other].client));
            }
        }
    }

    /// Whether `self` and `other` give every client the same balance.
    pub open spec fn same_balances(self, other: Ledger) -> bool {
        forall|client: u16| self.balance(client) == other.balance(client)
    }

    /// Whether `other` differs from `self` at most by an account without
    /// funds that it has for `client`.
    pub open spec fn unchanged_but_for_account(self, other: Ledger, client: u16) -> bool {
        &&& other == self.with_account(client)
        &&& self.same_balances(other)
        &&& other.deposits == self.deposits
        &&& other.disputes == self.disputes
    }

    /// A transaction that is refused changes nothing, except that the client
    /// it names has an account afterwards.
    pub proof fn lemma_refused_changes_nothing(self, id: u32, tx: Transaction)
        requires
            self.outcome(id, tx) != Outcome::Applied,
        ensures
            self.unchanged_but_for_account(self.apply(id, tx), tx.client),
    {
    }

    /// No transaction removes an account or a deposit's record, and the
    /// client that it names has an account afterwards.
    pub proof fn lemma_nothing_is_removed(self, id: u32, tx: Transaction)
        ensures
            self.apply(id, tx).accounts.contains_key(tx.client),
            forall|client: u16|
                self.accounts.contains_key(client) ==> self.apply(id, tx).accounts.contains_key(
                    client,
                ),
            forall|other: u32|
                self.deposits.contains_key(other) ==> self.apply(id, tx).deposits.contains_key(
                    other,
                ),
    {
    }

    /// A deposit is always taken. It adds its amount to what its client has
    /// available, and changes neither what is held for that client, nor
    /// whether the account is frozen, nor any other client's balance.
    pub proof fn lemma_deposit(self, id: u32, tx: Transaction)
        requires
            tx.kind == TransactionType::DEPOSIT,
        ensures
            self.outcome(id, tx) == Outcome::Applied,
            self.apply(id, tx).balance(tx.client).available == self.balance(tx.client).available
                + tx.amount,
            self.apply(id, tx).balance(tx.client).held == self.balance(tx.client).held,
            self.apply(id, tx).balance(tx.client).locked == self.balance(tx.client).locked,
            forall|other: u16|
                other != tx.client ==> self.apply(id, tx).balance(other) == self.balance(other),
            self.apply(id, tx).deposits == self.deposits.insert(
                id,
                DepositRecord { client: tx.client, amount: tx.amount },
            ),
            self.apply(id, tx).disputes == self.disputes,
    {
    }

    /// A withdrawal is refused exactly where the account is frozen or has
    /// less available than is asked for, and then changes nothing. Where it
    /// is taken, it takes its amount from what the client has available and
    /// changes nothing else.
    pub proof fn lemma_withdrawal(self, id: u32, tx: Transaction)
        requires
            tx.kind == TransactionType::WITHDRAWAL,
        ensures
            self.outcome(id, tx) != Outcome::Applied <==> self.balance(tx.client).locked
                || self.balance(tx.client).available < tx.amount,
            self.outcome(id, tx) != Outcome::Applied ==> self.unchanged_but_for_account(
                self.apply(id, tx),
                tx.client,
            ),
            self.outcome(id, tx) == Outcome::Applied ==> self.apply(id, tx).balance(tx.client) == (
            Balance {
                available: self.balance(tx.client).available - tx.amount,
                ..self.balance(tx.client)
            }),
            forall|other: u16|
                other != tx.client ==> self.apply(id, tx).balance(other) == self.balance(other),
            self.apply(id, tx).deposits == self.deposits,
            self.apply(id, tx).disputes == self.disputes,
    {
    }

    /// A dispute that is taken moves the deposit's amount, for the client of
    /// the deposit, from available to held, and the deposit is then under
    /// dispute. The client's total does not change.
    pub proof fn lemma_dispute(self, id: u32, tx: Transaction)
        requires
            self.wf(),
            tx.kind == TransactionType::DISPUTE,
            self.outcome(id, tx) == Outcome::Applied,
        ensures
            self.apply(id, tx).disputes.contains(id),
            self.apply(id, tx).balance(self.deposits[id].client) == (Balance {
                available: self.balance(self.deposits[id].client).available
                    - self.deposits[id].amount,
                held: self.balance(self.deposits[id].client).held + self.deposits[id].amount,
                locked: self.balance(self.deposits[id].client).locked,
            }),
            self.apply(id, tx).balance(self.deposits[id].client).total() == self.balance(
                self.deposits[id].client,
            ).total(),
            forall|other: u16|
                other != self.deposits[id].client ==> self.apply(id, tx).balance(other)
                    == self.balance(other),
    {
    }

    /// A deposit is under dispute at most once at a time: while it is, a
    /// further dispute of it is refused and changes nothing.
    pub proof fn lemma_dispute_while_open(self, id: u32, tx: Transaction)
        requires
            tx.kind == TransactionType::DISPUTE,
            self.disputes.contains(id),
        ensures
            self.outcome(id, tx) == Outcome::DuplicateDispute,
            self.unchanged_but_for_account(self.apply(id, tx), tx.client),
    {
    }

    /// Of two disputes of one deposit in a row, the second is refused: the
    /// balances stay as the first left them.
    pub proof fn lemma_second_dispute(self, id: u32, first: Transaction, second: Transaction)
        requires
            first.kind == TransactionType::DISPUTE,
            second.kind == TransactionType::DISPUTE,
            self.outcome(id, first) == Outcome::Applied,
        ensures
            self.apply(id, first).outcome(id, second) == Outcome::DuplicateDispute,
            self.apply(id, first).same_balances(self.apply(id, first).apply(id, second)),
            self.apply(id, first).apply(id, second).disputes == self.apply(id, first).disputes,
    {
        self.apply(id, first).lemma_dispute_while_open(id, second);
    }

    /// A resolve or a chargeback is taken exactly where its deposit is under
    /// dispute; else it changes nothing. Where it is taken, the deposit is
    /// no longer under dispute afterwards.
    pub proof fn lemma_settlement(self, id: u32, tx: Transaction)
        requires
            self.wf(),
            tx.kind == TransactionType::RESOLVE || tx.kind == TransactionType::CHARGEBACK,
        ensures
            self.outcome(id, tx) == Outcome::Applied <==> self.disputes.contains(id),
            self.outcome(id, tx) != Outcome::Applied ==> self.unchanged_but_for_account(
                self.apply(id, tx),
                tx.client,
            ),
            self.outcome(id, tx) == Outcome::Applied ==> !self.apply(id, tx).disputes.contains(id),
            forall|other: u32|
                other != id ==> (self.apply(id, tx).disputes.contains(other)
                    <==> self.disputes.contains(other)),
    {
    }

    /// A dispute is settled once: after a resolve or a chargeback that was
    /// taken, another of either kind for the same deposit is refused and
    /// changes nothing.
    pub proof fn lemma_settled_once(self, id: u32, first: Transaction, second: Transaction)
        requires
            self.wf(),
            first.kind == TransactionType::RESOLVE || first.kind == TransactionType::CHARGEBACK,
            second.kind == TransactionType::RESOLVE || second.kind == TransactionType::CHARGEBACK,
            self.outcome(id, first) == Outcome::Applied,
        ensures
            self.apply(id, first).outcome(id, second) != Outcome::Applied,
            self.apply(id, first).unchanged_but_for_account(
                self.apply(id, first).apply(id, second),
                second.client,
            ),
    {
        self.lemma_apply_keeps_wf(id, first);
        self.lemma_settlement(id, first);
        self.apply(id, first).lemma_settlement(id, second);
    }

    /// A resolve that is taken moves the deposit's amount, for the client of
    /// the deposit, from held back to available. The client's total does not
    /// change.
    pub proof fn lemma_resolve(self, id: u32, tx: Transaction)
        requires
            self.wf(),
            tx.kind == TransactionType::RESOLVE,
            self.outcome(id, tx) == Outcome::Applied,
        ensures
            self.apply(id, tx).balance(self.deposits[id].client) == (Balance {
                available: self.balance(self.deposits[id].client).available
                    + self.deposits[id].amount,
                held: self.balance(self.deposits[id].client).held - self.deposits[id].amount,
                locked: self.balance(self.deposits[id].client).locked,
            }),
            self.apply(id, tx).balance(self.deposits[id].client).total() == self.balance(
                self.deposits[id].client,
            ).total(),
            forall|other: u16|
                other != self.deposits[id].client ==> self.apply(id, tx).balance(other)
                    == self.balance(other),
    {
    }

    /// A chargeback that is taken removes the deposit's amount from what is
    /// held for the client of the deposit, and freezes that client's account.
    pub proof fn lemma_chargeback(self, id: u32, tx: Transaction)
        requires
            self.wf(),
            tx.kind == TransactionType::CHARGEBACK,
            self.outcome(id, tx) == Outcome::Applied,
        ensures
            self.apply(id, tx).balance(self.deposits[id].client) == (Balance {
                available: self.balance(self.deposits[id].client).available,
                held: self.balance(self.deposits[id].client).held - self.deposits[id].amount,
                locked: true,
            }),
            forall|other: u16|
                other != self.deposits[id].client ==> self.apply(id, tx).balance(other)
                    == self.balance(other),
    {
    }

    /// No transaction unfreezes an account.
    pub proof fn lemma_frozen_after_apply(self, id: u32, tx: Transaction, client: u16)
        requires
            self.balance(client).locked,
        ensures
            self.apply(id, tx).balance(client).locked,
    {
    }

    /// A frozen account stays frozen, whatever transactions follow.
    pub proof fn lemma_frozen_for_good(self, log: Seq<(u32, Transaction)>, client: u16)
        requires
            self.balance(client).locked,
        ensures
            self.replay(log).balance(client).locked,
        decreases log.len(),
    {
        if log.len() > 0 {
            self.lemma_frozen_for_good(log.drop_last(), client);
            self.replay(log.drop_last()).lemma_frozen_after_apply(
                log.last().0,
                log.last().1,
                client,
            );
        }
    }

    /// After a chargeback, every later withdrawal by the client of the
    /// deposit is refused, whatever that client has available by then and
    /// whatever transactions came in between.
    pub proof fn lemma_no_withdrawal_after_chargeback(
        self,
        id: u32,
        chargeback: Transaction,
        log: Seq<(u32, Transaction)>,
        withdrawal_id: u32,
        withdrawal: Transaction,
    )
        requires
            self.wf(),
            chargeback.kind == TransactionType::CHARGEBACK,
            self.outcome(id, chargeback) == Outcome::Applied,
            withdrawal.kind == TransactionType::WITHDRAWAL,
            withdrawal.client == self.deposits[id].client,
        ensures
            self.apply(id, chargeback).replay(log).outcome(withdrawal_id, withdrawal)
                == Outcome::FrozenAccount,
            self.apply(id, chargeback).replay(log).unchanged_but_for_account(
                self.apply(id, chargeback).replay(log).apply(withdrawal_id, withdrawal),
                withdrawal.client,
            ),
    {
        self.lemma_chargeback(id, chargeback);
        self.apply(id, chargeback).lemma_frozen_for_good(log, withdrawal.client);
    }

    /// Replaying transactions keeps the ledger well formed.
    pub proof fn lemma_replay_keeps_wf(self, log: Seq<(u32, Transaction)>)
        requires
            self.wf(),
        ensures
            self.replay(log).wf(),
        decreases log.len(),
    {
        if log.len() > 0 {
            self.lemma_replay_keeps_wf(log.drop_last());
            self.replay(log.drop_last()).lemma_apply_keeps_wf(log.last().0, log.last().1);
        }
    }
}

} // verus!
