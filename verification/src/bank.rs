//! The bank: accounts in memory, changed by one transaction at a time.

use std::collections::{BTreeMap, HashMap, HashSet};
use vstd::prelude::*;
use crate::ledger::{Balance, DepositRecord, Ledger, Outcome};
use crate::report::{header_text, lines_text, lists_accounts, push_line};
use crate::transactions::{Transaction, TransactionIdTuple, TransactionType};

verus! {

broadcast use {
    vstd::std_specs::hash::group_hash_axioms,
    vstd::std_specs::btree::group_btree_axioms,
    vstd::laws_cmp::group_laws_cmp,
};

/// The account of one client. Amounts are counted in ten-thousandths.
#[derive(Debug, Copy, Clone)]
pub struct Account {
    pub available_funds: i64,
    pub held_funds: i64,
    pub locked: bool,
}

impl View for Account {
    type V = Balance;

    open spec fn view(&self) -> Balance {
        Balance { available: self.available_funds as int, held: self.held_funds as int, locked: self.locked }
    }
}

impl Default for Account {
    /// An account with no funds, not frozen.
    fn default() -> (account: Account)
        ensures
            account@ == Balance::zero(),
    {
        Account { available_funds: 0, held_funds: 0, locked: false }
    }
}

impl Account {
    /// All the funds of the account, available or held.
    pub fn get_total_funds(&self) -> (total: i64)
        requires
            i64::MIN <= self@.total() <= i64::MAX,
        ensures
            total == self@.total(),
    {
        self.available_funds + self.held_funds
    }
}

impl DepositRecord {
    /// What is kept of `transaction`, where it is a deposit.
    pub open spec fn of(transaction: Transaction) -> DepositRecord {
        DepositRecord { client: transaction.client, amount: transaction.amount }
    }

    /// The record of a deposit. Any other transaction is refused.
    pub fn try_from(transaction: Transaction) -> (result: Result<DepositRecord, &'static str>)
        ensures
            transaction.kind == TransactionType::DEPOSIT ==> result == Ok::<
                DepositRecord,
                &'static str,
            >(DepositRecord::of(transaction)),
            transaction.kind != TransactionType::DEPOSIT ==> result is Err && result->Err_0@
                == "Transaction is not a deposit"@,
    {
        match transaction.kind {
            TransactionType::DEPOSIT => Ok(
                DepositRecord { client: transaction.client, amount: transaction.amount },
            ),
            _ => Err("Transaction is not a deposit"),
        }
    }
}

/// The accounts of all clients, with what is needed to settle disputes.
pub struct BankDatabase {
    accounts: HashMap<u16, Account>,
    deposits: BTreeMap<u32, DepositRecord>,
    disputes: HashSet<u32>,
}

impl View for BankDatabase {
    type V = Ledger;

    closed spec fn view(&self) -> Ledger {
        Ledger {
            accounts: self.accounts@.map_values(|account: Account| account@),
            deposits: self.deposits@,
            disputes: self.disputes@,
        }
    }
}

impl Default for BankDatabase {
    /// A bank without accounts.
    fn default() -> (bank: BankDatabase)
        ensures
            bank@ == Ledger::empty(),
            bank.wf(),
    {
        let bank = BankDatabase {
            accounts: HashMap::new(),
            deposits: BTreeMap::new(),
            disputes: HashSet::new(),
        };
        proof {
            assert(bank@.accounts =~= Map::<u16, Balance>::empty());
        }
        bank
    }
}

impl BankDatabase {
    /// What holds of every bank: its ledger is one that transactions make.
    pub open spec fn wf(&self) -> bool {
        self@.wf()
    }

    /// Every amount in a bank is one that an `i64` holds.
    pub proof fn lemma_representable(&self)
        ensures
            self@.representable(),
    {
    }

    /// The account of `client`, if a transaction has named that client.
    pub fn account(&self, client: u16) -> (account: Option<Account>)
        ensures
            account is Some <==> self@.accounts.contains_key(client),
            account matches Some(a) ==> a@ == self@.accounts[client],
    {
        match self.accounts.get(&client) {
            Some(account) => Some(*account),
            None => None,
        }
    }

    /// The account of `client`, or an empty one where it has none yet.
    fn account_or_default(&self, client: u16) -> (account: Account)
        ensures
            account@ == self@.balance(client),
    {
        match self.accounts.get(&client) {
            Some(account) => *account,
            None => Account::default(),
        }
    }

    /// Makes `account` the account of `client`.
    fn set_account(&mut self, client: u16, account: Account)
        ensures
            final(self)@ == old(self)@.with_balance(client, account@),
    {
        self.accounts.insert(client, account);
        proof {
            assert(final(self)@.accounts =~= old(self)@.accounts.insert(client, account@));
        }
    }

    /// Whether the deposit `id` is under dispute.
    fn is_disputed(&self, id: u32) -> (disputed: bool)
        ensures
            disputed == self@.disputes.contains(id),
    {
        self.disputes.contains(&id)
    }

    /// The record of the deposit `id`, if there is one.
    fn deposit(&self, id: u32) -> (record: Option<DepositRecord>)
        ensures
            record is Some <==> self@.deposits.contains_key(id),
            record matches Some(r) ==> r == self@.deposits[id],
    {
        match self.deposits.get(&id) {
            Some(record) => Some(*record),
            None => None,
        }
    }

    /// Whether the bank can hold what the transaction makes of its ledger:
    /// every amount after it is one that an `i64` holds.
    pub open spec fn can_hold(&self, transaction_id_tuple: TransactionIdTuple) -> bool {
        self@.apply(transaction_id_tuple.0, transaction_id_tuple.1).representable()
    }

    /// What becomes of the transaction, and the one account that it changes
    /// where it is taken, with its amounts not yet cut to size.
    fn plan(&self, id: u32, transaction: Transaction) -> (plan: (Outcome, Option<Change>))
        ensures
            plan.0 == self@.outcome(id, transaction),
            plan.1 is Some <==> plan.0 == Outcome::Applied,
            plan.1 matches Some(change) ==> self@.effect(id, transaction).accounts
                == self@.accounts.insert(change.client, change@),
    {
        match transaction.kind {
            TransactionType::DEPOSIT => {
                let account = self.account_or_default(transaction.client);
                let change = Change {
                    client: transaction.client,
                    available: account.available_funds as i128 + transaction.amount as i128,
                    held: account.held_funds as i128,
                    locked: account.locked,
                };
                (Outcome::Applied, Some(change))
            },
            TransactionType::WITHDRAWAL => {
                let account = self.account_or_default(transaction.client);
                if account.locked {
                    (Outcome::FrozenAccount, None)
                } else if account.available_funds < transaction.amount {
                    (Outcome::InsufficientFunds, None)
                } else {
                    let change = Change {
                        client: transaction.client,
                        available: account.available_funds as i128 - transaction.amount as i128,
                        held: account.held_funds as i128,
                        locked: account.locked,
                    };
                    (Outcome::Applied, Some(change))
                }
            },
            TransactionType::DISPUTE => {
                if self.is_disputed(id) {
                    (Outcome::DuplicateDispute, None)
                } else {
                    match self.deposit(id) {
                        None => (Outcome::UnknownTransaction, None),
                        Some(deposit) => {
                            let account = self.account_or_default(deposit.client);
                            let change = Change {
                                client: deposit.client,
                                available: account.available_funds as i128 - deposit.amount as i128,
                                held: account.held_funds as i128 + deposit.amount as i128,
                                locked: account.locked,
                            };
                            (Outcome::Applied, Some(change))
                        },
                    }
                }
            },
            TransactionType::RESOLVE => {
                match self.disputed_deposit(id) {
                    None => (Outcome::UndisputedResolve, None),
                    Some(deposit) => {
                        let account = self.account_or_default(deposit.client);
                        let change = Change {
                            client: deposit.client,
                            available: account.available_funds as i128 + deposit.amount as i128,
                            held: account.held_funds as i128 - deposit.amount as i128,
                            locked: account.locked,
                        };
                        (Outcome::Applied, Some(change))
                    },
                }
            },
            TransactionType::CHARGEBACK => {
                match self.disputed_deposit(id) {
                    None => (Outcome::UndisputedChargeback, None),
                    Some(deposit) => {
                        let account = self.account_or_default(deposit.client);
                        let change = Change {
                            client: deposit.client,
                            available: account.available_funds as i128,
                            held: account.held_funds as i128 - deposit.amount as i128,
                            locked: true,
                        };
                        (Outcome::Applied, Some(change))
                    },
                }
            },
        }
    }

    /// The record of the deposit `id`, if that deposit is under dispute.
    fn disputed_deposit(&self, id: u32) -> (record: Option<DepositRecord>)
        ensures
            record is Some <==> self@.disputed(id),
            record matches Some(r) ==> r == self@.deposits[id],
    {
        if self.is_disputed(id) {
            self.deposit(id)
        } else {
            None
        }
    }

    /// Whether the bank can hold what the transaction makes of its ledger.
    pub fn has_room_for(&self, transaction_id_tuple: TransactionIdTuple) -> (room: bool)
        ensures
            room == self.can_hold(transaction_id_tuple),
    {
        let ghost after = self@.apply(transaction_id_tuple.0, transaction_id_tuple.1);
        proof {
            self.lemma_representable();
        }
        match self.plan(transaction_id_tuple.0, transaction_id_tuple.1).1 {
            None => {
                proof {
                    assert forall|client: u16| #[trigger]
                        after.accounts.contains_key(client) implies after.accounts[client].representable() by {
                        if self@.accounts.contains_key(client) {
                            assert(self@.accounts[client].representable());
                        }
                    }
                }
                true
            },
            Some(change) => {
                proof {
                    assert(after.accounts.contains_key(change.client));
                    assert(after.accounts[change.client] == change@);
                    if change@.representable() {
                        assert forall|other: u16| #[trigger]
                            after.accounts.contains_key(other) implies after.accounts[other].representable() by {
                            if other != change.client && self@.accounts.contains_key(other) {
                                assert(self@.accounts[other].representable());
                            }
                        }
                    }
                }
                in_range(change.available) && in_range(change.held)
            },
        }
    }

    /// Applies one transaction.
    ///
    /// The ledger changes as [`Ledger::apply`] says: a transaction that the
    /// rules refuse changes no balance, and the result says why it was
    /// refused. Either way the client that the transaction names has an
    /// account afterwards, no account is removed, and an account that was
    /// frozen is frozen still.
    pub fn execute_transaction(&mut self, transaction_id_tuple: TransactionIdTuple) -> (outcome:
        Outcome)
        requires
            old(self).wf(),
            old(self).can_hold(transaction_id_tuple),
        ensures
            final(self).wf(),
            final(self)@ == old(self)@.apply(transaction_id_tuple.0, transaction_id_tuple.1),
            outcome == old(self)@.outcome(transaction_id_tuple.0, transaction_id_tuple.1),
            final(self)@.accounts.contains_key(transaction_id_tuple.1.client),
            forall|client: u16|
                old(self)@.accounts.contains_key(client) ==> final(self)@.accounts.contains_key(
                    client,
                ),
            forall|client: u16|
                old(self)@.balance(client).locked ==> final(self)@.balance(client).locked,
            outcome != Outcome::Applied ==> old(self)@.unchanged_but_for_account(
                final(self)@,
                transaction_id_tuple.1.client,
            ),
    {
        let transaction_id = transaction_id_tuple.0;
        let transaction = transaction_id_tuple.1;
        let ghost before = self@;
        let ghost after = before.apply(transaction_id, transaction);
        let (outcome, change) = self.plan(transaction_id, transaction);
        if let Some(change) = change {
            proof {
                assert(after.accounts.contains_key(change.client));
                assert(after.accounts[change.client] == change@);
                assert(after.accounts[change.client].representable());
            }
            self.set_account(
                change.client,
                Account {
                    available_funds: change.available as i64,
                    held_funds: change.held as i64,
                    locked: change.locked,
                },
            );
            match transaction.kind {
                TransactionType::DEPOSIT => {
                    if let Ok(record) = DepositRecord::try_from(transaction) {
                        self.record_deposit(transaction_id, record);
                    }
                },
                TransactionType::WITHDRAWAL => {},
                TransactionType::DISPUTE => {
                    self.open_dispute(transaction_id);
                },
                TransactionType::RESOLVE => {
                    self.close_dispute(transaction_id);
                },
                TransactionType::CHARGEBACK => {
                    self.close_dispute(transaction_id);
                },
            }
        }
        let account = self.account_or_default(transaction.client);
        self.set_account(transaction.client, account);
        proof {
            assert(self@.accounts =~= after.accounts);
            assert(self@.deposits =~= after.deposits);
            assert(self@.disputes =~= after.disputes);
            before.lemma_apply_keeps_wf(transaction_id, transaction);
            before.lemma_nothing_is_removed(transaction_id, transaction);
            assert forall|client: u16| before.balance(client).locked implies after.balance(
                client,
            ).locked by {
                before.lemma_frozen_after_apply(transaction_id, transaction, client);
            }
            if outcome != Outcome::Applied {
                before.lemma_refused_changes_nothing(transaction_id, transaction);
            }
        }
        outcome
    }

    /// Puts `record` on record as the deposit `id`.
    fn record_deposit(&mut self, id: u32, record: DepositRecord)
        ensures
            final(self)@ == (Ledger { deposits: old(self)@.deposits.insert(id, record), ..old(self)@ }),
    {
        self.deposits.insert(id, record);
    }

    /// Puts the deposit `id` under dispute.
    fn open_dispute(&mut self, id: u32)
        ensures
            final(self)@ == (Ledger { disputes: old(self)@.disputes.insert(id), ..old(self)@ }),
    {
        self.disputes.insert(id);
    }

    /// Ends the dispute of the deposit `id`.
    fn close_dispute(&mut self, id: u32)
        ensures
            final(self)@ == (Ledger { disputes: old(self)@.disputes.remove(id), ..old(self)@ }),
    {
        self.disputes.remove(&id);
    }

    /// The clients that have an account, each once, in no particular order.
    pub fn clients(&self) -> (clients: Vec<u16>)
        ensures
            lists_accounts(self@, clients@),
    {
        let mut clients: Vec<u16> = Vec::new();
        for client in it: self.accounts.keys()
            invariant
                it.seq().unref().to_set() == self.accounts@.dom(),
                it.seq().no_duplicates(),
                clients@ == it.seq().unref().take(it.index() as int),
                it.index() == it.seq().len() ==> lists_accounts(self@, clients@),
        {
            clients.push(*client);
            assert(clients@ =~= it.seq().unref().take(it.index() + 1));
            assert(it.index() + 1 == it.seq().len() ==> lists_accounts(self@, clients@)) by {
                assert(it.index() + 1 == it.seq().len() ==> clients@ =~= it.seq().unref());
                assert forall|i: int, j: int|
                    0 <= i < it.seq().len() && 0 <= j < it.seq().len() && i != j implies it.seq().unref()[i]
                    != it.seq().unref()[j] by {
                    assert(it.seq()[i] != it.seq()[j]);
                }
                assert forall|c: u16|
                    it.seq().unref().contains(c) <==> self@.accounts.contains_key(c) by {
                    assert(it.seq().unref().to_set().contains(c) <==> it.seq().unref().contains(c));
                }
            }
        }
        clients
    }

    /// The report of all accounts: the header, then one line for each
    /// client that has an account, in no particular order.
    pub fn report(&self) -> (text: String)
        ensures
            exists|order: Seq<u16>|
                lists_accounts(self@, order) && text@ == header_text() + lines_text(self@, order),
    {
        let clients = self.clients();
        let mut text = String::new();
        text.append("client,available,held,total,locked\n");
        assert(text@ =~= header_text() + lines_text(self@, clients@.take(0)));
        let mut i: usize = 0;
        while i < clients.len()
            invariant
                i <= clients.len(),
                text@ == header_text() + lines_text(self@, clients@.take(i as int)),
            decreases clients.len() - i,
        {
            let client = clients[i];
            let account = self.account_or_default(client);
            push_line(&mut text, client, &account);
            proof {
                let listed = clients@.take(i + 1);
                assert(listed.drop_last() =~= clients@.take(i as int));
                assert(listed.last() == client);
                assert(text@ =~= header_text() + lines_text(self@, listed));
            }
            i += 1;
        }
        proof {
            assert(clients@.take(clients.len() as int) =~= clients@);
        }
        text
    }
}

/// The account that a transaction changes, and what it makes of it. The
/// amounts are as the rules give them, which may be more than an account can
/// hold.
struct Change {
    client: u16,
    available: i128,
    held: i128,
    locked: bool,
}

impl View for Change {
    type V = Balance;

    closed spec fn view(&self) -> Balance {
        Balance { available: self.available as int, held: self.held as int, locked: self.locked }
    }
}

/// Whether an `i64` can hold `amount`.
fn in_range(amount: i128) -> (b: bool)
    ensures
        b == (i64::MIN <= amount <= i64::MAX),
{
    -9_223_372_036_854_775_808 <= amount && amount <= 9_223_372_036_854_775_807
}

} // verus!
