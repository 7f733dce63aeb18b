use ledger_engine::bank::BankDatabase;
use ledger_engine::ledger::Outcome;
use ledger_engine::transactions::TransactionType::{
    CHARGEBACK, DEPOSIT, DISPUTE, RESOLVE, WITHDRAWAL,
};
use ledger_engine::transactions::{Transaction, TransactionIdTuple};

const CLIENT_1: u16 = 10;
const CLIENT_DONT_CARE: u16 = 20;

const GIVE_50_CLIENT_1: TransactionIdTuple = (
    1,
    Transaction {
        amount: 50,
        client: CLIENT_1,
        kind: DEPOSIT,
    },
);
const GIVE_100_CLIENT_1: TransactionIdTuple = (
    2,
    Transaction {
        amount: 100,
        client: CLIENT_1,
        kind: DEPOSIT,
    },
);

#[test]
fn deposit_works() {
    let mut bank = BankDatabase::default();
    bank.execute_transaction(GIVE_100_CLIENT_1);

    assert_eq!(bank.account(CLIENT_1).unwrap().available_funds, 100)
}

const REMOVE_100_CLIENT_1: TransactionIdTuple = (
    3,
    Transaction {
        amount: 100,
        client: CLIENT_1,
        kind: WITHDRAWAL,
    },
);

#[test]
fn withdrawal_works() {
    let mut bank = BankDatabase::default();
    bank.execute_transaction(GIVE_100_CLIENT_1);
    bank.execute_transaction(GIVE_100_CLIENT_1);
    bank.execute_transaction(REMOVE_100_CLIENT_1);

    assert_eq!(bank.account(CLIENT_1).unwrap().available_funds, 100)
}

#[test]
fn withdrawal_rejected_insufficient_funds() {
    let mut bank = BankDatabase::default();
    bank.execute_transaction(GIVE_50_CLIENT_1);
    bank.execute_transaction(REMOVE_100_CLIENT_1);

    assert_eq!(bank.account(CLIENT_1).unwrap().available_funds, 50)
}

#[test]
fn withdrawal_rejected_account_locked() {
    let mut bank = BankDatabase::default();
    bank.execute_transaction(GIVE_50_CLIENT_1);
    bank.execute_transaction(GIVE_100_CLIENT_1);
    bank.execute_transaction(DISPUTE_1);
    bank.execute_transaction(CHARGEBACK_1);
    bank.execute_transaction(REMOVE_100_CLIENT_1);

    assert_eq!(bank.account(CLIENT_1).unwrap().available_funds, 100);
}

const DONT_CARE: i64 = 0;
const INVALID_TRANSACTION: u32 = 999;

const DISPUTE_1: TransactionIdTuple = (
    1,
    Transaction {
        amount: DONT_CARE,
        client: CLIENT_DONT_CARE,
        kind: DISPUTE,
    },
);
const DISPUTE_INVALID: TransactionIdTuple = (
    INVALID_TRANSACTION,
    Transaction {
        amount: DONT_CARE,
        client: CLIENT_DONT_CARE,
        kind: DISPUTE,
    },
);
const DISPUTE_NON_DEPOSIT: TransactionIdTuple = (
    3,
    Transaction {
        amount: DONT_CARE,
        client: CLIENT_DONT_CARE,
        kind: DISPUTE,
    },
);

#[test]
fn dispute_works() {
    let mut bank = BankDatabase::default();
    bank.execute_transaction(GIVE_50_CLIENT_1);
    bank.execute_transaction(DISPUTE_1);

    assert_eq!(bank.account(CLIENT_1).unwrap().held_funds, 50);
    assert_eq!(bank.account(CLIENT_1).unwrap().available_funds, 0);
}

#[test]
fn dispute_invalid_is_ignored() {
    let mut bank = BankDatabase::default();
    bank.execute_transaction(GIVE_50_CLIENT_1);
    bank.execute_transaction(DISPUTE_INVALID);

    assert_eq!(bank.account(CLIENT_1).unwrap().held_funds, 0);
    assert_eq!(bank.account(CLIENT_1).unwrap().available_funds, 50);
}

#[test]
fn dispute_non_deposit_is_ignored() {
    let mut bank = BankDatabase::default();
    bank.execute_transaction(GIVE_100_CLIENT_1);
    bank.execute_transaction(GIVE_50_CLIENT_1);
    bank.execute_transaction(REMOVE_100_CLIENT_1);
    bank.execute_transaction(DISPUTE_NON_DEPOSIT);

    assert_eq!(bank.account(CLIENT_1).unwrap().held_funds, 0);
    assert_eq!(bank.account(CLIENT_1).unwrap().available_funds, 50);
}

#[test]
fn dispute_duplicate_is_ignored() {
    let mut bank = BankDatabase::default();
    bank.execute_transaction(GIVE_50_CLIENT_1);
    bank.execute_transaction(DISPUTE_1);
    bank.execute_transaction(DISPUTE_1);

    assert_eq!(bank.account(CLIENT_1).unwrap().held_funds, 50);
    assert_eq!(bank.account(CLIENT_1).unwrap().available_funds, 0);
}

const RESOLVE_1: TransactionIdTuple = (
    1,
    Transaction {
        amount: DONT_CARE,
        client: CLIENT_DONT_CARE,
        kind: RESOLVE,
    },
);

#[test]
fn resolve_works() {
    let mut bank = BankDatabase::default();
    bank.execute_transaction(GIVE_50_CLIENT_1);
    bank.execute_transaction(DISPUTE_1);
    bank.execute_transaction(RESOLVE_1);

    assert_eq!(bank.account(CLIENT_1).unwrap().held_funds, 0);
    assert_eq!(bank.account(CLIENT_1).unwrap().available_funds, 50);
}

#[test]
fn resolve_duplicate_is_ignored() {
    let mut bank = BankDatabase::default();
    bank.execute_transaction(GIVE_50_CLIENT_1);
    bank.execute_transaction(DISPUTE_1);
    bank.execute_transaction(RESOLVE_1);
    bank.execute_transaction(RESOLVE_1);

    assert_eq!(bank.account(CLIENT_1).unwrap().held_funds, 0);
    assert_eq!(bank.account(CLIENT_1).unwrap().available_funds, 50);
}

#[test]
fn resolve_invalid_is_ignored() {
    let mut bank = BankDatabase::default();
    bank.execute_transaction(GIVE_100_CLIENT_1);
    bank.execute_transaction(RESOLVE_1);

    assert_eq!(bank.account(CLIENT_1).unwrap().held_funds, 0);
    assert_eq!(bank.account(CLIENT_1).unwrap().available_funds, 100);
}

const CHARGEBACK_1: TransactionIdTuple = (
    1,
    Transaction {
        amount: DONT_CARE,
        client: CLIENT_DONT_CARE,
        kind: CHARGEBACK,
    },
);
const CHARGEBACK_INVALID: TransactionIdTuple = (
    1,
    Transaction {
        amount: DONT_CARE,
        client: CLIENT_DONT_CARE,
        kind: CHARGEBACK,
    },
);

#[test]
fn chargeback_works() {
    let mut bank = BankDatabase::default();
    bank.execute_transaction(GIVE_50_CLIENT_1);
    bank.execute_transaction(DISPUTE_1);
    bank.execute_transaction(CHARGEBACK_1);

    assert_eq!(bank.account(CLIENT_1).unwrap().held_funds, 0);
    assert_eq!(bank.account(CLIENT_1).unwrap().available_funds, 0);
    assert_eq!(bank.account(CLIENT_1).unwrap().locked, true);
}

#[test]
fn chargeback_duplicate_is_ignored() {
    let mut bank = BankDatabase::default();
    bank.execute_transaction(GIVE_50_CLIENT_1);
    bank.execute_transaction(DISPUTE_1);
    bank.execute_transaction(CHARGEBACK_1);
    bank.execute_transaction(CHARGEBACK_1);

    assert_eq!(bank.account(CLIENT_1).unwrap().held_funds, 0);
    assert_eq!(bank.account(CLIENT_1).unwrap().available_funds, 0);
    assert_eq!(bank.account(CLIENT_1).unwrap().locked, true);
}

#[test]
fn chargeback_invalid_is_ignored() {
    let mut bank = BankDatabase::default();
    bank.execute_transaction(GIVE_50_CLIENT_1);
    bank.execute_transaction(CHARGEBACK_INVALID);

    assert_eq!(bank.account(CLIENT_1).unwrap().held_funds, 0);
    assert_eq!(bank.account(CLIENT_1).unwrap().available_funds, 50);
    assert_eq!(bank.account(CLIENT_1).unwrap().locked, false);
}

fn deposit(client: u16, amount: i64) -> Transaction {
    Transaction { kind: DEPOSIT, client, amount }
}

fn withdrawal(client: u16, amount: i64) -> Transaction {
    Transaction { kind: WITHDRAWAL, client, amount }
}

fn request(kind: ledger_engine::transactions::TransactionType, client: u16) -> Transaction {
    Transaction { kind, client, amount: 0 }
}

/// What a bank shows of itself: each account, sorted by client.
fn snapshot(bank: &BankDatabase) -> Vec<(u16, i64, i64, bool)> {
    let mut clients = bank.clients();
    clients.sort();
    clients
        .into_iter()
        .map(|client| {
            let account = bank.account(client).unwrap();
            (client, account.available_funds, account.held_funds, account.locked)
        })
        .collect()
}

#[test]
fn new_bank_has_no_accounts() {
    let bank = BankDatabase::default();
    assert_eq!(bank.clients(), Vec::<u16>::new());
    assert!(bank.account(0).is_none());
    assert!(bank.account(CLIENT_1).is_none());
    assert_eq!(bank.report(), "client,available,held,total,locked\n");
}

#[test]
fn deposit_adds_to_available_only() {
    let mut bank = BankDatabase::default();
    assert_eq!(bank.execute_transaction((1, deposit(1, 30))), Outcome::Applied);
    assert_eq!(bank.execute_transaction((2, deposit(2, 7))), Outcome::Applied);
    assert_eq!(bank.execute_transaction((3, request(DISPUTE, 1))), Outcome::UnknownTransaction);
    assert_eq!(bank.execute_transaction((1, request(DISPUTE, 1))), Outcome::Applied);
    assert_eq!(snapshot(&bank), vec![(1, 0, 30, false), (2, 7, 0, false)]);
    assert_eq!(bank.execute_transaction((4, deposit(1, 12))), Outcome::Applied);
    assert_eq!(snapshot(&bank), vec![(1, 12, 30, false), (2, 7, 0, false)]);
}

#[test]
fn deposit_into_a_frozen_account_is_taken() {
    let mut bank = BankDatabase::default();
    bank.execute_transaction((1, deposit(1, 30)));
    bank.execute_transaction((1, request(DISPUTE, 1)));
    bank.execute_transaction((1, request(CHARGEBACK, 1)));
    assert_eq!(snapshot(&bank), vec![(1, 0, 0, true)]);
    assert_eq!(bank.execute_transaction((2, deposit(1, 5))), Outcome::Applied);
    assert_eq!(snapshot(&bank), vec![(1, 5, 0, true)]);
}

#[test]
fn withdrawal_is_refused_exactly_when_frozen_or_short() {
    let mut bank = BankDatabase::default();
    bank.execute_transaction((1, deposit(1, 30)));
    assert_eq!(bank.execute_transaction((2, withdrawal(1, 31))), Outcome::InsufficientFunds);
    assert_eq!(snapshot(&bank), vec![(1, 30, 0, false)]);
    assert_eq!(bank.execute_transaction((3, withdrawal(1, 30))), Outcome::Applied);
    assert_eq!(snapshot(&bank), vec![(1, 0, 0, false)]);
    assert_eq!(bank.execute_transaction((4, withdrawal(1, 0))), Outcome::Applied);
    assert_eq!(bank.execute_transaction((5, withdrawal(1, 1))), Outcome::InsufficientFunds);
    assert_eq!(snapshot(&bank), vec![(1, 0, 0, false)]);

    bank.execute_transaction((6, deposit(1, 10)));
    bank.execute_transaction((7, deposit(1, 10)));
    bank.execute_transaction((6, request(DISPUTE, 1)));
    bank.execute_transaction((6, request(CHARGEBACK, 1)));
    assert_eq!(snapshot(&bank), vec![(1, 10, 0, true)]);
    assert_eq!(bank.execute_transaction((8, withdrawal(1, 1))), Outcome::FrozenAccount);
    assert_eq!(bank.execute_transaction((9, withdrawal(1, 0))), Outcome::FrozenAccount);
    assert_eq!(bank.execute_transaction((10, withdrawal(1, 100))), Outcome::FrozenAccount);
    assert_eq!(snapshot(&bank), vec![(1, 10, 0, true)]);
}

#[test]
fn withdrawal_by_an_unknown_client_opens_an_account() {
    let mut bank = BankDatabase::default();
    assert_eq!(bank.execute_transaction((1, withdrawal(5, 1))), Outcome::InsufficientFunds);
    assert_eq!(snapshot(&bank), vec![(5, 0, 0, false)]);
}

#[test]
fn second_dispute_changes_nothing() {
    let mut bank = BankDatabase::default();
    bank.execute_transaction((1, deposit(1, 30)));
    assert_eq!(bank.execute_transaction((1, request(DISPUTE, 1))), Outcome::Applied);
    let once = snapshot(&bank);
    assert_eq!(bank.execute_transaction((1, request(DISPUTE, 1))), Outcome::DuplicateDispute);
    assert_eq!(snapshot(&bank), once);
    assert_eq!(once, vec![(1, 0, 30, false)]);
}

#[test]
fn dispute_can_be_opened_again_after_a_resolve() {
    let mut bank = BankDatabase::default();
    bank.execute_transaction((1, deposit(1, 30)));
    assert_eq!(bank.execute_transaction((1, request(DISPUTE, 1))), Outcome::Applied);
    assert_eq!(bank.execute_transaction((1, request(RESOLVE, 1))), Outcome::Applied);
    assert_eq!(snapshot(&bank), vec![(1, 30, 0, false)]);
    assert_eq!(bank.execute_transaction((1, request(DISPUTE, 1))), Outcome::Applied);
    assert_eq!(snapshot(&bank), vec![(1, 0, 30, false)]);
}

#[test]
fn dispute_acts_on_the_client_of_the_deposit() {
    let mut bank = BankDatabase::default();
    bank.execute_transaction((1, deposit(1, 30)));
    assert_eq!(bank.execute_transaction((1, request(DISPUTE, 2))), Outcome::Applied);
    assert_eq!(snapshot(&bank), vec![(1, 0, 30, false), (2, 0, 0, false)]);
    assert_eq!(bank.execute_transaction((1, request(CHARGEBACK, 3))), Outcome::Applied);
    assert_eq!(snapshot(&bank), vec![(1, 0, 0, true), (2, 0, 0, false), (3, 0, 0, false)]);
}

#[test]
fn dispute_may_take_available_below_zero() {
    let mut bank = BankDatabase::default();
    bank.execute_transaction((1, deposit(1, 30)));
    bank.execute_transaction((2, withdrawal(1, 20)));
    assert_eq!(bank.execute_transaction((1, request(DISPUTE, 1))), Outcome::Applied);
    assert_eq!(snapshot(&bank), vec![(1, -20, 30, false)]);
    assert_eq!(bank.account(1).unwrap().get_total_funds(), 10);
}

#[test]
fn settlement_needs_an_open_dispute() {
    let mut bank = BankDatabase::default();
    bank.execute_transaction((1, deposit(1, 30)));
    assert_eq!(bank.execute_transaction((1, request(RESOLVE, 1))), Outcome::UndisputedResolve);
    assert_eq!(
        bank.execute_transaction((1, request(CHARGEBACK, 1))),
        Outcome::UndisputedChargeback
    );
    assert_eq!(bank.execute_transaction((9, request(RESOLVE, 1))), Outcome::UndisputedResolve);
    assert_eq!(snapshot(&bank), vec![(1, 30, 0, false)]);
}

#[test]
fn dispute_is_settled_once() {
    let mut bank = BankDatabase::default();
    bank.execute_transaction((1, deposit(1, 30)));
    bank.execute_transaction((1, request(DISPUTE, 1)));
    assert_eq!(bank.execute_transaction((1, request(RESOLVE, 1))), Outcome::Applied);
    assert_eq!(bank.execute_transaction((1, request(RESOLVE, 1))), Outcome::UndisputedResolve);
    assert_eq!(
        bank.execute_transaction((1, request(CHARGEBACK, 1))),
        Outcome::UndisputedChargeback
    );
    assert_eq!(snapshot(&bank), vec![(1, 30, 0, false)]);

    bank.execute_transaction((1, request(DISPUTE, 1)));
    assert_eq!(bank.execute_transaction((1, request(CHARGEBACK, 1))), Outcome::Applied);
    assert_eq!(bank.execute_transaction((1, request(RESOLVE, 1))), Outcome::UndisputedResolve);
    assert_eq!(
        bank.execute_transaction((1, request(CHARGEBACK, 1))),
        Outcome::UndisputedChargeback
    );
    assert_eq!(snapshot(&bank), vec![(1, 0, 0, true)]);
}

#[test]
fn frozen_account_stays_frozen() {
    let mut bank = BankDatabase::default();
    bank.execute_transaction((1, deposit(1, 30)));
    bank.execute_transaction((2, deposit(1, 40)));
    bank.execute_transaction((1, request(DISPUTE, 1)));
    bank.execute_transaction((1, request(CHARGEBACK, 1)));
    assert!(bank.account(1).unwrap().locked);
    let later = [
        (3, deposit(1, 5)),
        (4, withdrawal(1, 1)),
        (2, request(DISPUTE, 1)),
        (2, request(RESOLVE, 1)),
        (2, request(DISPUTE, 1)),
        (2, request(CHARGEBACK, 1)),
        (5, deposit(2, 5)),
        (6, withdrawal(2, 5)),
    ];
    for transaction in later {
        bank.execute_transaction(transaction);
        assert!(bank.account(1).unwrap().locked);
    }
    assert_eq!(bank.execute_transaction((7, withdrawal(1, 1))), Outcome::FrozenAccount);
    assert_eq!(snapshot(&bank), vec![(1, 5, 0, true), (2, 0, 0, false)]);
}

#[test]
fn deposit_under_a_used_identifier_replaces_the_record() {
    let mut bank = BankDatabase::default();
    bank.execute_transaction((1, deposit(1, 30)));
    bank.execute_transaction((1, deposit(2, 7)));
    assert_eq!(bank.execute_transaction((1, request(DISPUTE, 9))), Outcome::Applied);
    assert_eq!(snapshot(&bank), vec![(1, 30, 0, false), (2, 0, 7, false), (9, 0, 0, false)]);
}

#[test]
fn room_for_what_an_account_can_hold() {
    let mut bank = BankDatabase::default();
    assert!(bank.has_room_for((1, deposit(1, i64::MAX))));
    bank.execute_transaction((1, deposit(1, i64::MAX)));
    assert!(!bank.has_room_for((2, deposit(1, 1))));
    assert!(bank.has_room_for((2, deposit(1, 0))));
    assert!(bank.has_room_for((2, deposit(1, -1))));
    assert!(bank.has_room_for((2, deposit(2, 1))));
    assert!(bank.has_room_for((2, withdrawal(1, 1))));
    // A withdrawal of less than nothing adds to what is available.
    assert!(!bank.has_room_for((2, withdrawal(1, -1))));
    assert!(bank.has_room_for((1, request(DISPUTE, 3))));
    assert!(bank.has_room_for((1, request(RESOLVE, 3))));
    assert!(bank.has_room_for((1, request(CHARGEBACK, 3))));

    let mut bank = BankDatabase::default();
    bank.execute_transaction((1, deposit(1, i64::MAX)));
    bank.execute_transaction((2, withdrawal(1, i64::MAX)));
    bank.execute_transaction((3, withdrawal(1, -i64::MAX)));
    bank.execute_transaction((4, deposit(1, -2)));
    assert_eq!(snapshot(&bank), vec![(1, i64::MAX - 2, 0, false)]);
    bank.execute_transaction((5, withdrawal(1, i64::MAX - 2)));
    bank.execute_transaction((6, deposit(1, i64::MIN)));
    assert_eq!(snapshot(&bank), vec![(1, i64::MIN, 0, false)]);
    // Disputing the first deposit would take available below what can be held.
    assert!(!bank.has_room_for((1, request(DISPUTE, 1))));
    assert!(bank.has_room_for((6, request(DISPUTE, 1))));
    assert!(bank.has_room_for((1, request(RESOLVE, 1))));
}

#[test]
fn report_of_one_account() {
    let mut bank = BankDatabase::default();
    bank.execute_transaction((1, deposit(7, 15000)));
    bank.execute_transaction((2, deposit(7, 2500)));
    bank.execute_transaction((2, request(DISPUTE, 7)));
    assert_eq!(
        bank.report(),
        "client,available,held,total,locked\n7,1.5000,0.2500,1.7500,false\n"
    );
    bank.execute_transaction((2, request(CHARGEBACK, 7)));
    assert_eq!(
        bank.report(),
        "client,available,held,total,locked\n7,1.5000,0.0000,1.5000,true\n"
    );
}

#[test]
fn report_has_a_line_for_each_account() {
    let mut bank = BankDatabase::default();
    bank.execute_transaction((1, deposit(65535, 10000)));
    bank.execute_transaction((2, deposit(0, 5)));
    bank.execute_transaction((3, deposit(12, 30)));
    bank.execute_transaction((4, withdrawal(12, 20)));
    bank.execute_transaction((3, request(DISPUTE, 12)));
    let report = bank.report();
    assert!(report.ends_with('\n'));
    let mut lines: Vec<&str> = report.lines().collect();
    assert_eq!(lines.remove(0), "client,available,held,total,locked");
    lines.sort();
    assert_eq!(
        lines,
        vec![
            "0,0.0005,0.0000,0.0005,false",
            "12,-0.0020,0.0030,0.0010,false",
            "65535,1.0000,0.0000,1.0000,false",
        ]
    );
}

#[test]
fn report_adds_up_totals_beyond_an_account() {
    let mut bank = BankDatabase::default();
    bank.execute_transaction((1, deposit(1, i64::MAX)));
    bank.execute_transaction((1, request(DISPUTE, 1)));
    bank.execute_transaction((2, deposit(1, i64::MAX)));
    assert_eq!(
        bank.report(),
        "client,available,held,total,locked\n\
         1,922337203685477.5807,922337203685477.5807,1844674407370955.1614,false\n"
    );
}

#[test]
fn clients_are_listed_once() {
    let mut bank = BankDatabase::default();
    for id in 0..50u32 {
        bank.execute_transaction((id, deposit((id % 10) as u16, 1)));
    }
    let mut clients = bank.clients();
    clients.sort();
    assert_eq!(clients, vec![0, 1, 2, 3, 4, 5, 6, 7, 8, 9]);
}

#[test]
fn no_transaction_unfreezes_or_removes_an_account() {
    let mut bank = BankDatabase::default();
    bank.execute_transaction((1, deposit(1, 30)));
    bank.execute_transaction((2, deposit(2, 30)));
    bank.execute_transaction((1, request(DISPUTE, 1)));
    bank.execute_transaction((1, request(CHARGEBACK, 1)));
    let kinds = [DEPOSIT, WITHDRAWAL, DISPUTE, RESOLVE, CHARGEBACK];
    for id in 0..4u32 {
        for client in 0..4u16 {
            for kind in kinds {
                for amount in [0i64, 1, 100] {
                    let before = snapshot(&bank);
                    bank.execute_transaction((id, Transaction { kind, client, amount }));
                    let after = snapshot(&bank);
                    for (known, _, _, locked) in before {
                        let kept = after.iter().find(|account| account.0 == known).unwrap();
                        assert!(!locked || kept.3);
                    }
                    assert!(bank.account(client).is_some());
                    assert!(bank.account(1).unwrap().locked);
                }
            }
        }
    }
}
