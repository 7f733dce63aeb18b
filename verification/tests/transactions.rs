use ledger_engine::bank::Account;
use ledger_engine::ledger::{DepositRecord, Outcome};
use ledger_engine::transactions::{DeserializedTransaction, Transaction, TransactionType};

fn record(kind: TransactionType, client: u16, tx: u32, amount: &str) -> DeserializedTransaction {
    DeserializedTransaction { kind, client, tx, amount: amount.to_string() }
}

#[test]
fn record_with_an_amount_becomes_a_transaction() {
    let (id, transaction) =
        record(TransactionType::DEPOSIT, 7, 42, "12.5").into_transaction().unwrap();
    assert_eq!(id, 42);
    assert_eq!(transaction.kind, TransactionType::DEPOSIT);
    assert_eq!(transaction.client, 7);
    assert_eq!(transaction.amount, 125000);
}

#[test]
fn record_keeps_its_kind() {
    let kinds = [
        TransactionType::DEPOSIT,
        TransactionType::WITHDRAWAL,
        TransactionType::DISPUTE,
        TransactionType::RESOLVE,
        TransactionType::CHARGEBACK,
    ];
    for kind in kinds {
        let (id, transaction) = record(kind, 65535, 4294967295, "0.0001").into_transaction().unwrap();
        assert_eq!(id, 4294967295);
        assert_eq!(transaction.kind, kind);
        assert_eq!(transaction.client, 65535);
        assert_eq!(transaction.amount, 1);
    }
}

#[test]
fn record_without_an_amount_is_refused() {
    let refused = record(TransactionType::DISPUTE, 1, 1, "").into_transaction();
    assert_eq!(
        refused.err(),
        Some("Amount contains more than one dot or less than one dot")
    );
    let refused = record(TransactionType::DEPOSIT, 1, 1, "-3.0").into_transaction();
    assert_eq!(refused.err(), Some("Invalid amount: negative"));
    let refused = record(TransactionType::DEPOSIT, 1, 1, "-0.5").into_transaction();
    assert_eq!(refused.err(), Some("Invalid amount: negative"));
    let refused = record(TransactionType::DEPOSIT, 1, 1, "3.00001").into_transaction();
    assert_eq!(
        refused.err(),
        Some("Provided amount exceeds asserted 4 digits past point fixed point precision")
    );
    let refused = record(TransactionType::WITHDRAWAL, 1, 1, "three.0").into_transaction();
    assert_eq!(refused.err(), Some("Invalid amount: not a decimal number"));
    let refused = record(TransactionType::WITHDRAWAL, 1, 1, "922337203685478.0").into_transaction();
    assert_eq!(refused.err(), Some("Invalid amount: too large"));
}

#[test]
fn deposit_record_of_a_deposit() {
    let deposit = Transaction { kind: TransactionType::DEPOSIT, client: 3, amount: 77 };
    let record = DepositRecord::try_from(deposit).unwrap();
    assert_eq!(record.client, 3);
    assert_eq!(record.amount, 77);
}

#[test]
fn deposit_record_of_anything_else_is_refused() {
    let kinds = [
        TransactionType::WITHDRAWAL,
        TransactionType::DISPUTE,
        TransactionType::RESOLVE,
        TransactionType::CHARGEBACK,
    ];
    for kind in kinds {
        let transaction = Transaction { kind, client: 3, amount: 77 };
        assert_eq!(
            DepositRecord::try_from(transaction).err(),
            Some("Transaction is not a deposit")
        );
    }
}

#[test]
fn total_funds_are_available_and_held() {
    let account = Account { available_funds: 15000, held_funds: 2500, locked: false };
    assert_eq!(account.get_total_funds(), 17500);
    let account = Account { available_funds: -15000, held_funds: 2500, locked: true };
    assert_eq!(account.get_total_funds(), -12500);
    let account = Account { available_funds: i64::MAX, held_funds: i64::MIN, locked: true };
    assert_eq!(account.get_total_funds(), -1);
}

#[test]
fn new_account_is_empty() {
    let account = Account::default();
    assert_eq!(account.available_funds, 0);
    assert_eq!(account.held_funds, 0);
    assert!(!account.locked);
    assert_eq!(account.get_total_funds(), 0);
}

#[test]
fn warnings_of_the_outcomes() {
    assert_eq!(Outcome::Applied.warning(), None);
    assert_eq!(
        Outcome::FrozenAccount.warning(),
        Some("Error: Withdrawal attempted on frozen account")
    );
    assert_eq!(
        Outcome::InsufficientFunds.warning(),
        Some("Error: withdrawal bigger than available funds")
    );
    assert_eq!(
        Outcome::DuplicateDispute.warning(),
        Some("Warning: Dropped duplicate dispute claim")
    );
    assert_eq!(
        Outcome::UnknownTransaction.warning(),
        Some("Warning: Dropped dispute with invalid tx id")
    );
    assert_eq!(
        Outcome::UndisputedResolve.warning(),
        Some("Warning: Dropped dispute resolve with undisputed tx")
    );
    assert_eq!(
        Outcome::UndisputedChargeback.warning(),
        Some("Warning: Dropped chargeback with undisputed tx")
    );
}

#[test]
fn line_is_appended_to_what_is_there() {
    let mut text = String::from("so far\n");
    let account = Account { available_funds: -5000, held_funds: 12345, locked: true };
    ledger_engine::report::push_line(&mut text, 42, &account);
    assert_eq!(text, "so far\n42,-0.5000,1.2345,0.7345,true\n");
    let account = Account { available_funds: i64::MIN, held_funds: i64::MIN, locked: false };
    ledger_engine::report::push_line(&mut text, 0, &account);
    assert_eq!(
        text,
        "so far\n42,-0.5000,1.2345,0.7345,true\n\
         0,-922337203685477.5808,-922337203685477.5808,-1844674407370955.1616,false\n"
    );
}
