//! The text that reports the accounts: a header, then a line for each client.

use vstd::prelude::*;
use crate::bank::Account;
use crate::fixedpoint::{amount_text, decimal_text, push_amount, push_decimal};
use crate::ledger::{Balance, Ledger};

verus! {

/// The first line of a report, which names the columns.
pub open spec fn header_text() -> Seq<char> {
    "client,available,held,total,locked\n"@
}

/// How a report writes whether an account is frozen.
pub open spec fn locked_text(locked: bool) -> Seq<char> {
    if locked {
        "true"@
    } else {
        "false"@
    }
}

/// The line that reports the balance of `client`: the client, what is
/// available, what is held, their sum, and whether the account is frozen,
/// with commas between them and a line feed at the end.
pub open spec fn line_text(client: u16, balance: Balance) -> Seq<char> {
    decimal_text(client as nat) + ","@ + amount_text(balance.available) + ","@ + amount_text(
        balance.held,
    ) + ","@ + amount_text(balance.total()) + ","@ + locked_text(balance.locked) + "\n"@
}

/// The lines that report the clients of `order`, one after the other.
pub open spec fn lines_text(ledger: Ledger, order: Seq<u16>) -> Seq<char>
    decreases order.len(),
{
    if order.len() == 0 {
        Seq::empty()
    } else {
        lines_text(ledger, order.drop_last()) + line_text(
            order.last(),
            ledger.balance(order.last()),
        )
    }
}

/// Whether `order` names every client that has an account, each once.
pub open spec fn lists_accounts(ledger: Ledger, order: Seq<u16>) -> bool {
    &&& order.no_duplicates()
    &&& forall|client: u16| order.contains(client) <==> ledger.accounts.contains_key(client)
}

/// Appends to `out` the line that reports `client`.
pub fn push_line(out: &mut String, client: u16, account: &Account)
    ensures
        final(out)@ == old(out)@ + line_text(client, account@),
{
    let ghost before = out@;
    let ghost balance = account@;
    push_decimal(out, client as u128);
    let ghost line = decimal_text(client as nat);
    assert(out@ == before + line);
    out.append(",");
    assert(out@ =~= before + (line + ","@));
    let ghost line = line + ","@;
    push_amount(out, account.available_funds as i128);
    assert(out@ =~= before + (line + amount_text(balance.available)));
    let ghost line = line + amount_text(balance.available);
    out.append(",");
    assert(out@ =~= before + (line + ","@));
    let ghost line = line + ","@;
    push_amount(out, account.held_funds as i128);
    assert(out@ =~= before + (line + amount_text(balance.held)));
    let ghost line = line + amount_text(balance.held);
    out.append(",");
    assert(out@ =~= before + (line + ","@));
    let ghost line = line + ","@;
    push_amount(out, account.available_funds as i128 + account.held_funds as i128);
    assert(out@ =~= before + (line + amount_text(balance.total())));
    let ghost line = line + amount_text(balance.total());
    out.append(",");
    assert(out@ =~= before + (line + ","@));
    let ghost line = line + ","@;
    out.append(
        if account.locked {
            "true"
        } else {
            "false"
        },
    );
    assert(out@ =~= before + (line + locked_text(balance.locked)));
    let ghost line = line + locked_text(balance.locked);
    out.append("\n");
    assert(out@ =~= before + (line + "\n"@));
}

} // verus!
