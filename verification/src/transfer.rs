//! Transfers between accounts: the rule that decides one, and the engine that
//! applies it to the store as one indivisible step.

use crate::account::{AccountStore, Accounts, Balance};
use crate::history::{appended, history_of, Histories, LedgerHistory};
use vstd::prelude::*;

verus! {

/// A movement of funds from one account to another.
#[derive(Debug)]
pub struct Transfer {
    /// The identity key of the account that pays.
    pub source: String,
    /// The identity key of the account that is paid.
    pub target: String,
    /// The amount moved.
    pub amount: Balance,
}

/// The mathematical value of a [`Transfer`].
pub struct TransferView {
    pub source: Seq<char>,
    pub target: Seq<char>,
    pub amount: Balance,
}

impl View for Transfer {
    type V = TransferView;

    open spec fn view(&self) -> TransferView {
        TransferView { source: self.source@, target: self.target@, amount: self.amount }
    }
}

impl Clone for Transfer {
    fn clone(&self) -> (copy: Transfer)
        ensures
            copy@ == self@,
    {
        Transfer { source: self.source.clone(), target: self.target.clone(), amount: self.amount }
    }
}

/// Why a transfer was refused. A refused transfer changes nothing.
#[derive(Debug, Clone, Copy, PartialEq, Eq)]
pub enum TransferError {
    /// No account is bound to the source key.
    SourceNotFound,
    /// No account is bound to the target key.
    TargetNotFound,
    /// The source holds less than the amount.
    InsufficientFunds,
    /// Source and target are the same account.
    SameAccount,
    /// The amount is zero.
    InvalidAmount,
    /// The credit would take the target past the largest representable balance.
    AmountOverflow,
}

/// What a completed transfer left behind.
#[derive(Debug, Clone, Copy, PartialEq, Eq)]
pub struct TransferReceipt {
    /// The source's balance after the transfer.
    pub source_balance: Balance,
    /// The target's balance after the transfer.
    pub target_balance: Balance,
    /// The sequence number of the entry in the source's history, or `None` where the
    /// entry could not be recorded.
    pub source_entry: Option<u64>,
    /// The sequence number of the entry in the target's history, or `None` where the
    /// entry could not be recorded.
    pub target_entry: Option<u64>,
}

/// The rule of the transfer: the accounts as the transfer of `amount` from `source` to
/// `target` leaves them, or the reason for which it is refused. The tests come in a
/// fixed order, so that each input has one outcome.
pub open spec fn transfer_result(
    accounts: Accounts,
    source: Seq<char>,
    target: Seq<char>,
    amount: Balance,
) -> Result<Accounts, TransferError> {
    if amount == 0 {
        Err(TransferError::InvalidAmount)
    } else if source == target {
        Err(TransferError::SameAccount)
    } else if !accounts.contains_key(source) {
        Err(TransferError::SourceNotFound)
    } else if accounts[source].balance < amount {
        Err(TransferError::InsufficientFunds)
    } else if !accounts.contains_key(target) {
        Err(TransferError::TargetNotFound)
    } else if accounts[target].balance + amount > Balance::MAX {
        Err(TransferError::AmountOverflow)
    } else {
        Ok(
            accounts.insert(
                source,
                accounts[source].with_balance((accounts[source].balance - amount) as Balance),
            ).insert(
                target,
                accounts[target].with_balance((accounts[target].balance + amount) as Balance),
            ),
        )
    }
}

/// The histories after the attempt to record `transfer` for `key`: with the new entry,
/// or unchanged where no sequence number is left.
pub open spec fn recorded(
    histories: Histories,
    key: Seq<char>,
    timestamp: u64,
    transfer: TransferView,
) -> Histories {
    match appended(histories, key, timestamp, transfer) {
        Some(grown) => grown,
        None => histories,
    }
}

/// The sequence number that the next entry for `key` gets, where one is left.
pub open spec fn next_sequence(histories: Histories, key: Seq<char>) -> Option<u64> {
    if history_of(histories, key).len() < u64::MAX {
        Some((history_of(histories, key).len() + 1) as u64)
    } else {
        None
    }
}

/// Moves `amount` from the account of `source` to the account of `target` and records
/// the transfer, completed at `timestamp`, in the histories of both.
///
/// The decision and the change of both balances are one step on the store: the
/// transfer is refused, and nothing at all changes, or both balances change together.
/// A completed transfer stays completed where an entry cannot be recorded; the receipt
/// then says which entry is missing.
pub fn execute(
    store: &mut AccountStore,
    history: &mut LedgerHistory,
    source: &str,
    target: &str,
    amount: Balance,
    timestamp: u64,
) -> (r: Result<TransferReceipt, TransferError>)
    requires
        old(store).wf(),
        old(history).wf(),
    ensures
        final(store).wf(),
        final(history).wf(),
        final(store)@ == accounts_after(old(store)@, source@, target@, amount),
        match transfer_result(old(store)@, source@, target@, amount) {
            Err(refusal) => {
                &&& r == Err::<TransferReceipt, TransferError>(refusal)
                &&& final(store)@ == old(store)@
                &&& final(history)@ == old(history)@
            },
            Ok(accounts) => {
                let transfer = TransferView { source: source@, target: target@, amount };
                let first = recorded(old(history)@, source@, timestamp, transfer);
                &&& final(store)@ == accounts
                &&& final(history)@ == recorded(first, target@, timestamp, transfer)
                &&& r == Ok::<TransferReceipt, TransferError>(
                    TransferReceipt {
                        source_balance: accounts[source@].balance,
                        target_balance: accounts[target@].balance,
                        source_entry: next_sequence(old(history)@, source@),
                        target_entry: next_sequence(first, target@),
                    },
                )
            },
        },
{
    if amount == 0 {
        return Err(TransferError::InvalidAmount);
    }
    if *source == *target {
        return Err(TransferError::SameAccount);
    }
    let (source_balance, target_balance) = store.move_funds(source, target, amount)?;
    let transfer = Transfer { source: source.to_owned(), target: target.to_owned(), amount };
    let source_entry = match history.append(source, timestamp, &transfer) {
        Ok(sequence) => Some(sequence),
        Err(_) => None,
    };
    let target_entry = match history.append(target, timestamp, &transfer) {
        Ok(sequence) => Some(sequence),
        Err(_) => None,
    };
    Ok(TransferReceipt { source_balance, target_balance, source_entry, target_entry })
}

/// The accounts after the attempt to move `amount` from `source` to `target`: as the
/// transfer leaves them, or unchanged where it is refused.
pub open spec fn accounts_after(
    accounts: Accounts,
    source: Seq<char>,
    target: Seq<char>,
    amount: Balance,
) -> Accounts {
    match transfer_result(accounts, source, target, amount) {
        Ok(changed) => changed,
        Err(_) => accounts,
    }
}

/// A completed transfer takes exactly the amount from the source and gives exactly
/// the amount to the target: the sum of the two balances is what it was, and no other
/// account is touched.
pub proof fn lemma_transfer_conserves(
    accounts: Accounts,
    source: Seq<char>,
    target: Seq<char>,
    amount: Balance,
)
    requires
        transfer_result(accounts, source, target, amount) is Ok,
    ensures
        amount > 0,
        source != target,
        accounts.contains_key(source),
        accounts.contains_key(target),
        ({
            let after = accounts_after(accounts, source, target, amount);
            &&& after.dom() == accounts.dom()
            &&& after[source].balance == accounts[source].balance - amount
            &&& after[target].balance == accounts[target].balance + amount
            &&& after[source].balance + after[target].balance == accounts[source].balance
                + accounts[target].balance
            &&& after[source] == accounts[source].with_balance(after[source].balance)
            &&& after[target] == accounts[target].with_balance(after[target].balance)
            &&& forall|key: Seq<char>|
                key != source && key != target && accounts.contains_key(key) ==> after[key]
                    == accounts[key]
        }),
{
}

/// A transfer of more than the source holds is refused for insufficient funds, and
/// leaves every balance as it was.
pub proof fn lemma_overdraft_refused(
    accounts: Accounts,
    source: Seq<char>,
    target: Seq<char>,
    amount: Balance,
)
    requires
        accounts.contains_key(source),
        source != target,
        amount > accounts[source].balance,
    ensures
        transfer_result(accounts, source, target, amount) == Err::<Accounts, TransferError>(
            TransferError::InsufficientFunds,
        ),
        accounts_after(accounts, source, target, amount) == accounts,
{
}

/// The accounts after the attempts to make `transfers`, one after the other.
pub open spec fn accounts_after_all(accounts: Accounts, transfers: Seq<TransferView>) -> Accounts
    decreases transfers.len(),
{
    if transfers.len() == 0 {
        accounts
    } else {
        let last = transfers.last();
        accounts_after(
            accounts_after_all(accounts, transfers.drop_last()),
            last.source,
            last.target,
            last.amount,
        )
    }
}

/// Whether the last of `transfers` completes when they are attempted one after the
/// other.
pub open spec fn last_completes(accounts: Accounts, transfers: Seq<TransferView>) -> bool
    recommends
        transfers.len() > 0,
{
    let last = transfers.last();
    transfer_result(
        accounts_after_all(accounts, transfers.drop_last()),
        last.source,
        last.target,
        last.amount,
    ) is Ok
}

/// The sum of the amounts of `transfers`.
pub open spec fn total(transfers: Seq<TransferView>) -> nat
    decreases transfers.len(),
{
    if transfers.len() == 0 {
        0
    } else {
        (total(transfers.drop_last()) + transfers.last().amount) as nat
    }
}

/// The sum of the amounts of those of `transfers` that complete when they are
/// attempted one after the other.
pub open spec fn completed_total(accounts: Accounts, transfers: Seq<TransferView>) -> nat
    decreases transfers.len(),
{
    if transfers.len() == 0 {
        0
    } else if last_completes(accounts, transfers) {
        (completed_total(accounts, transfers.drop_last()) + transfers.last().amount) as nat
    } else {
        completed_total(accounts, transfers.drop_last())
    }
}

/// Whether `transfers` all pay from `source` to accounts that exist, other than
/// `source`, none of which they can take past the largest representable balance.
pub open spec fn pay_from(accounts: Accounts, source: Seq<char>, transfers: Seq<TransferView>) -> bool {
    &&& accounts.contains_key(source)
    &&& forall|i: int|
        0 <= i < transfers.len() ==> {
            let transfer = #[trigger] transfers[i];
            &&& transfer.source == source
            &&& transfer.target != source
            &&& transfer.amount > 0
            &&& accounts.contains_key(transfer.target)
            &&& accounts[transfer.target].balance + total(transfers) <= Balance::MAX
        }
}

/// The first `count` of the transfers sum to no more than all of them.
proof fn lemma_total_of_first(transfers: Seq<TransferView>, count: int)
    requires
        0 <= count <= transfers.len(),
    ensures
        total(transfers.take(count)) <= total(transfers),
    decreases transfers.len(),
{
    if count == transfers.len() {
        assert(transfers.take(count) =~= transfers);
    } else {
        let earlier = transfers.drop_last();
        assert(transfers.take(count) =~= earlier.take(count));
        lemma_total_of_first(earlier, count);
    }
}

/// What holds of transfers from one source holds of the first `count` of them.
proof fn lemma_first_pay_from(
    accounts: Accounts,
    source: Seq<char>,
    transfers: Seq<TransferView>,
    count: int,
)
    requires
        pay_from(accounts, source, transfers),
        0 <= count <= transfers.len(),
    ensures
        pay_from(accounts, source, transfers.take(count)),
{
    let first = transfers.take(count);
    lemma_total_of_first(transfers, count);
    assert forall|i: int| 0 <= i < first.len() implies {
        let transfer = #[trigger] first[i];
        &&& transfer.source == source
        &&& transfer.target != source
        &&& transfer.amount > 0
        &&& accounts.contains_key(transfer.target)
        &&& accounts[transfer.target].balance + total(first) <= Balance::MAX
    } by {
    }
}

/// Transfers from one source never overdraw it and count no transfer twice. Whatever
/// the order in which they reach the store, the store takes them one after the other;
/// so let `transfers` be that order. Then the source ends with what it had less the
/// amounts of the transfers that completed, and every other account with no less than
/// it had and no more than it had plus those amounts. The last of them completes where
/// the source holds its amount at its turn, and is refused for insufficient funds
/// where it does not. And where the source holds enough for all of them together, as
/// when their amounts sum to exactly its balance, all of them complete.
pub proof fn lemma_transfers_from_one_source(
    accounts: Accounts,
    source: Seq<char>,
    transfers: Seq<TransferView>,
)
    requires
        pay_from(accounts, source, transfers),
    ensures
        ({
            let after = accounts_after_all(accounts, transfers);
            &&& after.dom() == accounts.dom()
            &&& completed_total(accounts, transfers) <= total(transfers)
            &&& completed_total(accounts, transfers) <= accounts[source].balance
            &&& after[source].balance == accounts[source].balance - completed_total(
                accounts,
                transfers,
            )
            &&& forall|key: Seq<char>|
                key != source && accounts.contains_key(key) ==> accounts[key].balance <= (
                #[trigger] after[key]).balance <= accounts[key].balance + completed_total(
                    accounts,
                    transfers,
                )
        }),
        transfers.len() > 0 ==> ({
            let before = accounts_after_all(accounts, transfers.drop_last());
            let last = transfers.last();
            let result = transfer_result(before, last.source, last.target, last.amount);
            &&& last.amount <= before[source].balance ==> result is Ok
            &&& last.amount > before[source].balance ==> result == Err::<Accounts, TransferError>(
                TransferError::InsufficientFunds,
            )
        }),
        total(transfers) <= accounts[source].balance ==> completed_total(accounts, transfers)
            == total(transfers),
    decreases transfers.len(),
{
    if transfers.len() > 0 {
        let earlier = transfers.drop_last();
        let last = transfers.last();
        lemma_first_pay_from(accounts, source, transfers, transfers.len() - 1);
        lemma_transfers_from_one_source(accounts, source, earlier);
        let before = accounts_after_all(accounts, earlier);
        if transfer_result(before, last.source, last.target, last.amount) is Ok {
            lemma_transfer_conserves(before, last.source, last.target, last.amount);
        }
    }
}

/// Among transfers from one source, each is decided on what the source holds at its
/// turn, which is never more than the source had: it completes where the source holds
/// its amount, and is refused for insufficient funds where it does not.
pub proof fn lemma_turn_of_each(
    accounts: Accounts,
    source: Seq<char>,
    transfers: Seq<TransferView>,
    turn: int,
)
    requires
        pay_from(accounts, source, transfers),
        0 <= turn < transfers.len(),
    ensures
        ({
            let before = accounts_after_all(accounts, transfers.take(turn));
            let transfer = transfers[turn];
            let result = transfer_result(
                before,
                transfer.source,
                transfer.target,
                transfer.amount,
            );
            &&& before[source].balance <= accounts[source].balance
            &&& transfer.amount <= before[source].balance ==> result is Ok
            &&& transfer.amount > before[source].balance ==> result == Err::<
                Accounts,
                TransferError,
            >(TransferError::InsufficientFunds)
        }),
{
    let first = transfers.take(turn + 1);
    lemma_first_pay_from(accounts, source, transfers, turn + 1);
    assert(first.drop_last() =~= transfers.take(turn));
    lemma_transfers_from_one_source(accounts, source, first);
    lemma_first_pay_from(accounts, source, transfers, turn);
    lemma_transfers_from_one_source(accounts, source, transfers.take(turn));
}

} // verus!
