//! Account records and the store that keeps them, one record per identity key.

use crate::transfer::{transfer_result, TransferError};
use vstd::prelude::*;

verus! {

/// An amount of money in minor units of the single implicit currency.
pub type Balance = u32;

/// One account: who it belongs to, what it holds, and the owner's credential.
#[derive(Debug)]
pub struct Account {
    /// The unique, stable identity key (an email address or a user id).
    pub key: String,
    /// The display name.
    pub name: String,
    /// The funds held.
    pub balance: Balance,
    /// The digest of the owner's password.
    pub hash: Vec<u8>,
    /// The salt that the digest was derived with.
    pub salt: Vec<u8>,
}

/// The mathematical value of an [`Account`].
pub struct AccountView {
    pub key: Seq<char>,
    pub name: Seq<char>,
    pub balance: Balance,
    pub hash: Seq<u8>,
    pub salt: Seq<u8>,
}

impl View for Account {
    type V = AccountView;

    open spec fn view(&self) -> AccountView {
        AccountView {
            key: self.key@,
            name: self.name@,
            balance: self.balance,
            hash: self.hash@,
            salt: self.salt@,
        }
    }
}

impl Clone for Account {
    fn clone(&self) -> (copy: Account)
        ensures
            copy@ == self@,
    {
        Account {
            key: self.key.clone(),
            name: self.name.clone(),
            balance: self.balance,
            hash: self.hash.clone(),
            salt: self.salt.clone(),
        }
    }
}

impl AccountView {
    /// This account with another balance.
    pub open spec fn with_balance(self, balance: Balance) -> AccountView {
        AccountView { balance, ..self }
    }
}

/// Why an account operation was refused.
#[derive(Debug, Clone, Copy, PartialEq, Eq)]
pub enum AccountError {
    /// No account is bound to the identity key.
    NotFound,
    /// The identity key is already bound to an account.
    AlreadyExists,
}

/// Why a deposit was refused.
#[derive(Debug, Clone, Copy, PartialEq, Eq)]
pub enum DepositError {
    /// No account is bound to the identity key.
    NotFound,
    /// The credit would take the balance past the largest representable amount.
    Overflow,
}

/// The accounts as a mathematical map from identity key to record.
pub type Accounts = Map<Seq<char>, AccountView>;

/// What a deposit of `amount` to `key` does to `accounts`: the new balance, or the
/// reason for which nothing changes.
pub open spec fn deposit_result(accounts: Accounts, key: Seq<char>, amount: Balance) -> Result<
    Balance,
    DepositError,
> {
    if !accounts.contains_key(key) {
        Err(DepositError::NotFound)
    } else if accounts[key].balance + amount > Balance::MAX {
        Err(DepositError::Overflow)
    } else {
        Ok((accounts[key].balance + amount) as Balance)
    }
}

/// Every account is bound to its own identity key.
pub open spec fn keyed(accounts: Accounts) -> bool {
    forall|key: Seq<char>| #[trigger] accounts.contains_key(key) ==> accounts[key].key == key
}

/// The index of the record for `key` among `records`, if there is one.
spec fn position(records: Seq<Account>, key: Seq<char>) -> Option<int> {
    if exists|i: int| 0 <= i < records.len() && records[i].key@ == key {
        Some(choose|i: int| 0 <= i < records.len() && records[i].key@ == key)
    } else {
        None
    }
}

/// No two of `records` share an identity key.
spec fn distinct_keys(records: Seq<Account>) -> bool {
    forall|i: int, j: int|
        0 <= i < records.len() && 0 <= j < records.len() && records[i].key@ == records[j].key@
            ==> i == j
}

/// The map that `records` stand for.
spec fn accounts_of(records: Seq<Account>) -> Accounts {
    Map::new(
        |key: Seq<char>| position(records, key) is Some,
        |key: Seq<char>| records[position(records, key).unwrap()]@,
    )
}

/// Among records with distinct keys, a record is found at its own index.
proof fn lemma_position_of_record(records: Seq<Account>, i: int)
    requires
        distinct_keys(records),
        0 <= i < records.len(),
    ensures
        position(records, records[i].key@) == Some(i),
        accounts_of(records).contains_key(records[i].key@),
        accounts_of(records)[records[i].key@] == records[i]@,
{
}

/// A record added under a key that was free is the one new binding of the map.
proof fn lemma_record_added(records: Seq<Account>, account: Account)
    requires
        distinct_keys(records),
        position(records, account.key@) is None,
    ensures
        distinct_keys(records.push(account)),
        accounts_of(records.push(account)) == accounts_of(records).insert(
            account.key@,
            account@,
        ),
{
    let grown = records.push(account);
    assert forall|key: Seq<char>|
        accounts_of(grown).contains_key(key) <==> #[trigger] accounts_of(records).insert(
            account.key@,
            account@,
        ).contains_key(key) by {
        if position(records, key) is Some {
            let i = position(records, key).unwrap();
            assert(grown[i].key@ == key);
        }
        if key == account.key@ {
            assert(grown[records.len() as int].key@ == key);
        }
    }
    assert forall|key: Seq<char>| #[trigger] accounts_of(grown).contains_key(key) implies accounts_of(
        grown,
    )[key] == accounts_of(records).insert(account.key@, account@)[key] by {
        let i = position(grown, key).unwrap();
        if i < records.len() {
            lemma_position_of_record(records, i);
        }
    }
}

/// A record replaced by one with the same key rebinds that key and no other.
proof fn lemma_record_replaced(records: Seq<Account>, i: int, account: Account)
    requires
        distinct_keys(records),
        0 <= i < records.len(),
        account.key@ == records[i].key@,
    ensures
        distinct_keys(records.update(i, account)),
        accounts_of(records.update(i, account)) == accounts_of(records).insert(
            account.key@,
            account@,
        ),
{
    let changed = records.update(i, account);
    assert forall|key: Seq<char>|
        accounts_of(changed).contains_key(key) <==> #[trigger] accounts_of(records).insert(
            account.key@,
            account@,
        ).contains_key(key) by {
        if position(records, key) is Some {
            let j = position(records, key).unwrap();
            assert(changed[j].key@ == key);
        }
    }
    assert forall|key: Seq<char>| #[trigger] accounts_of(changed).contains_key(key) implies accounts_of(
        changed,
    )[key] == accounts_of(records).insert(account.key@, account@)[key] by {
        let j = position(changed, key).unwrap();
        lemma_position_of_record(records, j);
    }
}

/// The store of accounts. Every operation on it is one indivisible step: it holds the
/// store exclusively from its first read to its last write.
pub struct AccountStore {
    records: Vec<Account>,
}

impl View for AccountStore {
    type V = Accounts;

    closed spec fn view(&self) -> Accounts {
        accounts_of(self.records@)
    }
}

impl AccountStore {
    /// The store's invariant: no identity key is bound twice.
    pub closed spec fn wf(&self) -> bool {
        distinct_keys(self.records@)
    }

    /// In a well-formed store every account is bound to its own identity key.
    pub proof fn lemma_keyed(&self)
        requires
            self.wf(),
        ensures
            keyed(self@),
    {
    }

    /// A store without accounts.
    pub fn new() -> (store: AccountStore)
        ensures
            store.wf(),
            store@ == Map::<Seq<char>, AccountView>::empty(),
    {
        AccountStore { records: Vec::new() }
    }

    /// Where the record for `key` lies.
    fn find(&self, key: &str) -> (found: Option<usize>)
        requires
            self.wf(),
        ensures
            match found {
                Some(i) => i < self.records.len() && position(self.records@, key@) == Some(
                    i as int,
                ),
                None => position(self.records@, key@) is None,
            },
    {
        let mut i: usize = 0;
        while i < self.records.len()
            invariant
                i <= self.records.len(),
                distinct_keys(self.records@),
                forall|j: int| 0 <= j < i ==> self.records[j].key@ != key@,
            decreases self.records.len() - i,
        {
            if *self.records[i].key.as_str() == *key {
                proof {
                    lemma_position_of_record(self.records@, i as int);
                }
                return Some(i);
            }
            i += 1;
        }
        None
    }

    /// Whether an account is bound to `key`.
    pub fn contains(&self, key: &str) -> (found: bool)
        requires
            self.wf(),
        ensures
            found == self@.contains_key(key@),
    {
        self.find(key).is_some()
    }

    /// Binds `key` to a new account, unless an account is bound to it already. The
    /// test and the write are one step.
    pub fn create(
        &mut self,
        key: &str,
        initial_balance: Balance,
        name: &str,
        hash: Vec<u8>,
        salt: Vec<u8>,
    ) -> (r: Result<(), AccountError>)
        requires
            old(self).wf(),
        ensures
            final(self).wf(),
            match r {
                Ok(()) => !old(self)@.contains_key(key@) && final(self)@ == old(self)@.insert(
                    key@,
                    (AccountView {
                        key: key@,
                        name: name@,
                        balance: initial_balance,
                        hash: hash@,
                        salt: salt@,
                    }),
                ),
                Err(e) => e == AccountError::AlreadyExists && old(self)@.contains_key(key@)
                    && final(self)@ == old(self)@,
            },
    {
        match self.find(key) {
            Some(_) => Err(AccountError::AlreadyExists),
            None => {
                let account = Account {
                    key: key.to_owned(),
                    name: name.to_owned(),
                    balance: initial_balance,
                    hash,
                    salt,
                };
                proof {
                    lemma_record_added(self.records@, account);
                }
                self.records.push(account);
                Ok(())
            },
        }
    }

    /// Credits `amount` to the account bound to `key` and returns the new balance. A
    /// credit that would pass the largest representable balance changes nothing.
    pub fn deposit(&mut self, key: &str, amount: Balance) -> (r: Result<Balance, DepositError>)
        requires
            old(self).wf(),
        ensures
            final(self).wf(),
            r == deposit_result(old(self)@, key@, amount),
            match r {
                Ok(balance) => final(self)@ == old(self)@.insert(
                    key@,
                    old(self)@[key@].with_balance(balance),
                ),
                Err(_) => final(self)@ == old(self)@,
            },
    {
        match self.find(key) {
            None => Err(DepositError::NotFound),
            Some(i) => {
                proof {
                    lemma_position_of_record(self.records@, i as int);
                }
                match self.records[i].balance.checked_add(amount) {
                    None => Err(DepositError::Overflow),
                    Some(balance) => {
                        self.set_balance(i, balance);
                        Ok(balance)
                    },
                }
            },
        }
    }

    /// The indivisible step of a transfer between two different accounts: decides it on
    /// the balances as they are, and debits the source and credits the target, or
    /// changes nothing. Returns the balances of source and target after the step.
    pub(crate) fn move_funds(&mut self, source: &str, target: &str, amount: Balance) -> (r: Result<
        (Balance, Balance),
        TransferError,
    >)
        requires
            old(self).wf(),
            amount > 0,
            source@ != target@,
        ensures
            final(self).wf(),
            match transfer_result(old(self)@, source@, target@, amount) {
                Err(refusal) => r == Err::<(Balance, Balance), TransferError>(refusal)
                    && final(self)@ == old(self)@,
                Ok(accounts) => final(self)@ == accounts && r == Ok::<
                    (Balance, Balance),
                    TransferError,
                >((accounts[source@].balance, accounts[target@].balance)),
            },
    {
        let from = match self.find(source) {
            Some(i) => i,
            None => { return Err(TransferError::SourceNotFound); },
        };
        proof {
            lemma_position_of_record(self.records@, from as int);
        }
        if self.records[from].balance < amount {
            return Err(TransferError::InsufficientFunds);
        }
        let to = match self.find(target) {
            Some(i) => i,
            None => { return Err(TransferError::TargetNotFound); },
        };
        proof {
            lemma_position_of_record(self.records@, to as int);
        }
        let credited = match self.records[to].balance.checked_add(amount) {
            Some(balance) => balance,
            None => { return Err(TransferError::AmountOverflow); },
        };
        let debited = self.records[from].balance - amount;
        self.set_balance(from, debited);
        self.set_balance(to, credited);
        Ok((debited, credited))
    }

    /// Gives the record at `i` the balance `balance`.
    fn set_balance(&mut self, i: usize, balance: Balance)
        requires
            old(self).wf(),
            i < old(self).records.len(),
        ensures
            final(self).wf(),
            final(self).records.len() == old(self).records.len(),
            final(self)@ == old(self)@.insert(
                old(self).records[i as int].key@,
                old(self).records[i as int]@.with_balance(balance),
            ),
            forall|j: int|
                0 <= j < old(self).records.len() ==> #[trigger] final(self).records[j].key@ == old(
                    self,
                ).records[j].key@,
            forall|j: int|
                0 <= j < old(self).records.len() && j != i ==> #[trigger] final(self).records[j]
                    == old(self).records[j],
            final(self).records[i as int].balance == balance,
    {
        let ghost before = self.records@;
        self.records[i].balance = balance;
        proof {
            lemma_record_replaced(before, i as int, self.records[i as int]);
            lemma_position_of_record(before, i as int);
        }
    }

    /// The account bound to `key`.
    pub fn read(&self, key: &str) -> (r: Result<&Account, AccountError>)
        requires
            self.wf(),
        ensures
            match r {
                Ok(account) => self@.contains_key(key@) && account@ == self@[key@],
                Err(e) => !self@.contains_key(key@) && e == AccountError::NotFound,
            },
    {
        match self.find(key) {
            Some(i) => Ok(&self.records[i]),
            None => Err(AccountError::NotFound),
        }
    }
}

} // verus!
