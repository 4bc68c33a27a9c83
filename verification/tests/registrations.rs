use account_ledger::account::AccountStore;
use account_ledger::credential::verify;
use account_ledger::registration::{read_creation_reply, register, DatabaseError, RegisterError};

#[test]
fn registered_user_has_an_empty_account() {
    let mut store = AccountStore::new();
    assert_eq!(register(&mut store, "ann@example.com", "Ann", "s3cret"), Ok(()));
    let account = store.read("ann@example.com").unwrap();
    assert_eq!(account.key, "ann@example.com");
    assert_eq!(account.name, "Ann");
    assert_eq!(account.balance, 0);
    assert_eq!(account.salt.len(), 16);
    assert_eq!(account.hash.len(), 32);
    assert!(verify("s3cret", &account.hash, &account.salt));
    assert!(!verify("secret", &account.hash, &account.salt));
}

#[test]
fn address_registers_once() {
    let mut store = AccountStore::new();
    assert_eq!(register(&mut store, "ann@example.com", "Ann", "first"), Ok(()));
    assert_eq!(register(&mut store, "ann@example.com", "Other", "second"), Err(RegisterError::UserExists));
    let account = store.read("ann@example.com").unwrap();
    assert_eq!(account.name, "Ann");
    assert!(verify("first", &account.hash, &account.salt));
    assert!(!verify("second", &account.hash, &account.salt));
}

#[test]
fn registration_leaves_other_accounts_alone() {
    let mut store = AccountStore::new();
    store.create("bob", 40, "Bob", vec![1], vec![2]).unwrap();
    assert_eq!(register(&mut store, "ann", "Ann", "pw"), Ok(()));
    let bob = store.read("bob").unwrap();
    assert_eq!(bob.balance, 40);
    assert_eq!(bob.hash, vec![1]);
}

#[test]
fn creation_replies_are_read() {
    assert_eq!(read_creation_reply(Ok("+OK")), Ok(()));
    assert_eq!(read_creation_reply(Ok("-KeyExists")), Err(RegisterError::UserExists));
    assert_eq!(
        read_creation_reply(Ok("+ok")),
        Err(RegisterError::DatabaseError(DatabaseError::Corrupt))
    );
    assert_eq!(read_creation_reply(Ok("")), Err(RegisterError::DatabaseError(DatabaseError::Corrupt)));
    assert_eq!(
        read_creation_reply(Ok("+OK ")),
        Err(RegisterError::DatabaseError(DatabaseError::Corrupt))
    );
}

#[test]
fn store_failures_are_handed_on() {
    assert_eq!(
        read_creation_reply(Err(DatabaseError::Unavailable)),
        Err(RegisterError::DatabaseError(DatabaseError::Unavailable))
    );
    assert_eq!(
        read_creation_reply(Err(DatabaseError::Timeout)),
        Err(RegisterError::DatabaseError(DatabaseError::Timeout))
    );
    assert_eq!(
        read_creation_reply(Err(DatabaseError::Corrupt)),
        Err(RegisterError::DatabaseError(DatabaseError::Corrupt))
    );
}
