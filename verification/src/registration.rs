//! Registration: a new user gets an account with no funds, bound to the user's email
//! address, and the password is kept in its stored form only.

use crate::account::{AccountStore, Accounts};
use crate::credential::{hash, is_credential_of, DIGEST_LEN, SALT_LEN};
use vstd::prelude::*;

verus! {

/// Why the store could not complete an operation.
#[derive(Debug, Clone, Copy, PartialEq, Eq)]
pub enum DatabaseError {
    /// The store could not be reached.
    Unavailable,
    /// The store did not answer in time.
    Timeout,
    /// The store answered with something that is no answer to the request.
    Corrupt,
}

/// Why a registration was refused.
#[derive(Debug, Clone, Copy, PartialEq, Eq)]
pub enum RegisterError {
    /// An account is already bound to the email address.
    UserExists,
    /// The store failed; the failure is handed on as it came.
    DatabaseError(DatabaseError),
}

/// Whether `after` is `before` with one account more: the account of `email`, named
/// `name`, without funds, whose credential is a stored form of `key`.
pub open spec fn registered(
    before: Accounts,
    after: Accounts,
    email: Seq<char>,
    name: Seq<char>,
    key: Seq<char>,
) -> bool {
    &&& after.contains_key(email)
    &&& after == before.insert(email, after[email])
    &&& after[email].key == email
    &&& after[email].name == name
    &&& after[email].balance == 0
    &&& after[email].salt.len() == SALT_LEN
    &&& after[email].hash.len() == DIGEST_LEN
    &&& is_credential_of(key, after[email].hash, after[email].salt)
}

/// Registers the user of `email`: derives the stored form of the password `key` and
/// creates the account, unless the address has an account already.
pub fn register(store: &mut AccountStore, email: &str, name: &str, key: &str) -> (r: Result<
    (),
    RegisterError,
>)
    requires
        old(store).wf(),
    ensures
        final(store).wf(),
        old(store)@.contains_key(email@) ==> r == Err::<(), RegisterError>(
            RegisterError::UserExists,
        ) && final(store)@ == old(store)@,
        !old(store)@.contains_key(email@) ==> r is Ok && registered(
            old(store)@,
            final(store)@,
            email@,
            name@,
            key@,
        ),
{
    let credential = hash(key);
    match store.create(email, 0, name, credential.digest, credential.salt) {
        Ok(()) => Ok(()),
        Err(_) => Err(RegisterError::UserExists),
    }
}

/// What a remote store's answer to the creation of an account means.
pub open spec fn creation_outcome(reply: Result<Seq<char>, DatabaseError>) -> Result<
    (),
    RegisterError,
> {
    match reply {
        Err(failure) => Err(RegisterError::DatabaseError(failure)),
        Ok(status) => if status == "+OK"@ {
            Ok(())
        } else if status == "-KeyExists"@ {
            Err(RegisterError::UserExists)
        } else {
            Err(RegisterError::DatabaseError(DatabaseError::Corrupt))
        },
    }
}

/// The status that a remote store sent, if it sent one.
pub open spec fn reply_text(reply: Result<&str, DatabaseError>) -> Result<Seq<char>, DatabaseError> {
    match reply {
        Ok(status) => Ok(status@),
        Err(failure) => Err(failure),
    }
}

/// Reads the answer of a remote store that creates accounts by one command: `+OK` says
/// that the account was created, `-KeyExists` that the key was bound already. Any
/// other status is no answer to that command, and a failure of the store is handed on
/// unchanged.
pub fn read_creation_reply(reply: Result<&str, DatabaseError>) -> (r: Result<(), RegisterError>)
    ensures
        r == creation_outcome(reply_text(reply)),
{
    match reply {
        Err(failure) => Err(RegisterError::DatabaseError(failure)),
        Ok(status) => {
            if *status == *"+OK" {
                Ok(())
            } else if *status == *"-KeyExists" {
                Err(RegisterError::UserExists)
            } else {
                Err(RegisterError::DatabaseError(DatabaseError::Corrupt))
            }
        },
    }
}

} // verus!
