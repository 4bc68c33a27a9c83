//! An account ledger: balances held per identified user, funds moved between
//! accounts atomically and without overdraft, behind signed identity tokens.
//!
//! - [`credential`] stores passwords as salted digests and checks them.
//! - [`token`] issues signed identity tokens and verifies presented ones.
//! - [`account`] keeps the accounts, one per identity key.
//! - [`transfer`] decides and applies transfers, each as one indivisible step.
//! - [`history`] records completed transfers per account and lists them by page.
//! - [`registration`] opens accounts for new users.
//! - [`settings`] holds the configuration and its defaults.
//! - [`text`] states what the standard library does on strings.

pub mod account;
pub mod credential;
pub mod history;
pub mod registration;
pub mod settings;
pub mod text;
pub mod token;
pub mod transfer;
