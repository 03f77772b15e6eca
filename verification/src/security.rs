//! Secrets (the Bark device key and encryption key) in the system
//! credential store.

use vstd::prelude::*;
use crate::error::{CoreError, CoreResult};

verus! {

/// The credential store service under which the secrets are kept.
pub const SERVICE: &'static str = "com.xiiiing.codex-notify";

/// The account of the Bark device key.
pub const BARK_KEY_ACCOUNT: &'static str = "bark-device-key";

/// The account of the Bark encryption key.
pub const ENCRYPTION_KEY_ACCOUNT: &'static str = "bark-encryption-key";

#[verifier::external_type_specification]
#[verifier::external_body]
pub struct ExEntry(keyring::Entry);

/// How a credential store operation failed: no credential is stored, or
/// another failure, with its message.
pub enum StoreFailure {
    NoEntry,
    Failed(String),
}

/// Calls `keyring::Entry::new`; whether the platform's store can be used
/// depends on the machine, so nothing is stated of the outcome.
#[verifier::external_body]
fn new_entry(service: &str, account: &str) -> (r: Result<keyring::Entry, String>) {
    keyring::Entry::new(service, account).map_err(|error| error.to_string())
}

/// Calls `keyring::Entry::get_password`; what is stored is outside the
/// program, so nothing is stated of the outcome.
#[verifier::external_body]
fn stored_password(entry: &keyring::Entry) -> (r: Result<String, StoreFailure>) {
    match entry.get_password() {
        Ok(value) => Ok(value),
        Err(keyring::Error::NoEntry) => Err(StoreFailure::NoEntry),
        Err(error) => Err(StoreFailure::Failed(error.to_string())),
    }
}

/// Calls `keyring::Entry::set_password`; nothing is stated of the outcome.
#[verifier::external_body]
fn store_password(entry: &keyring::Entry, value: &str) -> (r: Result<(), String>) {
    entry.set_password(value).map_err(|error| error.to_string())
}

/// Calls `keyring::Entry::delete_credential`; nothing is stated of the
/// outcome.
#[verifier::external_body]
fn remove_password(entry: &keyring::Entry) -> (r: Result<(), StoreFailure>) {
    match entry.delete_credential() {
        Ok(()) => Ok(()),
        Err(keyring::Error::NoEntry) => Err(StoreFailure::NoEntry),
        Err(error) => Err(StoreFailure::Failed(error.to_string())),
    }
}

/// Whether a result is a success or a credential error.
pub open spec fn ok_or_credential<T>(r: CoreResult<T>) -> bool {
    match r {
        Ok(_) => true,
        Err(CoreError::Credential(_)) => true,
        Err(_) => false,
    }
}

/// What reading a secret gives: the stored value, nothing when no
/// credential is stored, or a credential error with the store's message.
pub fn secret_from(outcome: Result<String, StoreFailure>) -> (r: CoreResult<Option<String>>)
    ensures
        match outcome {
            Ok(v) => r == Ok::<Option<String>, CoreError>(Some(v)),
            Err(StoreFailure::NoEntry) => r == Ok::<Option<String>, CoreError>(None),
            Err(StoreFailure::Failed(m)) => r == Err::<Option<String>, CoreError>(CoreError::Credential(m)),
        },
{
    match outcome {
        Ok(v) => Ok(Some(v)),
        Err(StoreFailure::NoEntry) => Ok(None),
        Err(StoreFailure::Failed(m)) => Err(CoreError::Credential(m)),
    }
}

/// What deleting a secret gives: success also when none was stored.
pub fn deletion_from(outcome: Result<(), StoreFailure>) -> (r: CoreResult<()>)
    ensures
        match outcome {
            Ok(()) => r is Ok,
            Err(StoreFailure::NoEntry) => r is Ok,
            Err(StoreFailure::Failed(m)) => r == Err::<(), CoreError>(CoreError::Credential(m)),
        },
{
    match outcome {
        Ok(()) => Ok(()),
        Err(StoreFailure::NoEntry) => Ok(()),
        Err(StoreFailure::Failed(m)) => Err(CoreError::Credential(m)),
    }
}

fn entry(account: &str) -> (r: CoreResult<keyring::Entry>)
    ensures
        ok_or_credential(r),
{
    match new_entry(SERVICE, account) {
        Ok(e) => Ok(e),
        Err(m) => Err(CoreError::Credential(m)),
    }
}

/// Reads the secret of `account`: `None` when none is stored. Whether the
/// store can be reached is up to the machine: any failure is a credential
/// error.
pub fn get_secret(account: &str) -> (r: CoreResult<Option<String>>)
    ensures
        ok_or_credential(r),
{
    let e = entry(account)?;
    secret_from(stored_password(&e))
}

/// Deletes the secret of `account`; that none is stored is no error.
pub fn delete_secret(account: &str) -> (r: CoreResult<()>)
    ensures
        ok_or_credential(r),
{
    let e = entry(account)?;
    deletion_from(remove_password(&e))
}

/// What saving `value` as a secret does: an empty value removes the secret
/// (`None`); any other value is stored as it is.
pub fn value_to_store(value: &str) -> (r: Option<String>)
    ensures
        value@.len() == 0 ==> r is None,
        value@.len() != 0 ==> (r matches Some(v) && v@ == value@),
{
    proof {
        reveal_strlit("");
        if value@.len() == 0 {
            assert(value@ =~= ""@);
        }
    }
    if crate::text::same_text(value, "") {
        None
    } else {
        Some(String::from_str(value))
    }
}

/// Stores `value` as the secret of `account`; an empty value deletes it
/// (see `value_to_store`). Whether the store accepts it is up to the
/// machine: any failure is a credential error.
pub fn set_secret(account: &str, value: &str) -> (r: CoreResult<()>)
    ensures
        ok_or_credential(r),
{
    match value_to_store(value) {
        None => delete_secret(account),
        Some(v) => {
            let e = entry(account)?;
            match store_password(&e, v.as_str()) {
                Ok(()) => Ok(()),
                Err(m) => Err(CoreError::Credential(m)),
            }
        },
    }
}

} // verus!
