//! Platform-backed secret vault: stores one authentication token per
//! identity in the host operating system's credential store, through the
//! `keyring` crate. The service namespace is threaded in by the caller so
//! that several application instances can coexist.
//!
//! Every platform outcome is funnelled through a small classification
//! value and then interpreted by verified functions with exact contracts:
//! a missing entry is a normal outcome on retrieval, probing and deletion,
//! never a failure; every failure is a descriptive message, never a raw
//! platform error.

use vstd::prelude::*;
use vstd::string::StringExecFns;

verus! {

#[verifier::external_type_specification]
#[verifier::external_body]
pub struct ExEntry(keyring::Entry);

#[verifier::external_type_specification]
#[verifier::external_body]
pub struct ExKeyringError(keyring::Error);

/// Relies on keyring::Entry::new: builds a handle addressing the
/// `(service, user)` key in the default platform credential store; it
/// fails when no store is available or the key is invalid for the store.
pub assume_specification[ keyring::Entry::new ](
    service: &str,
    user: &str,
) -> Result<keyring::Entry, keyring::Error>;

/// Relies on keyring::Entry::set_password: creates or overwrites the
/// single secret held under the handle's key.
pub assume_specification[ keyring::Entry::set_password ](
    e: &keyring::Entry,
    password: &str,
) -> Result<(), keyring::Error>;

/// Relies on keyring::Entry::get_password: returns the secret held under
/// the handle's key, or `Error::NoEntry` when none is held.
pub assume_specification[ keyring::Entry::get_password ](
    e: &keyring::Entry,
) -> Result<String, keyring::Error>;

/// Relies on keyring::Entry::delete_credential: removes the secret held
/// under the handle's key, or returns `Error::NoEntry` when none is held.
pub assume_specification[ keyring::Entry::delete_credential ](
    e: &keyring::Entry,
) -> Result<(), keyring::Error>;

/// A platform credential error reduced to what the vault distinguishes:
/// whether it was the "no such entry" outcome, and a descriptive message.
pub struct ErrorClass {
    pub no_entry: bool,
    pub message: String,
}

/// Relies on keyring::Error: the `NoEntry` variant is the "no such entry"
/// outcome, and its `Display` impl describes every error without quoting
/// the stored secret.
#[verifier::external_body]
fn classify_error(e: keyring::Error) -> (c: ErrorClass)
{
    ErrorClass { no_entry: matches!(e, keyring::Error::NoEntry), message: e.to_string() }
}

/// A failure message: the given prefix followed by the platform's own
/// description.
fn failure_message(prefix: &str, detail: &str) -> (m: String)
    ensures
        m@ == prefix@ + detail@,
{
    let mut m = String::from_str(prefix);
    m.append(detail);
    m
}

/// A message reporting that the credential handle could not be built.
pub open spec fn entry_failure_text(m: Seq<char>) -> bool {
    exists|d: Seq<char>| m == "Failed to create keychain entry: "@ + d
}

/// A message reporting a store failure.
pub open spec fn store_failure_text(m: Seq<char>) -> bool {
    entry_failure_text(m) || exists|d: Seq<char>| m == "Failed to store JWT in keychain: "@ + d
}

/// A message reporting a retrieval failure.
pub open spec fn retrieve_failure_text(m: Seq<char>) -> bool {
    entry_failure_text(m) || exists|d: Seq<char>| m == "Failed to retrieve JWT from keychain: "@ + d
}

/// A message reporting a deletion failure.
pub open spec fn delete_failure_text(m: Seq<char>) -> bool {
    entry_failure_text(m) || exists|d: Seq<char>| m == "Failed to delete JWT from keychain: "@ + d
}

/// A message reporting a presence-probe failure.
pub open spec fn probe_failure_text(m: Seq<char>) -> bool {
    entry_failure_text(m) || exists|d: Seq<char>| m == "Failed to check JWT in keychain: "@ + d
}

/// What a write outcome means to the caller: success passes through, any
/// failure becomes a descriptive message.
pub fn interpret_write(res: Result<(), ErrorClass>) -> (r: Result<(), String>)
    ensures
        res is Ok <==> r is Ok,
        res matches Err(c) ==> (r matches Err(m) && m@ == "Failed to store JWT in keychain: "@
            + c.message@),
{
    match res {
        Ok(()) => Ok(()),
        Err(c) => Err(failure_message("Failed to store JWT in keychain: ", c.message.as_str())),
    }
}

/// What a read outcome means to the caller: a secret is passed through, a
/// missing entry is the normal `None` outcome, any other failure becomes a
/// descriptive message.
pub fn interpret_read(res: Result<String, ErrorClass>) -> (r: Result<Option<String>, String>)
    ensures
        res matches Ok(s) ==> r == Ok::<Option<String>, String>(Some(s)),
        res matches Err(c) ==> (if c.no_entry {
            r == Ok::<Option<String>, String>(None)
        } else {
            r matches Err(m) && m@ == "Failed to retrieve JWT from keychain: "@ + c.message@
        }),
{
    match res {
        Ok(s) => Ok(Some(s)),
        Err(c) => {
            if c.no_entry {
                Ok(None)
            } else {
                Err(failure_message("Failed to retrieve JWT from keychain: ", c.message.as_str()))
            }
        },
    }
}

/// What a deletion outcome means to the caller: success passes through, a
/// missing entry is an idempotent no-op success, any other failure becomes
/// a descriptive message.
pub fn interpret_delete(res: Result<(), ErrorClass>) -> (r: Result<(), String>)
    ensures
        res is Ok ==> r is Ok,
        res matches Err(c) ==> (if c.no_entry {
            r is Ok
        } else {
            r matches Err(m) && m@ == "Failed to delete JWT from keychain: "@ + c.message@
        }),
{
    match res {
        Ok(()) => Ok(()),
        Err(c) => {
            if c.no_entry {
                Ok(())
            } else {
                Err(failure_message("Failed to delete JWT from keychain: ", c.message.as_str()))
            }
        },
    }
}

/// What a read outcome means to a presence probe: any held secret
/// collapses to `true`, a missing entry to `false`, any other failure
/// becomes a descriptive message; the secret itself is never exposed.
pub fn interpret_probe(res: Result<String, ErrorClass>) -> (r: Result<bool, String>)
    ensures
        res is Ok ==> r == Ok::<bool, String>(true),
        res matches Err(c) ==> (if c.no_entry {
            r == Ok::<bool, String>(false)
        } else {
            r matches Err(m) && m@ == "Failed to check JWT in keychain: "@ + c.message@
        }),
{
    match res {
        Ok(_) => Ok(true),
        Err(c) => {
            if c.no_entry {
                Ok(false)
            } else {
                Err(failure_message("Failed to check JWT in keychain: ", c.message.as_str()))
            }
        },
    }
}

/// The failure reported when the credential handle could not be built.
fn entry_failure(c: ErrorClass) -> (m: String)
    ensures
        entry_failure_text(m@),
{
    let m = failure_message("Failed to create keychain entry: ", c.message.as_str());
    proof {
        assert(m@ == "Failed to create keychain entry: "@ + c.message@);
    }
    m
}

/// Creates or overwrites the secret for `(service, user_id)` in the
/// platform store; every failure is surfaced as one descriptive message.
pub fn store_jwt(service: &str, user_id: &str, jwt: &str) -> (r: Result<(), String>)
    requires
        user_id@.len() > 0,
        jwt@.len() > 0,
    ensures
        r matches Err(m) ==> store_failure_text(m@),
{
    let entry = match keyring::Entry::new(service, user_id) {
        Ok(e) => e,
        Err(e) => {
            return Err(entry_failure(classify_error(e)));
        },
    };
    match entry.set_password(jwt) {
        Ok(()) => interpret_write(Ok(())),
        Err(e) => interpret_write(Err(classify_error(e))),
    }
}

/// Retrieves the secret for `(service, user_id)`: a missing entry is the
/// normal `None` outcome, distinguished from operational failure.
pub fn get_jwt(service: &str, user_id: &str) -> (r: Result<Option<String>, String>)
    ensures
        r matches Err(m) ==> retrieve_failure_text(m@),
{
    let entry = match keyring::Entry::new(service, user_id) {
        Ok(e) => e,
        Err(e) => {
            return Err(entry_failure(classify_error(e)));
        },
    };
    match entry.get_password() {
        Ok(s) => interpret_read(Ok(s)),
        Err(e) => interpret_read(Err(classify_error(e))),
    }
}

/// Deletes the secret for `(service, user_id)`; deleting an absent secret
/// is an idempotent no-op success.
pub fn delete_jwt(service: &str, user_id: &str) -> (r: Result<(), String>)
    ensures
        r matches Err(m) ==> delete_failure_text(m@),
{
    let entry = match keyring::Entry::new(service, user_id) {
        Ok(e) => e,
        Err(e) => {
            return Err(entry_failure(classify_error(e)));
        },
    };
    match entry.delete_credential() {
        Ok(()) => interpret_delete(Ok(())),
        Err(e) => interpret_delete(Err(classify_error(e))),
    }
}

/// Whether a secret is held for `(service, user_id)`; the secret's value
/// is never part of the answer or of any failure message.
pub fn has_jwt(service: &str, user_id: &str) -> (r: Result<bool, String>)
    ensures
        r matches Err(m) ==> probe_failure_text(m@),
{
    let entry = match keyring::Entry::new(service, user_id) {
        Ok(e) => e,
        Err(e) => {
            return Err(entry_failure(classify_error(e)));
        },
    };
    match entry.get_password() {
        Ok(s) => interpret_probe(Ok(s)),
        Err(e) => interpret_probe(Err(classify_error(e))),
    }
}

} // verus!
