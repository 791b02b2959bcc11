//! The OpenAI API key: what input is accepted, and its storage in the
//! platform credential store through the `keyring` crate.
use vstd::prelude::*;

use crate::error::{AppError, AppResult};
use crate::text::{blank, chars_of, is_control, is_ctrl, is_whitespace, is_ws, trim, trim_str};

verus! {

pub const SERVICE: &'static str = "com.dweng.meetingnotes";

pub const ACCOUNT: &'static str = "openai-api-key";

pub open spec fn key_rejected(key: &str) -> bool {
    ||| trim(key@).len() == 0
    ||| key.len() > 4096
    ||| exists|i: int| 0 <= i < key@.len() && is_ctrl(#[trigger] key@[i])
    ||| exists|i: int| 0 <= i < trim(key@).len() && is_ws(#[trigger] trim(key@)[i])
}

pub open spec fn invalid_key_message() -> Seq<char> {
    "Enter an API key of at most 4096 bytes without spaces, line breaks, or control characters."@
}

fn any_matching(v: &Vec<char>, control: bool) -> (r: bool)
    ensures
        control ==> (r == exists|i: int| 0 <= i < v@.len() && is_ctrl(#[trigger] v@[i])),
        !control ==> (r == exists|i: int| 0 <= i < v@.len() && is_ws(#[trigger] v@[i])),
{
    let n: usize = v.len();
    let mut i: usize = 0;
    while i < n
        invariant
            n == v@.len(),
            0 <= i <= n,
            control ==> forall|k: int| 0 <= k < i ==> !is_ctrl(#[trigger] v@[k]),
            !control ==> forall|k: int| 0 <= k < i ==> !is_ws(#[trigger] v@[k]),
        decreases n - i,
    {
        let hit = if control {
            is_control(v[i])
        } else {
            is_whitespace(v[i])
        };
        if hit {
            return true;
        }
        i = i + 1;
    }
    false
}

/// Accepts a pasted API key and returns it without surrounding white space.
pub fn validate_key_input(key: &str) -> (r: AppResult<&str>)
    ensures
        r is Ok <==> !key_rejected(key),
        r matches Ok(k) ==> k@ == trim(key@),
        r matches Err(e) ==> e.code@ == "invalid_api_key"@ && e.message@ == invalid_key_message(),
{
    let trimmed = trim_str(key);
    let all = chars_of(key);
    let inner = chars_of(trimmed);
    if inner.len() == 0 || key.len() > 4096 || any_matching(&all, true) || any_matching(
        &inner,
        false,
    ) {
        return Err(
            AppError::new(
                "invalid_api_key",
                "Enter an API key of at most 4096 bytes without spaces, line breaks, or control characters.",
            ),
        );
    }
    proof {
        assert(all@ == key@);
        assert(inner@ == trim(key@));
        assert(!exists|i: int| 0 <= i < key@.len() && is_ctrl(#[trigger] key@[i]));
        assert(!exists|i: int| 0 <= i < trim(key@).len() && is_ws(#[trigger] trim(key@)[i]));
    }
    Ok(trimmed)
}

/// What a credential-store operation reported.
#[derive(Debug)]
pub enum KeychainFailure {
    /// No credential is saved for the entry.
    NoEntry,
    /// Any other failure of the platform store, with its description.
    Other(String),
}

#[verifier::external_type_specification]
#[verifier::external_body]
pub struct ExEntry(keyring::Entry);

#[verifier::external_type_specification]
#[verifier::external_body]
pub struct ExKeyringError(keyring::Error);

/// `keyring::Entry::new`: opens the entry for a service and account. Nothing is
/// stated of the outcome: it depends on the platform store.
#[verifier::external_body]
fn open_entry(service: &str, user: &str) -> Result<keyring::Entry, keyring::Error> {
    keyring::Entry::new(service, user)
}

/// `keyring::Entry::set_password`. Nothing is stated of the outcome.
#[verifier::external_body]
fn entry_set_password(entry: &keyring::Entry, password: &str) -> Result<(), keyring::Error> {
    entry.set_password(password)
}

/// `keyring::Entry::get_password`. Nothing is stated of the outcome.
#[verifier::external_body]
fn entry_get_password(entry: &keyring::Entry) -> Result<String, keyring::Error> {
    entry.get_password()
}

/// `keyring::Entry::delete_credential`. Nothing is stated of the outcome.
#[verifier::external_body]
fn entry_delete_credential(entry: &keyring::Entry) -> Result<(), keyring::Error> {
    entry.delete_credential()
}

/// Tells `keyring::Error::NoEntry` apart from every other variant, keeping the others' text.
#[verifier::external_body]
fn keychain_failure(error: keyring::Error) -> KeychainFailure {
    match error {
        keyring::Error::NoEntry => KeychainFailure::NoEntry,
        other => KeychainFailure::Other(other.to_string()),
    }
}

/// The app error for a credential-store failure.
pub fn keychain_error(failure: KeychainFailure) -> (e: AppError)
    ensures
        e.code@ == "keychain"@,
        failure matches KeychainFailure::Other(m) ==> e.message@ == m@,
        failure is NoEntry ==> e.message@ == "No matching entry found in secure storage"@,
{
    match failure {
        KeychainFailure::NoEntry => AppError::new(
            "keychain",
            "No matching entry found in secure storage",
        ),
        KeychainFailure::Other(message) => AppError::with_message("keychain", message),
    }
}

/// Removing a credential that is already absent is a success.
pub fn removal_outcome(deleted: Result<(), KeychainFailure>) -> (r: AppResult<()>)
    ensures
        r is Ok <==> (deleted is Ok || deleted matches Err(KeychainFailure::NoEntry)),
        r matches Err(e) ==> e.code@ == "keychain"@ && (deleted matches Err(
            KeychainFailure::Other(m),
        ) && e.message@ == m@),
{
    match deleted {
        Ok(()) => Ok(()),
        Err(KeychainFailure::NoEntry) => Ok(()),
        Err(failure) => Err(keychain_error(failure)),
    }
}

/// A missing credential reads as `None`.
pub fn load_outcome(read: Result<String, KeychainFailure>) -> (r: AppResult<Option<String>>)
    ensures
        read matches Ok(k) ==> (r matches Ok(Some(v)) && v@ == k@),
        read matches Err(KeychainFailure::NoEntry) ==> r matches Ok(None),
        read matches Err(KeychainFailure::Other(m)) ==> (r matches Err(e) && e.code@
            == "keychain"@ && e.message@ == m@),
{
    match read {
        Ok(key) => Ok(Some(key)),
        Err(KeychainFailure::NoEntry) => Ok(None),
        Err(failure) => Err(keychain_error(failure)),
    }
}

/// Deletes the credential of `entry`; one that is already absent counts as
/// removed (see `removal_outcome`).
pub fn remove_entry(entry: &keyring::Entry) -> (r: AppResult<()>)
    ensures
        r matches Err(e) ==> e.code@ == "keychain"@,
{
    match entry_delete_credential(entry) {
        Ok(()) => removal_outcome(Ok(())),
        Err(error) => removal_outcome(Err(keychain_failure(error))),
    }
}

/// A saved credential means a key exists; a missing one means none does.
pub fn exists_outcome(read: Result<String, KeychainFailure>) -> (r: AppResult<bool>)
    ensures
        read is Ok ==> r == Ok::<bool, AppError>(true),
        read matches Err(KeychainFailure::NoEntry) ==> r == Ok::<bool, AppError>(false),
        read matches Err(KeychainFailure::Other(m)) ==> (r matches Err(e) && e.code@
            == "keychain"@ && e.message@ == m@),
{
    match read {
        Ok(_) => Ok(true),
        Err(KeychainFailure::NoEntry) => Ok(false),
        Err(failure) => Err(keychain_error(failure)),
    }
}

fn entry() -> (r: AppResult<keyring::Entry>)
    ensures
        r matches Err(e) ==> e.code@ == "keychain"@,
{
    match open_entry(SERVICE, ACCOUNT) {
        Ok(entry) => Ok(entry),
        Err(error) => Err(keychain_error(keychain_failure(error))),
    }
}

/// The key's home in the platform credential store.
#[derive(Debug)]
pub struct ApiKeyStore;

impl ApiKeyStore {
    /// Saves a valid key; an invalid one never reaches the credential store.
    pub fn save(key: &str) -> (r: AppResult<()>)
        ensures
            key_rejected(key) ==> (r matches Err(e) && e.code@ == "invalid_api_key"@),
            r is Ok ==> !key_rejected(key),
            r matches Err(e) ==> e.code@ == "invalid_api_key"@ || e.code@ == "keychain"@,
            !key_rejected(key) ==> (r matches Err(e) ==> e.code@ == "keychain"@),
    {
        let key = match validate_key_input(key) {
            Ok(key) => key,
            Err(e) => return Err(e),
        };
        let entry = match entry() {
            Ok(entry) => entry,
            Err(e) => return Err(e),
        };
        match entry_set_password(&entry, key) {
            Ok(()) => Ok(()),
            Err(error) => Err(keychain_error(keychain_failure(error))),
        }
    }

    /// Removes the saved key; an absent key is already removed.
    pub fn remove() -> (r: AppResult<()>)
        ensures
            r matches Err(e) ==> e.code@ == "keychain"@,
    {
        let entry = match entry() {
            Ok(entry) => entry,
            Err(e) => return Err(e),
        };
        remove_entry(&entry)
    }

    /// The saved key, if any.
    pub fn load() -> (r: AppResult<Option<String>>)
        ensures
            r matches Err(e) ==> e.code@ == "keychain"@,
    {
        let entry = match entry() {
            Ok(entry) => entry,
            Err(e) => return Err(e),
        };
        match entry_get_password(&entry) {
            Ok(key) => load_outcome(Ok(key)),
            Err(error) => load_outcome(Err(keychain_failure(error))),
        }
    }

    /// Whether a key is saved.
    pub fn key_exists() -> (r: AppResult<bool>)
        ensures
            r matches Err(e) ==> e.code@ == "keychain"@,
    {
        let entry = match entry() {
            Ok(entry) => entry,
            Err(e) => return Err(e),
        };
        match entry_get_password(&entry) {
            Ok(key) => exists_outcome(Ok(key)),
            Err(error) => exists_outcome(Err(keychain_failure(error))),
        }
    }
}

} // verus!
