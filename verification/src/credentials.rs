//! Device credentials. Secrets live only in the operating system's secure storage.
use vstd::prelude::*;

use crate::text::str_eq;

verus! {

/// Where a credential is kept: the operating system's secure storage, or a stand-in in
/// tests. Each failure is reported as text for the user.
pub trait CredentialStore {
    /// `r` is an answer this store may give to a read. A store that says nothing of its
    /// answers may give any.
    open spec fn answers_get(&self, r: Result<Option<String>, String>) -> bool {
        true
    }

    /// `r` is an answer this store may give to a write of `secret`. A store that says
    /// nothing of its answers may give any.
    open spec fn answers_set(&self, secret: Seq<char>, r: Result<(), String>) -> bool {
        true
    }

    fn get(&self) -> (r: Result<Option<String>, String>)
        ensures
            self.answers_get(r),
    ;

    fn set(&self, secret: &str) -> (r: Result<(), String>)
        ensures
            self.answers_set(secret@, r),
    ;

    fn remove(&self) -> Result<(), String>;
}

/// Whether `key` must be written over what the store holds: saving the same tested key
/// twice must not rewrite the entry.
pub fn needs_write(current: &Option<String>, key: &str) -> (r: bool)
    ensures
        r == !(current matches Some(c) && c@ == key@),
{
    match current {
        Some(c) => !str_eq(c.as_str(), key),
        None => true,
    }
}

/// What replacing the key returns once the test has answered `checked`, the store's read
/// has answered `current` and, where the key was not held yet, the write has answered
/// `written`: a refused test, a failed read, success when the store already holds the
/// key, and otherwise the answer of the write.
pub open spec fn replacement(checked: Result<(), String>, current: Result<Option<String>, String>, written: Result<(), String>, key: Seq<char>) -> Result<(), String> {
    match checked {
        Err(e) => Err(e),
        Ok(_) => match current {
            Err(e) => Err(e),
            Ok(c) => if c matches Some(k) && k@ == key {
                Ok(())
            } else {
                written
            },
        },
    }
}

/// Tests a replacement key before touching the working credential, then saves it unless
/// the store already holds it. A refused test leaves the store untouched. The store is
/// the caller's, so what its read and write answer is not stated: the result is the one
/// `replacement` gives for the test's answer and for theirs.
pub fn replace_checked<S: CredentialStore, F: FnOnce(&str) -> Result<(), String>>(store: &S, key: &str, validate: F) -> (r: Result<(), String>)
    requires
        validate.requires((key,)),
    ensures
        r is Ok ==> exists|v: Result<(), String>| v is Ok && #[trigger] validate.ensures((key,), v),
        exists|checked: Result<(), String>, current: Result<Option<String>, String>, written: Result<(), String>|
            #![trigger validate.ensures((key,), checked), replacement(checked, current, written, key@)]
            validate.ensures((key,), checked) && r == replacement(checked, current, written, key@)
                && (checked is Ok ==> store.answers_get(current))
                && (checked is Ok && (current matches Ok(c) && !(c matches Some(k) && k@ == key@)) ==> store.answers_set(key@, written)),
{
    let checked = validate(key);
    if checked.is_err() {
        assert(replacement(checked, Ok(None), Ok(()), key@) == checked);
        return checked;
    }
    assert(checked is Ok && validate.ensures((key,), checked));
    let current = match store.get() {
        Ok(c) => c,
        Err(e) => {
            assert(replacement(checked, Err(e), Ok(()), key@) == Err::<(), String>(e));
            return Err(e);
        },
    };
    if !needs_write(&current, key) {
        assert(replacement(checked, Ok(current), Ok(()), key@) == Ok::<(), String>(()));
        return Ok(());
    }
    let written = store.set(key);
    assert(replacement(checked, Ok(current), written, key@) == written);
    written
}

} // verus!
