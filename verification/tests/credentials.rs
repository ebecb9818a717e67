use gamesync::credentials::{needs_write, replace_checked, CredentialStore};
use std::cell::{Cell, RefCell};

struct Store {
    value: RefCell<Option<String>>,
    fail: bool,
    writes: Cell<usize>,
}

impl CredentialStore for Store {
    fn get(&self) -> Result<Option<String>, String> {
        Ok(self.value.borrow().clone())
    }
    fn set(&self, key: &str) -> Result<(), String> {
        if self.fail {
            return Err("Locked".to_string());
        }
        self.writes.set(self.writes.get() + 1);
        *self.value.borrow_mut() = Some(key.into());
        Ok(())
    }
    fn remove(&self) -> Result<(), String> {
        *self.value.borrow_mut() = None;
        Ok(())
    }
}

#[test]
fn failed_validation_or_locked_store_keeps_previous_key() {
    let store = Store {
        value: RefCell::new(Some("old-dummy".into())),
        fail: false,
        writes: Cell::new(0),
    };
    assert!(replace_checked(&store, "new-dummy", |_| Err("Rejected".to_string())).is_err());
    assert_eq!(store.get().unwrap().as_deref(), Some("old-dummy"));
    let locked = Store { fail: true, ..store };
    assert!(replace_checked(&locked, "new-dummy", |_| Ok(())).is_err());
    assert_eq!(locked.get().unwrap().as_deref(), Some("old-dummy"));
}

#[test]
fn saving_a_tested_key_twice_writes_once() {
    let store = Store {
        value: RefCell::new(None),
        fail: false,
        writes: Cell::new(0),
    };
    replace_checked(&store, "dummy", |_| Ok(())).unwrap();
    replace_checked(&store, "dummy", |_| Ok(())).unwrap();
    assert_eq!(store.writes.get(), 1);
}

#[test]
fn only_a_different_or_missing_key_needs_a_write() {
    assert!(needs_write(&None, "dummy"));
    assert!(needs_write(&Some("old".to_string()), "dummy"));
    assert!(!needs_write(&Some("dummy".to_string()), "dummy"));
}

#[test]
fn a_refused_test_reports_its_reason() {
    let store = Store { value: RefCell::new(None), fail: false, writes: Cell::new(0) };
    let r = replace_checked(&store, "dummy", |_| Err("Rejected".to_string()));
    assert_eq!(r, Err("Rejected".to_string()));
    assert_eq!(store.writes.get(), 0);
}
