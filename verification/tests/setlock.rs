use lum::setlock::{SetLock, SetLockError};

#[test]
fn first_set_succeeds_second_fails() {
    let mut cell: SetLock<u32> = SetLock::new();
    assert!(!cell.is_set());
    assert_eq!(cell.set(7), Ok(()));
    assert!(cell.is_set());
    assert_eq!(cell.set(9), Err(SetLockError::AlreadySet));
    assert_eq!(cell.get(), Some(&7));
}

#[test]
fn failed_set_does_not_mutate() {
    let mut cell: SetLock<String> = SetLock::new();
    cell.set(String::from("kept")).unwrap();
    assert!(cell.set(String::from("dropped")).is_err());
    assert_eq!(cell.unwrap(), "kept");
}

#[test]
fn get_on_unset_is_none() {
    let cell: SetLock<u32> = SetLock::new();
    assert_eq!(cell.get(), None);
}

#[test]
fn unwrap_mut_changes_held_value() {
    let mut cell: SetLock<u32> = SetLock::new();
    cell.set(1).unwrap();
    *cell.unwrap_mut() = 2;
    assert_eq!(cell.get(), Some(&2));
}

#[test]
fn get_mut_is_none_until_set() {
    let mut cell: SetLock<u32> = SetLock::new();
    assert!(cell.get_mut().is_none());
    cell.set(4).unwrap();
    if let Some(v) = cell.get_mut() {
        *v += 1;
    }
    assert_eq!(cell.get(), Some(&5));
}

#[test]
fn default_is_unset() {
    let cell: SetLock<u32> = SetLock::default();
    assert!(!cell.is_set());
}
