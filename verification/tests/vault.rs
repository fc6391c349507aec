use empire_core::vault::MemoryVault;

#[test]
fn store_then_retrieve_round_trip() {
    let mut v = MemoryVault::new();
    v.store("user-1", "token-abc");
    assert_eq!(v.retrieve("user-1"), Some(String::from("token-abc")));
    assert!(v.contains("user-1"));
}

#[test]
fn never_stored_is_absent() {
    let v = MemoryVault::new();
    assert_eq!(v.retrieve("nobody"), None);
    assert!(!v.contains("nobody"));
}

#[test]
fn delete_absent_is_noop_success() {
    let mut v = MemoryVault::new();
    v.store("kept", "secret-1");
    v.delete("absent");
    assert_eq!(v.retrieve("kept"), Some(String::from("secret-1")));
    assert_eq!(v.retrieve("absent"), None);
}

#[test]
fn store_overwrites_without_history() {
    let mut v = MemoryVault::new();
    v.store("user-1", "first");
    v.store("user-1", "second");
    assert_eq!(v.retrieve("user-1"), Some(String::from("second")));
}

#[test]
fn delete_removes_only_that_identity() {
    let mut v = MemoryVault::new();
    v.store("a", "sa");
    v.store("b", "sb");
    v.delete("a");
    assert_eq!(v.retrieve("a"), None);
    assert!(!v.contains("a"));
    assert_eq!(v.retrieve("b"), Some(String::from("sb")));
}

#[test]
fn identities_are_independent() {
    let mut v = MemoryVault::new();
    v.store("a", "sa");
    v.store("b", "sb");
    v.store("a", "sa2");
    assert_eq!(v.retrieve("a"), Some(String::from("sa2")));
    assert_eq!(v.retrieve("b"), Some(String::from("sb")));
}
