use empire_core::keychain::delete_jwt;
use empire_core::keychain::get_jwt;
use empire_core::keychain::has_jwt;
use empire_core::keychain::store_jwt;

const SERVICE: &str = "empire-desktop-test";

#[test]
fn store_succeeds() {
    assert_eq!(store_jwt(SERVICE, "rt-user", "jwt-token-1"), Ok(()));
}

#[test]
fn get_missing_is_none_not_failure() {
    assert_eq!(get_jwt(SERVICE, "missing-user"), Ok(None));
}

#[test]
fn probe_of_missing_is_false() {
    assert_eq!(has_jwt(SERVICE, "probe-user"), Ok(false));
}

#[test]
fn delete_missing_is_ok() {
    assert_eq!(delete_jwt(SERVICE, "never-stored-user"), Ok(()));
}
