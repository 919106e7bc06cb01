use user_directory::credential::{hash_password, hash_with_salt, parse_credential, verify_password};
use user_directory::error::DirectoryError;

#[test]
fn hashed_password_verifies() {
    let h = hash_password("correct horse").unwrap();
    assert_eq!(verify_password("correct horse", &h), Ok(true));
}

#[test]
fn hash_is_self_describing_argon2id() {
    let h = hash_password("secret").unwrap();
    assert_ne!(h, "secret");
    assert!(h.starts_with("$argon2id$v=19$m=65536,t=3,p=4$"));
    assert!(parse_credential(&h).is_ok());
}

#[test]
fn hashing_twice_gives_different_strings() {
    let a = hash_password("same").unwrap();
    let b = hash_password("same").unwrap();
    assert_ne!(a, b);
}

#[test]
fn other_password_does_not_verify() {
    let h = hash_password("alpha").unwrap();
    assert_eq!(verify_password("beta", &h), Ok(false));
}

#[test]
fn empty_candidate_does_not_verify() {
    let h = hash_password("alpha").unwrap();
    assert_eq!(verify_password("", &h), Ok(false));
}

#[test]
fn malformed_hash_is_reported_not_false() {
    for s in ["", "plaintext", "argon2id$v=19$m=8,t=1,p=1$abc$def"] {
        assert_eq!(verify_password("x", s), Err(DirectoryError::MalformedCredential));
        assert!(parse_credential(s).is_err());
    }
}

#[test]
fn hash_with_other_costs_is_not_malformed() {
    let h = "$argon2id$v=19$m=8,t=1,p=1$c29tZXNhbHQ$YlNlSZ1tfJvIWHfFPDGZRbeOCuNq6VGuITvDxW8V4nI";
    let ok = verify_password("password", h);
    assert!(ok.is_ok());
}

const SALT: &str = "c29tZXNhbHRzb21lc2FsdA";

#[test]
fn hash_under_given_salt_spells_out_costs_and_salt() {
    let h = hash_with_salt("secret", SALT).unwrap();
    assert!(h.starts_with("$argon2id$v=19$m=65536,t=3,p=4$c29tZXNhbHRzb21lc2FsdA$"));
    assert_eq!(h.split('$').count(), 6);
    assert_eq!(verify_password("secret", &h), Ok(true));
}

#[test]
fn hash_under_given_salt_is_deterministic() {
    let a = hash_with_salt("secret", SALT).unwrap();
    let b = hash_with_salt("secret", SALT).unwrap();
    assert_eq!(a, b);
}

#[test]
fn salt_that_does_not_decode_fails_hashing() {
    assert_eq!(hash_with_salt("secret", "no"), Err(DirectoryError::HashingFailed));
    assert_eq!(hash_with_salt("secret", "!!!!!!!!"), Err(DirectoryError::HashingFailed));
}

#[test]
fn huge_declared_parallelism_does_not_verify() {
    let digest = "A".repeat(43);
    for p in ["536870912", "4294967295", "16777216"] {
        let h = format!("$argon2id$v=19$m=65536,t=3,p={p}${SALT}${digest}");
        assert!(parse_credential(&h).is_ok());
        assert_eq!(verify_password("x", &h), Ok(false));
    }
}

#[test]
fn repeated_parallelism_is_checked_in_every_occurrence() {
    let digest = "A".repeat(43);
    for params in ["m=65536,t=3,p=4,p=536870912", "p=536870912,m=65536,t=3,p=4"] {
        let h = format!("$argon2id$v=19${params}${SALT}${digest}");
        assert!(parse_credential(&h).is_ok());
        assert_eq!(verify_password("x", &h), Ok(false));
    }
}
