use user_directory::credential::verify_password;
use user_directory::error::{DirectoryError, ValidationError};
use user_directory::form::UserForm;
use user_directory::model::{User, UserDatabase};

fn account(name: &str) -> User {
    User {
        disabled: false,
        displayname: name.to_uppercase(),
        email: format!("{name}@example.org"),
        password: String::new(),
        groups: vec!["staff".to_string()],
    }
}

fn form(name: &str, display: &str, password: &str, confirm: &str, groups: &str) -> UserForm {
    UserForm {
        name: name.to_string(),
        disabled: None,
        displayname: display.to_string(),
        email: "bob@example.org".to_string(),
        password: password.to_string(),
        confirm_password: confirm.to_string(),
        groups: groups.to_string(),
    }
}

fn ids(db: &UserDatabase) -> Vec<String> {
    db.sorted_users().into_iter().map(|(id, _)| id).collect()
}

#[test]
fn listing_is_sorted_whatever_the_insertion_order() {
    let mut db = UserDatabase::new();
    db.insert("zoe".to_string(), account("zoe"));
    db.insert("amy".to_string(), account("amy"));
    db.insert("mike".to_string(), account("mike"));
    assert_eq!(ids(&db), vec!["amy", "mike", "zoe"]);
}

#[test]
fn listing_orders_by_code_point() {
    let mut db = UserDatabase::new();
    for id in ["b", "B", "ab", "a", "", "é", "aa"] {
        db.insert(id.to_string(), account("x"));
    }
    assert_eq!(ids(&db), vec!["", "B", "a", "aa", "ab", "b", "é"]);
}

#[test]
fn insert_overwrites_existing_entry() {
    let mut db = UserDatabase::new();
    db.insert("amy".to_string(), account("amy"));
    let mut replaced = account("amy");
    replaced.disabled = true;
    replaced.email = "new@example.org".to_string();
    db.insert("amy".to_string(), replaced);
    let all = db.sorted_users();
    assert_eq!(all.len(), 1);
    assert!(all[0].1.disabled);
    assert_eq!(all[0].1.email, "new@example.org");
}

#[test]
fn get_of_absent_identifier_is_empty_account() {
    let mut db = UserDatabase::new();
    db.insert("amy".to_string(), account("amy"));
    let u = db.get("nobody");
    assert!(!u.disabled);
    assert_eq!(u.displayname, "");
    assert_eq!(u.email, "");
    assert_eq!(u.password, "");
    assert!(u.groups.is_empty());
}

#[test]
fn get_returns_stored_account() {
    let mut db = UserDatabase::new();
    db.insert("amy".to_string(), account("amy"));
    db.insert("bob".to_string(), account("bob"));
    let u = db.get("bob");
    assert_eq!(u.displayname, "BOB");
    assert_eq!(u.email, "bob@example.org");
    assert_eq!(u.groups, vec!["staff"]);
}

#[test]
fn delete_of_absent_identifier_changes_nothing() {
    let mut db = UserDatabase::new();
    db.insert("amy".to_string(), account("amy"));
    db.insert("zoe".to_string(), account("zoe"));
    db.remove("mike");
    assert_eq!(ids(&db), vec!["amy", "zoe"]);
    assert_eq!(db.get("amy").displayname, "AMY");
}

#[test]
fn delete_removes_only_that_entry() {
    let mut db = UserDatabase::new();
    for id in ["amy", "mike", "zoe"] {
        db.insert(id.to_string(), account(id));
    }
    db.remove("mike");
    assert_eq!(ids(&db), vec!["amy", "zoe"]);
    assert_eq!(db.get("mike").displayname, "");
}

#[test]
fn save_then_get_round_trips() {
    let mut f = form("bob", "Bob", "pw1", "pw1", "  admin   dev ");
    f.disabled = Some("disabled".to_string());
    let user = f.to_user().unwrap();
    let mut db = UserDatabase::new();
    db.insert(f.name.clone(), user);
    let back = db.get("bob");
    assert!(back.disabled);
    assert_eq!(back.displayname, "Bob");
    assert_eq!(back.email, "bob@example.org");
    assert_eq!(back.groups, vec!["admin", "dev"]);
    assert_ne!(back.password, "pw1");
    assert_eq!(back.verify_password("pw1"), Ok(true));
    assert_eq!(verify_password("pw1", &back.password), Ok(true));
}

#[test]
fn empty_identifier_is_refused_before_any_store_work() {
    let mut db = UserDatabase::new();
    db.insert("amy".to_string(), account("amy"));
    let f = form("", "Bob", "x", "x", "");
    assert_eq!(
        f.to_user().unwrap_err(),
        DirectoryError::ValidationFailed(ValidationError::MissingName)
    );
    assert_eq!(ids(&db), vec!["amy"]);
}

#[test]
fn each_rule_is_refused_with_its_reason() {
    let cases = [
        (form("", "", "", "y", ""), ValidationError::MissingName, "Name must be present."),
        (
            form("bob", "", "", "", ""),
            ValidationError::MissingDisplayName,
            "Display name must be present.",
        ),
        (
            form("bob", "Bob", "", "", ""),
            ValidationError::MissingPassword,
            "Password must be supplied.",
        ),
        (
            form("bob", "Bob", "x", "y", ""),
            ValidationError::PasswordMismatch,
            "Passwords do not match.",
        ),
    ];
    for (f, e, msg) in cases {
        assert_eq!(f.problem(), Some(e));
        assert_eq!(f.validate(), Some(msg.to_string()));
        assert_eq!(e.message(), msg);
        assert_eq!(f.to_user().unwrap_err(), DirectoryError::ValidationFailed(e));
    }
}

#[test]
fn valid_form_passes_validation() {
    let f = form("bob", "Bob", "x", "x", "");
    assert_eq!(f.problem(), None);
    assert_eq!(f.validate(), None);
}

#[test]
fn stored_account_shows_as_form() {
    let u = User {
        disabled: true,
        displayname: "Bob".to_string(),
        email: "bob@example.org".to_string(),
        password: "$argon2id$v=19$m=8,t=1,p=1$c29tZXNhbHQ$abc".to_string(),
        groups: vec!["admin".to_string(), "dev".to_string()],
    };
    let f = UserForm::from_user(&u);
    assert_eq!(f.name, "");
    assert_eq!(f.disabled, Some("disabled".to_string()));
    assert_eq!(f.displayname, "Bob");
    assert_eq!(f.email, "bob@example.org");
    assert_eq!(f.password, "");
    assert_eq!(f.confirm_password, "");
    assert_eq!(f.groups, "admin dev");
    let enabled = User { disabled: false, ..u };
    assert_eq!(UserForm::from_user(&enabled).disabled, None);
}

#[test]
fn malformed_stored_credential_is_reported() {
    let mut u = account("amy");
    u.password = "not a hash".to_string();
    assert_eq!(u.verify_password("x"), Err(DirectoryError::MalformedCredential));
    assert!(u.password_hash().is_err());
}

#[test]
fn duplicate_keeps_every_field() {
    let u = account("amy");
    let d = u.duplicate();
    assert_eq!(d.displayname, u.displayname);
    assert_eq!(d.email, u.email);
    assert_eq!(d.groups, u.groups);
    assert_eq!(d.disabled, u.disabled);
}

const SALT: &str = "c29tZXNhbHRzb21lc2FsdA";

#[test]
fn valid_request_with_salt_yields_account() {
    let f = form("bob", "Bob", "pw1", "pw1", "a b a");
    let u = f.to_user_with_salt(SALT).unwrap();
    assert!(u.password.starts_with("$argon2id$v=19$m=65536,t=3,p=4$c29tZXNhbHRzb21lc2FsdA$"));
    assert_eq!(u.groups, vec!["a", "b", "a"]);
    assert_eq!(u.verify_password("pw1"), Ok(true));
    let same = User::from_form_with_salt(&f, SALT).unwrap();
    assert_eq!(same.password, u.password);
}

#[test]
fn refused_request_with_salt_reports_reason() {
    let f = form("bob", "Bob", "x", "y", "");
    assert_eq!(
        f.to_user_with_salt(SALT).unwrap_err(),
        DirectoryError::ValidationFailed(ValidationError::PasswordMismatch)
    );
}

#[test]
fn refused_save_leaves_directory_unchanged() {
    let mut db = UserDatabase::new();
    db.insert("amy".to_string(), account("amy"));
    let f = form("", "Bob", "x", "x", "");
    assert_eq!(
        db.save_with_salt(&f, SALT),
        Err(DirectoryError::ValidationFailed(ValidationError::MissingName))
    );
    assert_eq!(db.save(&f), Err(DirectoryError::ValidationFailed(ValidationError::MissingName)));
    assert_eq!(ids(&db), vec!["amy"]);
    assert_eq!(db.get("amy").displayname, "AMY");
}

#[test]
fn valid_save_stores_the_account() {
    let mut db = UserDatabase::new();
    db.insert("amy".to_string(), account("amy"));
    let f = form("bob", "Bob", "pw1", "pw1", "  admin   dev ");
    assert_eq!(db.save_with_salt(&f, SALT), Ok(()));
    assert_eq!(ids(&db), vec!["amy", "bob"]);
    let bob = db.get("bob");
    assert_eq!(bob.groups, vec!["admin", "dev"]);
    assert!(bob.password.starts_with("$argon2id$v=19$m=65536,t=3,p=4$c29tZXNhbHRzb21lc2FsdA$"));
    assert_eq!(bob.verify_password("pw1"), Ok(true));
}

#[test]
fn malformed_stored_record_loads_and_reports_on_verify() {
    let mut db = UserDatabase::new();
    let mut bad = account("bob");
    bad.password = "plaintext".to_string();
    db.insert("bob".to_string(), bad);
    db.insert("amy".to_string(), account("amy"));
    assert_eq!(ids(&db), vec!["amy", "bob"]);
    assert_eq!(db.get("bob").verify_password("x"), Err(DirectoryError::MalformedCredential));
    db.remove("bob");
    assert_eq!(ids(&db), vec!["amy"]);
}

#[test]
fn account_form_account_keeps_fields() {
    let mut u = account("amy");
    u.groups = vec!["admin".to_string(), "dev".to_string(), "admin".to_string()];
    u.disabled = true;
    let mut f = UserForm::from_user(&u);
    f.name = "amy".to_string();
    f.password = "pw".to_string();
    f.confirm_password = "pw".to_string();
    let back = f.to_user_with_salt(SALT).unwrap();
    assert_eq!(back.groups, u.groups);
    assert_eq!(back.displayname, u.displayname);
    assert_eq!(back.email, u.email);
    assert_eq!(back.disabled, u.disabled);
}
