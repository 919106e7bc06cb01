use user_directory::config::{Config, ConfigError};
use user_directory::error::ValidationError;
use user_directory::form::UserForm;
use user_directory::template::EditUserTemplate;
use user_directory::text::{compare_ids, is_space_char, join_words, split_words, Order};

#[test]
fn groups_string_round_trips() {
    let words = split_words("  admin   dev ");
    assert_eq!(words, vec!["admin", "dev"]);
    assert_eq!(join_words(&words), "admin dev");
    assert_eq!(split_words(&join_words(&words)), words);
}

#[test]
fn split_handles_edges() {
    assert!(split_words("").is_empty());
    assert!(split_words(" \t\n ").is_empty());
    assert_eq!(split_words("a"), vec!["a"]);
    assert_eq!(split_words("a\tb\u{3000}c\u{a0}d"), vec!["a", "b", "c", "d"]);
    assert_eq!(split_words("dev dev admin"), vec!["dev", "dev", "admin"]);
    assert_eq!(split_words("ünï cødé"), vec!["ünï", "cødé"]);
}

#[test]
fn join_handles_edges() {
    assert_eq!(join_words(&vec![]), "");
    assert_eq!(join_words(&vec!["one".to_string()]), "one");
    assert_eq!(join_words(&vec!["a".to_string(), "b".to_string(), "c".to_string()]), "a b c");
}

#[test]
fn whitespace_matches_std() {
    for u in 0u32..0x3100 {
        if let Some(c) = char::from_u32(u) {
            assert_eq!(is_space_char(c), c.is_whitespace(), "{u:x}");
        }
    }
}

#[test]
fn identifiers_compare_like_str() {
    let samples = ["", "a", "b", "ab", "aa", "B", "é", "zz", "a b"];
    for x in samples {
        for y in samples {
            let expected = match x.cmp(y) {
                std::cmp::Ordering::Less => Order::Less,
                std::cmp::Ordering::Equal => Order::Equal,
                std::cmp::Ordering::Greater => Order::Greater,
            };
            assert_eq!(compare_ids(x, y), expected);
        }
    }
}

#[test]
fn config_defaults_host_and_port() {
    let c = Config::from_values(None, None, Some("users.yaml".to_string())).unwrap();
    assert_eq!(c.host, "0.0.0.0");
    assert_eq!(c.port, "5555");
    assert_eq!(c.users_file, "users.yaml");
    let host = Some("127.0.0.1".to_string());
    let c = Config::from_values(host, Some("80".to_string()), Some("u".to_string())).unwrap();
    assert_eq!(c.host, "127.0.0.1");
    assert_eq!(c.port, "80");
}

#[test]
fn config_needs_users_file() {
    let r = Config::from_values(Some("h".to_string()), None, None);
    assert_eq!(r.unwrap_err(), ConfigError::MissingUsersFile);
}

#[test]
fn edit_page_outcomes() {
    let f = UserForm::from_user(&Default::default());
    let p = EditUserTemplate::refused(f.clone(), ValidationError::PasswordMismatch);
    assert_eq!(p.error.as_deref(), Some("Passwords do not match."));
    assert!(p.success.is_none());
    let p = EditUserTemplate::saved(f.clone());
    assert_eq!(p.success.as_deref(), Some("User saved."));
    assert!(p.error.is_none());
    let p = EditUserTemplate::editing(f);
    assert!(p.success.is_none() && p.error.is_none());
}

#[test]
fn words_concatenate_to_text_without_whitespace() {
    let s = " a b\ta  dev\u{2003}x ";
    let words = split_words(s);
    assert_eq!(words, vec!["a", "b", "a", "dev", "x"]);
    let stripped: String = s.chars().filter(|c| !c.is_whitespace()).collect();
    assert_eq!(words.concat(), stripped);
}
