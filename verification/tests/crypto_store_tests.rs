use envctl::crypto::{decrypt, encrypt, CryptoError, Identity};
use envctl::paths::{identity_path, join_path, registry_path};
use envctl::store::{repo_of_file_name, store_file_name, Store, StoreError};

#[test]
fn identity_text_parses_back() {
    let id = Identity::generate();
    let text = id.to_string();
    assert!(text.starts_with("AGE-SECRET-KEY-1"));
    let again = Identity::from_file_text(&text).ok().expect("valid identity");
    assert_eq!(again.to_string(), text);
    assert_eq!(again.recipient(), id.recipient());
    assert!(id.recipient().starts_with("age1"));
}

#[test]
fn lowercase_identity_text_is_made_canonical() {
    let id = Identity::generate();
    let lower = id.to_string().to_lowercase();
    let parsed = Identity::from_file_text(&lower).ok().expect("valid identity");
    assert_eq!(parsed.to_string(), id.to_string());
}

#[test]
fn invalid_identity_text_is_refused() {
    assert!(matches!(Identity::from_file_text("not a key"), Err(CryptoError::InvalidIdentity)));
}

#[test]
fn decrypt_gives_back_what_was_encrypted() {
    let id = Identity::generate();
    let c = encrypt(b"hello secrets", &id).ok().expect("encrypts");
    assert_ne!(c.as_slice(), b"hello secrets");
    assert_eq!(decrypt(&c, &id).ok(), Some(b"hello secrets".to_vec()));
}

#[test]
fn decrypt_with_another_identity_fails() {
    let a = Identity::generate();
    let b = Identity::generate();
    let c = encrypt(b"x", &a).ok().expect("encrypts");
    assert!(matches!(decrypt(&c, &b), Err(CryptoError::Decrypt)));
    assert!(matches!(decrypt(b"garbage", &a), Err(CryptoError::Decrypt)));
}

#[test]
fn store_opens_what_it_seals() {
    let store = Store::new("/cfg", Identity::generate());
    let text = "[vars]\nKEY = \"välue\"\n";
    let c = store.seal(text).ok().expect("seals");
    assert_eq!(store.open(&c).ok(), Some(text.to_string()));
}

#[test]
fn store_refuses_foreign_and_non_text_files() {
    let id = Identity::generate();
    let text_id = id.to_string();
    let store = Store::new("/cfg", id);
    assert!(matches!(store.open(b"nope"), Err(StoreError::Decrypt(_))));
    let same = Identity::from_file_text(&text_id).ok().unwrap();
    let c = encrypt(&[0xff, 0xfe, 0x00], &same).ok().unwrap();
    assert!(matches!(store.open(&c), Err(StoreError::NotUtf8)));
}

#[test]
fn store_paths() {
    let store = Store::new("/home/u/.config/envctl", Identity::generate());
    assert_eq!(store.repos_dir(), "/home/u/.config/envctl/repos");
    assert_eq!(store.repo_path("alpha", "api"), "/home/u/.config/envctl/repos/alpha/api.toml.age");
    assert_eq!(store.repo_path("/abs", "api"), "/abs/api.toml.age");
}

#[test]
fn file_names_round_trip() {
    assert_eq!(store_file_name("api"), "api.toml.age");
    assert_eq!(repo_of_file_name(&store_file_name("my.repo")), Some("my.repo".to_string()));
    assert_eq!(repo_of_file_name("notes.txt"), None);
    assert_eq!(repo_of_file_name(".toml.age"), Some("".to_string()));
    assert_eq!(repo_of_file_name("age"), None);
}

#[test]
fn config_paths_join_like_path_join() {
    assert_eq!(identity_path("/cfg"), "/cfg/identity.age");
    assert_eq!(identity_path("/cfg/"), "/cfg/identity.age");
    assert_eq!(registry_path("/cfg"), "/cfg/registry.toml");
    assert_eq!(join_path("", "x"), "x");
    assert_eq!(join_path("/a", "/b"), "/b");
    for (base, comp) in [("/cfg", "identity.age"), ("rel/dir/", "x"), ("", "y"), ("/a", "/abs")] {
        let expected = std::path::Path::new(base).join(comp).to_string_lossy().to_string();
        assert_eq!(join_path(base, comp), expected);
    }
}
