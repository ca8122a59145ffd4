use passlock::cli::{CreateArgs, DeleteArgs, ReadArgs, UpdateArgs};
use passlock::entry::Credential;
use passlock::store::CredentialStore;
use passlock::{Commands, Error};

#[test]
fn end_to_end_store_and_read() {
    let mut store = CredentialStore::new();
    let cred = Credential::new("alice", "p@ss1", "hunter2").unwrap();
    store.upsert(&"GitHub".to_lowercase(), cred);
    let got = store.get("github", "alice", "hunter2").unwrap();
    assert_eq!(got, Some("p@ss1".to_string()));
}

#[test]
fn end_to_end_wrong_master() {
    let mut store = CredentialStore::new();
    let cred = Credential::new("alice", "p@ss1", "hunter2").unwrap();
    store.upsert("github", cred);
    assert!(matches!(
        store.get("github", "alice", "wrongpass"),
        Err(Error::AESGCMError)
    ));
}

#[test]
fn end_to_end_missing_entry() {
    let store = CredentialStore::new();
    assert_eq!(store.get("never-created", "alice", "m").unwrap(), None);
}

#[test]
fn missing_username_in_existing_entry() {
    let mut store = CredentialStore::new();
    store.upsert("github", Credential::new("alice", "p@ss1", "m").unwrap());
    assert_eq!(store.get("github", "bob", "m").unwrap(), None);
}

#[test]
fn upsert_replaces_single_record() {
    let mut store = CredentialStore::new();
    store.upsert("site", Credential::new("bob", "first", "m").unwrap());
    let first_ciphertext = store.buckets()[0].credentials[0].ciphertext.clone();
    store.upsert("site", Credential::new("bob", "second", "m").unwrap());
    assert_eq!(store.buckets().len(), 1);
    assert_eq!(store.buckets()[0].credentials.len(), 1);
    let second_ciphertext = store.buckets()[0].credentials[0].ciphertext.clone();
    assert_ne!(first_ciphertext, second_ciphertext);
    assert_eq!(store.get("site", "bob", "m").unwrap(), Some("second".to_string()));
}

#[test]
fn upsert_fresh_salt_and_nonce_each_write() {
    let mut store = CredentialStore::new();
    store.upsert("site", Credential::new("bob", "same", "m").unwrap());
    let first = store.buckets()[0].credentials[0].clone();
    store.upsert("site", Credential::new("bob", "same", "m").unwrap());
    let second = store.buckets()[0].credentials[0].clone();
    assert_ne!(first.salt, second.salt);
    assert_ne!(first.nonce, second.nonce);
}

#[test]
fn two_usernames_one_entry() {
    let mut store = CredentialStore::new();
    store.upsert("site", Credential::new("alice", "a-pass", "m").unwrap());
    store.upsert("site", Credential::new("bob", "b-pass", "m").unwrap());
    assert_eq!(store.buckets().len(), 1);
    assert_eq!(store.buckets()[0].credentials.len(), 2);
    assert_eq!(store.get("site", "alice", "m").unwrap(), Some("a-pass".to_string()));
    assert_eq!(store.get("site", "bob", "m").unwrap(), Some("b-pass".to_string()));
    store.delete("site", "alice");
    assert_eq!(store.buckets().len(), 1);
    assert_eq!(store.get("site", "alice", "m").unwrap(), None);
    assert_eq!(store.get("site", "bob", "m").unwrap(), Some("b-pass".to_string()));
}

#[test]
fn delete_idempotent_and_removes_empty_entry() {
    let mut store = CredentialStore::new();
    store.delete("ghost", "nobody");
    assert_eq!(store.buckets().len(), 0);
    store.upsert("site", Credential::new("bob", "pw", "m").unwrap());
    let snapshot = store.clone();
    store.delete("site", "alice");
    assert_eq!(store, snapshot);
    store.delete("other-entry", "bob");
    assert_eq!(store, snapshot);
    store.delete("site", "bob");
    assert_eq!(store.buckets().len(), 0);
    assert_eq!(store.get("site", "bob", "m").unwrap(), None);
    store.delete("site", "bob");
    assert_eq!(store.buckets().len(), 0);
}

#[test]
fn commands_dispatch() {
    let mut store = CredentialStore::new();
    let create = Commands::Create(CreateArgs {
        entry: "github".to_string(),
        username: "alice".to_string(),
        password: "p@ss1".to_string(),
        master: "hunter2".to_string(),
    });
    assert_eq!(create.process_command(&mut store).unwrap(), None);
    let read = Commands::Read(ReadArgs {
        entry: "github".to_string(),
        username: "alice".to_string(),
        master: "hunter2".to_string(),
    });
    assert_eq!(
        read.process_command(&mut store).unwrap(),
        Some("p@ss1".to_string())
    );
    let update = Commands::Update(UpdateArgs {
        entry: "github".to_string(),
        username: "alice".to_string(),
        password: "newpass".to_string(),
        master: "hunter2".to_string(),
    });
    assert_eq!(update.process_command(&mut store).unwrap(), None);
    let read_again = Commands::Read(ReadArgs {
        entry: "github".to_string(),
        username: "alice".to_string(),
        master: "hunter2".to_string(),
    });
    assert_eq!(
        read_again.process_command(&mut store).unwrap(),
        Some("newpass".to_string())
    );
    let delete = Commands::Delete(DeleteArgs {
        entry: "github".to_string(),
        username: "alice".to_string(),
    });
    assert_eq!(delete.process_command(&mut store).unwrap(), None);
    let read_gone = Commands::Read(ReadArgs {
        entry: "github".to_string(),
        username: "alice".to_string(),
        master: "hunter2".to_string(),
    });
    assert_eq!(read_gone.process_command(&mut store).unwrap(), None);
}

#[test]
fn upsert_hashed_merges_like_upsert() {
    let mut store = CredentialStore::new();
    let c1 = Credential::new("alice", "one", "m").unwrap();
    let eh = passlock::entry::hash_sha256("site");
    store.upsert_hashed(eh.clone(), c1);
    let c2 = Credential::new("alice", "two", "m").unwrap();
    store.upsert_hashed(eh.clone(), c2);
    assert_eq!(store.buckets().len(), 1);
    assert_eq!(store.buckets()[0].entry_hash, eh);
    assert_eq!(store.buckets()[0].credentials.len(), 1);
    assert_eq!(store.get("site", "alice", "m").unwrap(), Some("two".to_string()));
}
