use bartender::payload::RegisterPayload;
use bartender::store::{CredentialStore, User, UserModel};

fn model(id: &str, username: &str, email: &str) -> UserModel {
    UserModel {
        id: id.to_string(),
        username: username.to_string(),
        email: email.to_string(),
        password_hash: "$2b$12$invalidinvalidinvalidinvalidinvalidinvalidinvalidinval".to_string(),
    }
}

const ID1: &str = "11111111-1111-4111-8111-111111111111";
const ID2: &str = "22222222-2222-4222-8222-222222222222";

#[test]
fn store_create_and_find() {
    let mut store = CredentialStore::new();
    assert!(store.create(model(ID1, "alice", "a@x.com")).is_ok());
    let found = store.find_by_username("alice").unwrap();
    assert_eq!(found.id, ID1);
    assert_eq!(found.email, "a@x.com");
    let by_id = store.find_by_id(ID1).unwrap();
    assert_eq!(by_id.username, "alice");
    assert!(store.find_by_username("bob").is_err());
    assert!(store.find_by_id(ID2).is_err());
}

#[test]
fn store_conflicts_are_uniqueness_conflicts() {
    let mut store = CredentialStore::new();
    assert!(store.create(model(ID1, "alice", "a@x.com")).is_ok());
    let same_username = store.create(model(ID2, "alice", "b@x.com")).unwrap_err();
    assert!(same_username.is_user_already_exists());
    let same_email = store.create(model(ID2, "bob", "a@x.com")).unwrap_err();
    assert!(same_email.is_user_already_exists());
    // an id collision is a storage fault, not a uniqueness answer
    let same_id = store.create(model(ID1, "carol", "c@x.com")).unwrap_err();
    assert!(!same_id.is_user_already_exists());
}

#[test]
fn try_from_builds_identity_with_fresh_id_and_hash() {
    let user = User::try_from(RegisterPayload {
        username: "alice".to_string(),
        email: "a@x.com".to_string(),
        password: "Secret1!".to_string(),
    })
    .unwrap();
    assert_eq!(user.username, "alice");
    assert_eq!(user.email, "a@x.com");
    assert!(uuid::Uuid::parse_str(&user.id).is_ok());
    assert_ne!(user.password_hash, "Secret1!");
    assert!(bartender::password::verify(&"Secret1!".to_string(), &user.password_hash));
}
