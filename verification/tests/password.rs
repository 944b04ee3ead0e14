use bartender::password::{hash, verify};
use bartender::payload::validate_password;

#[test]
fn verify_accepts_own_hash() {
    let p = "Secret1!".to_string();
    let h = hash(&p).unwrap();
    assert!(verify(&p, &h));
}

#[test]
fn verify_rejects_other_password() {
    let p = "Secret1!".to_string();
    let q = "Secret2!".to_string();
    let h = hash(&p).unwrap();
    assert!(!verify(&q, &h));
}

#[test]
fn two_hashes_of_one_password_differ_yet_both_verify() {
    let p = "Secret1!".to_string();
    let h1 = hash(&p).unwrap();
    let h2 = hash(&p).unwrap();
    assert_ne!(h1, h2);
    assert!(verify(&p, &h1));
    assert!(verify(&p, &h2));
}

#[test]
fn verify_is_false_on_malformed_hash() {
    let p = "Secret1!".to_string();
    assert!(!verify(&p, &"not-a-hash".to_string()));
}

#[test]
fn hash_agrees_with_bcrypt_directly() {
    let p = "Secret1!".to_string();
    let h = hash(&p).unwrap();
    assert!(bcrypt::verify("Secret1!", &h).unwrap());
}

#[test]
fn test_validate_password_ok() {
    let password = "Password123!";
    let result = validate_password(password);
    assert!(
        result.is_ok(),
        "Expected OK but validation failed with an error"
    );
}

#[test]
fn test_validate_password_err() {
    let password = "Password123";
    let result = validate_password(password);
    assert!(result.is_err(), "Expected error but returned OK");

    if let Err(e) = result {
        assert_eq!(e.code, "special_char");
        let message = e.message;
        assert!(
            message.contains("special character"),
            "Expected a message about the need for a special character"
        );
    }
}
