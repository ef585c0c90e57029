use ratatui_vault::crypt::{
    decrypt, decrypt_vault, encrypt, encrypt_vault, encrypt_with, generate_password,
    is_readable_vault, password_from_words, SecretString,
};
use ratatui_vault::model::Model;

#[test]
fn encrypt_then_decrypt_gives_back_the_text() {
    let password = SecretString::new("correct horse".to_owned());
    let model = encrypt(&password, "[Hello World]".to_owned()).unwrap();
    assert_eq!(model.version, 1);
    assert_eq!(model.nonce.len(), 24);
    assert_eq!(model.salt.len(), 16);
    assert_eq!(model.ciphertext.len(), "[Hello World]".len() + 16);
    let text = decrypt(b"correct horse".to_vec(), model).unwrap();
    assert_eq!(text, "[Hello World]");
}

#[test]
fn wrong_pass_phrase_is_reported() {
    let password = SecretString::new("correct horse".to_owned());
    let bytes = encrypt_vault("secret text".to_owned(), &password).unwrap();
    assert!(is_readable_vault(&bytes));
    let wrong = SecretString::new("battery staple".to_owned());
    let e = decrypt_vault(&bytes, &wrong).unwrap_err();
    assert_eq!(e.0, "Could not decrypt file with provided pass phrase");
    assert_eq!(decrypt_vault(&bytes, &password).unwrap(), "secret text");
}

#[test]
fn short_salt_is_refused_by_argon2() {
    let password = SecretString::new("pw".to_owned());
    let r = encrypt_with(&password, "x".to_owned(), vec![1, 2, 3], vec![0; 24]);
    assert_eq!(r.err().unwrap().0, "salt is too short");
}

#[test]
fn encrypt_with_is_deterministic_and_decrypts() {
    let password = SecretString::new("pw".to_owned());
    let a = encrypt_with(&password, "text".to_owned(), vec![7; 16], vec![3; 24]).unwrap();
    let b = encrypt_with(&password, "text".to_owned(), vec![7; 16], vec![3; 24]).unwrap();
    assert_eq!(a.ciphertext, b.ciphertext);
    assert_eq!(a.ciphertext.len(), 4 + 16);
    assert_eq!(decrypt(b"pw".to_vec(), a).unwrap(), "text");
}

#[test]
fn non_utf8_plaintext_is_an_error() {
    let password = SecretString::new("pw".to_owned());
    let mut m = encrypt_with(&password, "ok".to_owned(), vec![7; 16], vec![3; 24]).unwrap();
    // Tampering breaks authentication.
    m.ciphertext[0] ^= 1;
    assert_eq!(
        decrypt(b"pw".to_vec(), m).unwrap_err().0,
        "Could not decrypt file with provided pass phrase"
    );
}

#[test]
fn readable_vault_needs_24_byte_nonce() {
    let m = Model {
        version: 1,
        nonce: vec![0; 12],
        salt: vec![0; 16],
        ciphertext: vec![0; 16],
    };
    assert!(!is_readable_vault(&m.serialize()));
    assert!(!is_readable_vault(&[]));
}

#[test]
fn password_from_words_picks_charset_modulo_36() {
    assert_eq!(password_from_words(&vec![0, 25, 26, 35, 36, 37, u32::MAX]), "az09abd");
    assert_eq!(password_from_words(&vec![]), "");
}

#[test]
fn generated_password_has_size_and_charset() {
    let p = generate_password(40);
    assert_eq!(p.chars().count(), 40);
    assert!(p.chars().all(|c| c.is_ascii_lowercase() || c.is_ascii_digit()));
    assert_eq!(generate_password(0), "");
}

#[test]
fn secret_string_keeps_text() {
    let s = SecretString::new("abc".to_owned());
    assert_eq!(s.plaintext(), "abc");
}

#[test]
fn secret_strings_compare_by_text() {
    assert!(SecretString::new("a".to_owned()) == SecretString::new("a".to_owned()));
    assert!(SecretString::new("a".to_owned()) != SecretString::new("b".to_owned()));
}
