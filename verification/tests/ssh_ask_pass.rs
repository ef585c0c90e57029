use ratatui_vault::crypt::{encrypt_vault, SecretString};
use ratatui_vault::ssh_ask_pass::{ssh_host, vault_credential};

#[test]
fn test_ssh_host() {
    let host = ssh_host(&["(user@a.b.de) Password: ".to_owned()], &[]);
    assert_eq!(host.unwrap(), "user@a.b.de");

    let host = ssh_host(&["(user@a.b.de)".to_owned()], &[]);
    assert_eq!(host.unwrap(), "user@a.b.de");
}

#[test]
fn ssh_host_needs_parentheses_and_no_options() {
    assert_eq!(ssh_host(&["user@a.b.de".to_owned()], &[]), None);
    assert_eq!(ssh_host(&["(user@a.b.de".to_owned()], &[]), None);
    assert_eq!(ssh_host(&["()".to_owned()], &[]), Some(String::new()));
    assert_eq!(
        ssh_host(&["(h)".to_owned()], &[["x".to_owned(), String::new()]]),
        None
    );
}

#[test]
fn vault_credential_reads_password_of_section() {
    let password = SecretString::new("pw-pw-pw".to_owned());
    let vault = encrypt_vault("[u@h]\npassword=abc\n".to_owned(), &password).unwrap();
    assert_eq!(vault_credential(&vault, &password, "u@h").unwrap().plaintext(), "abc");
    let e = vault_credential(&vault, &password, "x@y").err().unwrap();
    assert_eq!(e.0, "Could not find ssh_password in section x@y");
}
