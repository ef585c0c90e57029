//! A terminal password manager's vault library: the encrypted file format,
//! the encryption envelope, and the queries run on the decrypted vault.

pub mod args;
pub mod commands;
pub mod crypt;
pub mod error_string;
pub mod git_credential_helper;
pub mod model;
pub mod ssh_ask_pass;
pub mod text;
pub mod ui;
