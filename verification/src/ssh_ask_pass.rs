//! An `SSH_ASKPASS` program: ssh asks for the password of `(user@host)`,
//! the program answers it from the vault section named `user@host`.
use vstd::prelude::*;
use vstd::string::*;
use crate::commands::query::{query_section_value, section_value};
use crate::crypt::{
    SecretString, decrypt_vault, readable_vault, vault_text, wrong_pass_phrase,
    wrong_pass_phrase_message,
};
use crate::error_string::Error;
use crate::text::{chars_of, find, find_char};

verus! {

broadcast use vstd::string::group_string_axioms;

/// The host that ssh names in its prompt: the one positional argument, when
/// it starts with `(`, up to the first `)`; there must be no options.
pub open spec fn prompt_host(positional: Seq<Seq<char>>, n_options: nat) -> Option<Seq<char>> {
    if positional.len() == 1 && n_options == 0 {
        let arg = positional[0];
        if arg.len() > 0 && arg[0] == '(' {
            match find_char(arg, ')') {
                Some(i) => Some(arg.subrange(1, i)),
                None => None,
            }
        } else {
            None
        }
    } else {
        None
    }
}

/// The host that ssh asks the password for, from the arguments it passes.
pub fn ssh_host(positional: &[String], options: &[[String; 2]]) -> (host: Option<String>)
    ensures
        ({
            let expected = prompt_host(positional@.map_values(|p: String| p@), options@.len());
            match expected {
                Some(h) => host matches Some(s) && s@ == h,
                None => host is None,
            }
        }),
{
    if positional.len() == 1 && options.len() == 0 {
        let arg: &str = positional[0].as_str();
        assert(positional@.map_values(|p: String| p@)[0] == arg@);
        let chars = chars_of(arg);
        if chars.len() > 0 && chars[0] == '(' {
            match find(&chars, ')') {
                Some(index) => {
                    proof {
                        crate::text::lemma_find_char(arg@, ')');
                    }
                    Some(arg.substring_char(1, index).to_owned())
                },
                None => None,
            }
        } else {
            None
        }
    } else {
        None
    }
}

/// The password of `section` in the vault content `vault`, decrypted with
/// `master_password`.
pub fn vault_credential(vault: &[u8], master_password: &SecretString, section: &str) -> (r: Result<
    SecretString,
    Error,
>)
    requires
        readable_vault(vault@),
    ensures
        match vault_text(master_password@, vault@) {
            None => r is Err,
            Some(text) => match section_value(text, section@, "password"@) {
                Some(p) => r matches Ok(c) && c@ == p,
                None => r matches Err(e) && e.0@ == "Could not find ssh_password in section "@
                    + section@,
            },
        },
        wrong_pass_phrase(master_password@, vault@) ==> (r matches Err(e) && e.0@
            == wrong_pass_phrase_message()),
{
    let haystack = match decrypt_vault(vault, master_password) {
        Ok(text) => text,
        Err(e) => return Err(e),
    };
    match query_section_value(haystack.as_str(), section, "password") {
        Some(credential) => Ok(SecretString::new(credential)),
        None => {
            let mut message = String::from_str("Could not find ssh_password in section ");
            message.append(section);
            Err(Error(message))
        },
    }
}

} // verus!
