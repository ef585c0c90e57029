//! Changing the pass phrase of a vault.
use vstd::prelude::*;
use crate::crypt::{
    SecretString, decrypt_vault, encrypt_vault, readable_vault, sealable, vault_text,
    wrong_pass_phrase, wrong_pass_phrase_message,
};
use crate::error_string::Error;
use vstd::utf8::encode_utf8;

verus! {

/// Decrypts the vault content `vault` with `old_password` and encrypts its
/// text again under `new_password`; returns the new file content. The text
/// stays the same: the new vault reads, under the new pass phrase, as the
/// old one did under the old.
pub fn run(vault: &[u8], old_password: &SecretString, new_password: &SecretString) -> (r: Result<Vec<u8>, Error>)
    requires
        readable_vault(vault@),
    ensures
        r is Ok <==> vault_text(old_password@, vault@) is Some && encode_utf8(new_password@).len()
            <= u32::MAX,
        wrong_pass_phrase(old_password@, vault@) ==> (r matches Err(e) && e.0@
            == wrong_pass_phrase_message()),
        r matches Ok(bytes) ==> {
            &&& vault_text(old_password@, vault@) is Some
            &&& readable_vault(bytes@)
            &&& vault_text(new_password@, bytes@) == vault_text(old_password@, vault@)
        },
{
    let plaintext = match decrypt_vault(vault, old_password) {
        Ok(text) => text,
        Err(e) => return Err(e),
    };
    assert(sealable(vstd::utf8::encode_utf8(plaintext@)));
    encrypt_vault(plaintext, new_password)
}

} // verus!
