//! The encryption envelope of a vault: a key derived from the pass phrase
//! with Argon2id, the text sealed with XChaCha20-Poly1305.
use argon2::password_hash::Error as PasswordHashError;
use argon2::password_hash::SaltString;
use argon2::Error as Argon2Error;
use argon2::Argon2;
use chacha20poly1305::aead::{Aead, AeadCore, KeyInit, OsRng};
use chacha20poly1305::{Key, XChaCha20Poly1305, XNonce};
use rand_chacha::rand_core::{RngCore, SeedableRng};
use rand_chacha::ChaCha20Rng;
use std::string::FromUtf8Error;
use vstd::prelude::*;
use vstd::string::*;
use vstd::utf8::{decode_utf8, encode_utf8, valid_utf8};
use crate::error_string::Error;
use crate::model::{
    Model, ModelView, lemma_deserialize_serialize, lemma_deserialized_lengths, spec_deserialize,
    spec_serialize,
};

verus! {

broadcast use vstd::string::group_string_axioms;

#[verifier::external_type_specification]
#[verifier::external_body]
pub struct ExArgon2Error(Argon2Error);

#[verifier::external_type_specification]
#[verifier::external_body]
pub struct ExPasswordHashError(PasswordHashError);

#[verifier::external_type_specification]
#[verifier::external_body]
pub struct ExFromUtf8Error(FromUtf8Error);

#[verifier::external_type_specification]
#[verifier::external_body]
pub struct ExChaCha20Rng(ChaCha20Rng);

/// The 32-byte key that Argon2id with argon2's default parameters derives
/// from a password and a salt.
pub uninterp spec fn argon2id_key(password: Seq<u8>, salt: Seq<u8>) -> Seq<u8>;

/// The ciphertext (with its 16-byte tag appended) that XChaCha20-Poly1305
/// makes of a plaintext under a key and a nonce, with no associated data.
pub uninterp spec fn xchacha20poly1305_seal(key: Seq<u8>, nonce: Seq<u8>, plaintext: Seq<u8>) -> Seq<
    u8,
>;

/// The plaintext that XChaCha20-Poly1305 recovers from a ciphertext (with its
/// tag appended) under a key and a nonce, with no associated data; `None`
/// where the tag does not authenticate the ciphertext.
pub uninterp spec fn xchacha20poly1305_open(key: Seq<u8>, nonce: Seq<u8>, ciphertext: Seq<u8>) -> Option<
    Seq<u8>,
>;

/// The lengths that Argon2 accepts: a password of at most `u32::MAX` bytes,
/// a salt of 8 to `u32::MAX` bytes.
pub open spec fn argon2_accepts(password: Seq<u8>, salt: Seq<u8>) -> bool {
    password.len() <= u32::MAX && 8 <= salt.len() <= u32::MAX
}

/// The longest plaintext that XChaCha20-Poly1305 seals: fewer than
/// `u32::MAX` blocks of 64 bytes.
pub open spec fn sealable(plaintext: Seq<u8>) -> bool {
    plaintext.len() / 64 < u32::MAX
}

/// Calls `argon2::Argon2::hash_password_into` on `Argon2::default()`
/// (Argon2id, version 0x13, default costs, no secret) with a 32-byte output.
/// With these parameters the crate checks only the input lengths: it fails
/// exactly where the password is longer than `u32::MAX` bytes or the salt is
/// shorter than 8 or longer than `u32::MAX` bytes; otherwise the key is
/// `argon2id_key(password, salt)`. Which error comes back is not stated.
#[verifier::external_body]
fn derive_key(password: &[u8], salt: &[u8]) -> (r: Result<Vec<u8>, Argon2Error>)
    ensures
        r is Ok <==> argon2_accepts(password@, salt@),
        r matches Ok(key) ==> key@ == argon2id_key(password@, salt@) && key@.len() == 32,
{
    let mut key = [0u8; 32];
    match Argon2::default().hash_password_into(password, salt, &mut key) {
        Ok(()) => Ok(key.to_vec()),
        Err(e) => Err(e),
    }
}

/// Calls `Aead::encrypt` of `chacha20poly1305::XChaCha20Poly1305` (made from
/// the 32-byte key) with the 24-byte nonce and no associated data. The crate
/// fails only where the plaintext has `u32::MAX` or more blocks of 64 bytes;
/// otherwise the ciphertext is the named seal, 16 bytes (the tag) longer than
/// the plaintext, and opening it with the same key and nonce gives back the
/// plaintext.
#[verifier::external_body]
fn seal(key: &[u8], nonce: &[u8], plaintext: &[u8]) -> (r: Option<Vec<u8>>)
    requires
        key@.len() == 32,
        nonce@.len() == 24,
    ensures
        r is Some <==> sealable(plaintext@),
        r matches Some(c) ==> {
            &&& c@ == xchacha20poly1305_seal(key@, nonce@, plaintext@)
            &&& c@.len() == plaintext@.len() + 16
            &&& xchacha20poly1305_open(key@, nonce@, c@) == Some(plaintext@)
        },
{
    XChaCha20Poly1305::new(Key::from_slice(key)).encrypt(XNonce::from_slice(nonce), plaintext).ok()
}

/// Calls `Aead::decrypt` of `chacha20poly1305::XChaCha20Poly1305` (made from
/// the 32-byte key) with the 24-byte nonce and no associated data: the named
/// opening of the ciphertext, which drops the 16-byte tag.
#[verifier::external_body]
fn open(key: &[u8], nonce: &[u8], ciphertext: &[u8]) -> (r: Option<Vec<u8>>)
    requires
        key@.len() == 32,
        nonce@.len() == 24,
    ensures
        match xchacha20poly1305_open(key@, nonce@, ciphertext@) {
            Some(p) => r matches Some(v) && v@ == p,
            None => r is None,
        },
        r matches Some(p) ==> p@.len() + 16 == ciphertext@.len(),
{
    XChaCha20Poly1305::new(Key::from_slice(key)).decrypt(XNonce::from_slice(nonce), ciphertext).ok()
}

/// Calls `std::string::String::from_utf8`, which succeeds exactly on valid
/// UTF-8 and then holds the text that the bytes encode. The error's message
/// is not stated.
#[verifier::external_body]
fn string_from_utf8(bytes: Vec<u8>) -> (r: Result<String, FromUtf8Error>)
    ensures
        r is Ok <==> valid_utf8(bytes@),
        r matches Ok(s) ==> s@ == decode_utf8(bytes@),
{
    String::from_utf8(bytes)
}

/// Calls `SaltString::generate` with the operating system's random number
/// generator and decodes the salt it returns (`SaltString::decode_b64`)
/// into a 32-byte buffer, copying out the decoded bytes. As the
/// password-hash source shows, `generate` encodes 16 random bytes with the
/// same B64 encoding that `decode_b64` reads, so the decoding succeeds and
/// gives 16 bytes. Which bytes is not stated.
#[verifier::external_body]
fn random_salt() -> (r: Result<Vec<u8>, PasswordHashError>)
    ensures
        r is Ok,
        r matches Ok(bytes) ==> bytes@.len() == 16,
{
    let salt = SaltString::generate(&mut OsRng);
    let mut buffer = [0u8; 32];
    match salt.decode_b64(&mut buffer) {
        Ok(bytes) => Ok(bytes.to_vec()),
        Err(e) => Err(e),
    }
}

/// Calls `AeadCore::generate_nonce` of `XChaCha20Poly1305` with the operating
/// system's random number generator: 24 random bytes.
#[verifier::external_body]
fn generate_nonce() -> (nonce: Vec<u8>)
    ensures
        nonce@.len() == 24,
{
    XChaCha20Poly1305::generate_nonce(&mut OsRng).to_vec()
}

/// Calls `SeedableRng::from_os_rng` of `rand_chacha::ChaCha20Rng`: a
/// generator seeded from the operating system. Nothing is stated of it.
#[verifier::external_body]
fn seeded_generator() -> (rng: ChaCha20Rng) {
    ChaCha20Rng::from_os_rng()
}

/// Calls `RngCore::next_u32` of `rand_chacha::ChaCha20Rng`: the next random
/// word. Nothing is stated of it.
#[verifier::external_body]
fn next_word(rng: &mut ChaCha20Rng) -> (w: u32) {
    rng.next_u32()
}

/// A pass phrase; its text is handed out only by [`SecretString::plaintext`].
pub struct SecretString(String);

impl View for SecretString {
    type V = Seq<char>;

    closed spec fn view(&self) -> Seq<char> {
        self.0@
    }
}

impl PartialEq for SecretString {
    fn eq(&self, other: &SecretString) -> (same: bool) {
        self.0 == other.0
    }
}

impl vstd::std_specs::cmp::PartialEqSpecImpl for SecretString {
    open spec fn obeys_eq_spec() -> bool {
        true
    }

    open spec fn eq_spec(&self, other: &SecretString) -> bool {
        self@ == other@
    }
}

impl SecretString {
    pub fn new(s: String) -> (secret: SecretString)
        ensures
            secret@ == s@,
    {
        SecretString(s)
    }

    pub fn plaintext(&self) -> (text: &str)
        ensures
            text@ == self@,
    {
        self.0.as_str()
    }
}

/// The plaintext bytes sealed in `model` under `password`: `None` where
/// Argon2 refuses the lengths or the tag does not authenticate.
pub open spec fn opened(password: Seq<u8>, model: ModelView) -> Option<Seq<u8>> {
    if argon2_accepts(password, model.salt) {
        xchacha20poly1305_open(argon2id_key(password, model.salt), model.nonce, model.ciphertext)
    } else {
        None
    }
}

/// The text sealed in `model` under `password`: `None` where it cannot be
/// opened or is no valid UTF-8.
pub open spec fn decrypted(password: Seq<u8>, model: ModelView) -> Option<Seq<char>> {
    match opened(password, model) {
        Some(p) => if valid_utf8(p) {
            Some(decode_utf8(p))
        } else {
            None
        },
        None => None,
    }
}

/// The message of a failed authentication.
pub open spec fn wrong_pass_phrase_message() -> Seq<char> {
    "Could not decrypt file with provided pass phrase"@
}

/// Derives the key from `password` and the model's salt and opens the
/// ciphertext; the plaintext must be UTF-8.
pub fn decrypt(password: Vec<u8>, model: Model) -> (r: Result<String, Error>)
    requires
        model.nonce@.len() == 24,
    ensures
        match decrypted(password@, model@) {
            Some(text) => r matches Ok(s) && s@ == text,
            None => r is Err,
        },
        argon2_accepts(password@, model@.salt) && opened(password@, model@) is None ==> (r matches Err(
            e,
        ) && e.0@ == wrong_pass_phrase_message()),
        r matches Ok(s) ==> encode_utf8(s@).len() + 16 == model@.ciphertext.len(),
        r matches Ok(s) ==> xchacha20poly1305_open(
            argon2id_key(password@, model@.salt),
            model@.nonce,
            model@.ciphertext,
        ) == Some(encode_utf8(s@)),
        argon2_accepts(password@, model@.salt) && xchacha20poly1305_open(
            argon2id_key(password@, model@.salt),
            model@.nonce,
            model@.ciphertext,
        ) is None ==> r is Err,
{
    let key = match derive_key(password.as_slice(), model.salt.as_slice()) {
        Ok(key) => key,
        Err(e) => return Err(Error(e.to_string())),
    };
    let plaintext = match open(key.as_slice(), model.nonce.as_slice(), model.ciphertext.as_slice()) {
        Some(p) => p,
        None => return Err(
            Error(String::from_str("Could not decrypt file with provided pass phrase")),
        ),
    };
    let ghost p = plaintext@;
    match string_from_utf8(plaintext) {
        Ok(text) => {
            proof {
                vstd::utf8::decode_utf8_encode_utf8(p);
            }
            Ok(text)
        },
        Err(e) => Err(Error(e.to_string())),
    }
}

/// The model that [`encrypt_with`] makes of `plaintext` under `password`,
/// with the given salt and nonce.
pub open spec fn sealed_model(password: Seq<char>, plaintext: Seq<char>, salt: Seq<u8>, nonce: Seq<u8>) -> ModelView {
    ModelView {
        version: 1,
        nonce,
        salt,
        ciphertext: xchacha20poly1305_seal(
            argon2id_key(encode_utf8(password), salt),
            nonce,
            encode_utf8(plaintext),
        ),
    }
}

/// Seals `plaintext` under a key derived from `password` and `salt`, with
/// `nonce`: the model of version 1 that holds salt, nonce and ciphertext.
/// Where it succeeds, decrypting the model with the same password gives back
/// the plaintext.
pub fn encrypt_with(password: &SecretString, plaintext: String, salt: Vec<u8>, nonce: Vec<u8>) -> (r: Result<Model, Error>)
    requires
        nonce@.len() == 24,
        sealable(encode_utf8(plaintext@)),
    ensures
        r is Ok <==> argon2_accepts(encode_utf8(password@), salt@),
        r matches Ok(m) ==> {
            &&& m@ == sealed_model(password@, plaintext@, salt@, nonce@)
            &&& m@.version == 1 && m@.salt == salt@ && m@.nonce == nonce@
            &&& m@.ciphertext == xchacha20poly1305_seal(
                argon2id_key(encode_utf8(password@), salt@),
                nonce@,
                encode_utf8(plaintext@),
            )
            &&& m@.ciphertext.len() == encode_utf8(plaintext@).len() + 16
            &&& decrypted(encode_utf8(password@), m@) == Some(plaintext@)
        },
{
    let key = match derive_key(password.plaintext().as_bytes(), salt.as_slice()) {
        Ok(key) => key,
        Err(e) => return Err(Error(e.to_string())),
    };
    let ciphertext = seal(key.as_slice(), nonce.as_slice(), plaintext.as_str().as_bytes()).unwrap();
    proof {
        vstd::utf8::encode_utf8_valid_utf8(plaintext@);
        vstd::utf8::encode_utf8_decode_utf8(plaintext@);
    }
    Ok(Model { version: 1, salt, nonce, ciphertext })
}

/// Seals `plaintext` under `password` with a fresh random salt and nonce.
/// Where it succeeds, decrypting the model with the same password gives back
/// the plaintext.
pub fn encrypt(password: &SecretString, plaintext: String) -> (r: Result<Model, Error>)
    requires
        sealable(encode_utf8(plaintext@)),
    ensures
        r is Ok <==> encode_utf8(password@).len() <= u32::MAX,
        r matches Ok(m) ==> {
            &&& m@ == sealed_model(password@, plaintext@, m@.salt, m@.nonce)
            &&& m@.nonce.len() == 24
            &&& m@.salt.len() == 16
            &&& m@.ciphertext.len() == encode_utf8(plaintext@).len() + 16
            &&& decrypted(encode_utf8(password@), m@) == Some(plaintext@)
        },
{
    // Salt should be unique per password
    let salt = match random_salt() {
        Ok(bytes) => bytes,
        Err(e) => return Err(Error(e.to_string())),
    };
    let nonce = generate_nonce();
    encrypt_with(password, plaintext, salt, nonce)
}

/// Whether `bytes` hold a vault that [`decrypt_vault`] can work on: valid
/// content with a 24-byte nonce.
pub open spec fn readable_vault(bytes: Seq<u8>) -> bool {
    spec_deserialize(bytes) matches Some(m) && m.nonce.len() == 24
}

/// The text of the vault in `bytes` under `password`.
pub open spec fn vault_text(password: Seq<char>, bytes: Seq<u8>) -> Option<Seq<char>> {
    decrypted(encode_utf8(password), spec_deserialize(bytes).unwrap())
}

/// Whether `password` fails to authenticate the vault in `bytes`: Argon2
/// accepts the lengths, but the tag does not authenticate the ciphertext
/// under the derived key.
pub open spec fn wrong_pass_phrase(password: Seq<char>, bytes: Seq<u8>) -> bool {
    let m = spec_deserialize(bytes).unwrap();
    argon2_accepts(encode_utf8(password), m.salt) && opened(encode_utf8(password), m) is None
}

/// Whether `bytes` hold a vault that [`decrypt_vault`] can work on.
pub fn is_readable_vault(bytes: &[u8]) -> (b: bool)
    ensures
        b == readable_vault(bytes@),
{
    match Model::try_deserialize(bytes) {
        Some(model) => model.nonce.len() == 24,
        None => false,
    }
}

/// Reads the model from the file content `bytes` and decrypts it with `password`.
pub fn decrypt_vault(bytes: &[u8], password: &SecretString) -> (r: Result<String, Error>)
    requires
        readable_vault(bytes@),
    ensures
        match vault_text(password@, bytes@) {
            Some(text) => r matches Ok(s) && s@ == text,
            None => r is Err,
        },
        wrong_pass_phrase(password@, bytes@) ==> (r matches Err(e) && e.0@
            == wrong_pass_phrase_message()),
        r matches Ok(s) ==> encode_utf8(s@).len() + 16 <= u32::MAX,
{
    proof {
        lemma_deserialized_lengths(bytes@);
    }
    let model = Model::deserialize(bytes);
    let password_bytes = vstd::slice::slice_to_vec(password.plaintext().as_bytes());
    decrypt(password_bytes, model)
}

/// Encrypts `plaintext` under `password` and returns the file content. Where
/// the ciphertext's length fits the 32-bit length field, reading the file
/// back with the same password gives back the plaintext.
pub fn encrypt_vault(plaintext: String, password: &SecretString) -> (r: Result<Vec<u8>, Error>)
    requires
        sealable(encode_utf8(plaintext@)),
    ensures
        r is Ok <==> encode_utf8(password@).len() <= u32::MAX,
        r matches Ok(bytes) ==> exists|salt: Seq<u8>, nonce: Seq<u8>|
            {
                &&& nonce.len() == 24
                &&& salt.len() == 16
                &&& bytes@ == spec_serialize(
                    #[trigger] sealed_model(password@, plaintext@, salt, nonce),
                )
            },
        r matches Ok(bytes) ==> (encode_utf8(plaintext@).len() + 16 <= u32::MAX ==> {
            &&& readable_vault(bytes@)
            &&& vault_text(password@, bytes@) == Some(plaintext@)
        }),
{
    let ghost pt = plaintext@;
    let model = match encrypt(password, plaintext) {
        Ok(model) => model,
        Err(e) => return Err(e),
    };
    let bytes = model.serialize();
    proof {
        assert(bytes@ == spec_serialize(sealed_model(password@, pt, model@.salt, model@.nonce)));
        if encode_utf8(pt).len() + 16 <= u32::MAX {
            lemma_deserialize_serialize(model@);
        }
    }
    Ok(bytes)
}

/// The characters of generated passwords.
pub open spec fn charset() -> Seq<char> {
    "abcdefghijklmnopqrstuvwxyz0123456789"@
}

/// The password that the random words `words` select: for each word `w`,
/// the character of the charset at `w` modulo its size.
pub open spec fn password_of(words: Seq<u32>) -> Seq<char> {
    words.map_values(|w: u32| charset()[w as int % 36])
}

/// The password that the random words `words` select, one character each.
pub fn password_from_words(words: &Vec<u32>) -> (password: String)
    ensures
        password@ == password_of(words@),
{
    let letters: &str = "abcdefghijklmnopqrstuvwxyz0123456789";
    proof {
        reveal_strlit("abcdefghijklmnopqrstuvwxyz0123456789");
    }
    assert(letters@.len() == 36);
    let mut password = String::new();
    let mut i: usize = 0;
    while i < words.len()
        invariant
            i <= words.len(),
            letters@ == charset(),
            letters@.len() == 36,
            password@ == password_of(words@.take(i as int)),
        decreases words.len() - i,
    {
        // We are wasting (more than) 3 out of 4 bytes, which is ok.
        let index: usize = (words[i] % 36) as usize;
        let c: &str = letters.substring_char(index, index + 1);
        password.append(c);
        assert(c@ =~= seq![charset()[words@[i as int] as int % 36]]);
        assert(password_of(words@.take(i + 1)) =~= password_of(words@.take(i as int)).push(
            charset()[words@[i as int] as int % 36],
        ));
        i = i + 1;
    }
    assert(words@.take(words@.len() as int) =~= words@);
    password
}

/// Generate a cryptographically secure password.
pub fn generate_password(size: usize) -> (password: String)
    ensures
        password@.len() == size,
        forall|i: int| 0 <= i < size ==> charset().contains(#[trigger] password@[i]),
        exists|words: Seq<u32>| words.len() == size && password@ == #[trigger] password_of(words),
{
    let mut generator = seeded_generator();
    let mut words: Vec<u32> = Vec::new();
    let mut i: usize = 0;
    while i < size
        invariant
            i <= size,
            words@.len() == i,
        decreases size - i,
    {
        words.push(next_word(&mut generator));
        i = i + 1;
    }
    let password = password_from_words(&words);
    assert forall|i: int| 0 <= i < size implies charset().contains(#[trigger] password@[i]) by {
        reveal_strlit("abcdefghijklmnopqrstuvwxyz0123456789");
        let k = words@[i] as int % 36;
        assert(0 <= k < charset().len());
        assert(charset()[k] == password@[i]);
    }
    assert(password@ == password_of(words@));
    password
}

/// The key that opens a model is Argon2id of the pass phrase with the salt
/// exactly as the model stores it: where that key and the stored nonce
/// authenticate the ciphertext as UTF-8 text, the model decrypts to that text.
pub proof fn lemma_key_from_stored_salt(pw: Seq<u8>, m: ModelView, text: Seq<u8>)
    requires
        argon2_accepts(pw, m.salt),
        xchacha20poly1305_open(argon2id_key(pw, m.salt), m.nonce, m.ciphertext) == Some(text),
        valid_utf8(text),
    ensures
        opened(pw, m) == Some(text),
        decrypted(pw, m) == Some(decode_utf8(text)),
{
}

/// Where the key derived from the stored salt does not authenticate the
/// ciphertext, the model does not decrypt.
pub proof fn lemma_wrong_key_fails(pw: Seq<u8>, m: ModelView)
    requires
        xchacha20poly1305_open(argon2id_key(pw, m.salt), m.nonce, m.ciphertext) is None,
    ensures
        opened(pw, m) is None,
        decrypted(pw, m) is None,
{
}

/// A sealed model stores the salt, and the nonce, that its key and its
/// ciphertext were made with: the ciphertext is the seal of the text's
/// UTF-8 bytes under Argon2id of the pass phrase with that very salt.
pub proof fn lemma_sealed_model_stores_its_salt(
    phrase: Seq<char>,
    text: Seq<char>,
    stored_salt: Seq<u8>,
    stored_nonce: Seq<u8>,
)
    ensures
        ({
            let m = sealed_model(phrase, text, stored_salt, stored_nonce);
            &&& m.version == 1
            &&& m.salt == stored_salt
            &&& m.nonce == stored_nonce
            &&& m.ciphertext == xchacha20poly1305_seal(argon2id_key(encode_utf8(phrase), stored_salt), stored_nonce, encode_utf8(text))
        }),
{
}

} // verus!
