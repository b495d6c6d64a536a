//! Encryption with an age X25519 identity.
//!
//! An identity is held as its secret key text, in the canonical form that age
//! writes (`AGE-SECRET-KEY-1...`). What is encrypted to an identity decrypts
//! with it to the same bytes.

use age::secrecy::ExposeSecret;
use std::io::{Read, Write};
use vstd::prelude::*;

verus! {

/// The canonical secret key text of the age X25519 identity that `text` encodes,
/// or none when `text` encodes none.
pub uninterp spec fn age_identity_text(text: Seq<char>) -> Option<Seq<char>>;

/// The public key text (`age1...`) of the identity that `text` encodes.
pub uninterp spec fn age_public_key(text: Seq<char>) -> Seq<char>;

/// What age decryption of `ciphertext` with the identity that `identity` encodes
/// gives: the plaintext, or none when age refuses the file: malformed or damaged,
/// encrypted with a passphrase, or not encrypted to this identity.
pub uninterp spec fn age_decrypt(ciphertext: Seq<u8>, identity: Seq<char>) -> Option<Seq<u8>>;

/// Why encryption or decryption failed.
pub enum CryptoError {
    /// The text is not an age X25519 identity.
    InvalidIdentity,
    /// The encrypted stream could not be set up.
    Init,
    /// Writing the encrypted stream failed.
    Write,
    /// The input is not a file that this identity decrypts.
    Decrypt,
}

/// `age::x25519::Identity::generate` and `to_string`: a fresh random identity's
/// canonical secret key text, which parses back to itself.
#[verifier::external_body]
fn age_generate() -> (text: String)
    ensures
        age_identity_text(text@) == Some(text@),
{
    age::x25519::Identity::generate().to_string().expose_secret().to_string()
}

/// `<age::x25519::Identity as FromStr>::from_str` and `to_string`: the canonical
/// text of the identity that `text` encodes, which parses back to itself.
#[verifier::external_body]
fn age_parse_identity(text: &str) -> (r: Option<String>)
    ensures
        r is Some <==> age_identity_text(text@) is Some,
        r matches Some(c) ==> c@ == age_identity_text(text@)->0 && age_identity_text(c@) == Some(c@),
{
    match text.parse::<age::x25519::Identity>() {
        Ok(id) => Some(id.to_string().expose_secret().to_string()),
        Err(_) => None,
    }
}

/// `age::x25519::Identity::to_public`, written out: the public key text.
#[verifier::external_body]
fn age_recipient(identity: &str) -> (r: String)
    requires
        age_identity_text(identity@) is Some,
    ensures
        r@ == age_public_key(identity@),
{
    identity.parse::<age::x25519::Identity>().unwrap().to_public().to_string()
}

/// `age::Encryptor::with_recipients` and `wrap_output`: encrypts to the identity's
/// public key. It succeeds: the recipient list is not empty, and writing into a
/// `Vec` cannot fail. What comes back decrypts with the identity to the
/// plaintext; the ciphertext itself depends on fresh randomness.
#[verifier::external_body]
fn age_encrypt(plaintext: &[u8], identity: &str) -> (r: Result<Vec<u8>, CryptoError>)
    requires
        age_identity_text(identity@) is Some,
    ensures
        r is Ok,
        r matches Ok(c) ==> age_decrypt(c@, identity@) == Some(plaintext@),
{
    let id = identity.parse::<age::x25519::Identity>().unwrap();
    let encryptor = age::Encryptor::with_recipients(vec![Box::new(id.to_public())]).ok_or(CryptoError::Init)?;
    let mut ciphertext = Vec::new();
    let mut writer = encryptor.wrap_output(&mut ciphertext).map_err(|_| CryptoError::Init)?;
    writer.write_all(plaintext).map_err(|_| CryptoError::Write)?;
    writer.finish().map_err(|_| CryptoError::Write)?;
    Ok(ciphertext)
}

/// `age::Decryptor::new`, `RecipientsDecryptor::decrypt` and reading the stream:
/// the plaintext of a file encrypted to the identity; a passphrase-encrypted file
/// is refused.
#[verifier::external_body]
fn age_decrypt_bytes(ciphertext: &[u8], identity: &str) -> (r: Result<Vec<u8>, CryptoError>)
    requires
        age_identity_text(identity@) is Some,
    ensures
        r is Ok <==> age_decrypt(ciphertext@, identity@) is Some,
        r matches Ok(p) ==> p@ == age_decrypt(ciphertext@, identity@)->0,
        r matches Err(e) ==> e is Decrypt,
{
    let id = identity.parse::<age::x25519::Identity>().unwrap();
    let decryptor = match age::Decryptor::new(ciphertext).map_err(|_| CryptoError::Decrypt)? {
        age::Decryptor::Recipients(d) => d,
        age::Decryptor::Passphrase(_) => return Err(CryptoError::Decrypt),
    };
    let mut reader = decryptor.decrypt(std::iter::once(&id as &dyn age::Identity)).map_err(|_| CryptoError::Decrypt)?;
    let mut plaintext = Vec::new();
    reader.read_to_end(&mut plaintext).map_err(|_| CryptoError::Decrypt)?;
    Ok(plaintext)
}

/// An age X25519 identity, held as its canonical secret key text.
pub struct Identity {
    secret: String,
}

impl Identity {
    /// The secret key text is canonical: it parses to itself.
    #[verifier::type_invariant]
    spec fn inv(self) -> bool {
        age_identity_text(self.secret@) == Some(self.secret@)
    }

    /// The identity's secret key text.
    pub closed spec fn text(self) -> Seq<char> {
        self.secret@
    }

    /// A fresh random identity.
    pub fn generate() -> (id: Identity)
        ensures
            age_identity_text(id.text()) == Some(id.text()),
    {
        Identity { secret: age_generate() }
    }

    /// The secret key text, as written to the identity file.
    pub fn to_string(&self) -> (s: String)
        ensures
            s@ == self.text(),
            age_identity_text(s@) == Some(s@),
    {
        proof {
            use_type_invariant(self);
        }
        self.secret.clone()
    }

    /// Reads an identity from the text of an identity file; an error when the
    /// text encodes none.
    pub fn from_file_text(text: &str) -> (r: Result<Identity, CryptoError>)
        ensures
            r is Ok <==> age_identity_text(text@) is Some,
            r matches Ok(id) ==> id.text() == age_identity_text(text@)->0,
            r matches Err(e) ==> e is InvalidIdentity,
    {
        match age_parse_identity(text) {
            Some(c) => Ok(Identity { secret: c }),
            None => Err(CryptoError::InvalidIdentity),
        }
    }

    /// The public key text of this identity.
    pub fn recipient(&self) -> (r: String)
        ensures
            r@ == age_public_key(self.text()),
    {
        proof {
            use_type_invariant(self);
        }
        age_recipient(self.secret.as_str())
    }
}

/// Encrypts to the identity; it succeeds, and the result decrypts with it to the plaintext.
pub fn encrypt(plaintext: &[u8], identity: &Identity) -> (r: Result<Vec<u8>, CryptoError>)
    ensures
        r is Ok,
        r matches Ok(c) ==> age_decrypt(c@, identity.text()) == Some(plaintext@),
{
    proof {
        use_type_invariant(identity);
    }
    age_encrypt(plaintext, identity.secret.as_str())
}

/// Decrypts a file encrypted to the identity.
pub fn decrypt(ciphertext: &[u8], identity: &Identity) -> (r: Result<Vec<u8>, CryptoError>)
    ensures
        r is Ok <==> age_decrypt(ciphertext@, identity.text()) is Some,
        r matches Ok(p) ==> p@ == age_decrypt(ciphertext@, identity.text())->0,
        r matches Err(e) ==> e is Decrypt,
{
    proof {
        use_type_invariant(identity);
    }
    age_decrypt_bytes(ciphertext, identity.secret.as_str())
}

} // verus!
