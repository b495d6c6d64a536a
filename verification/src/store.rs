//! The encrypted store of variables: one file per site and repository, at
//! `repos/<site>/<repo>.toml.age` under the configuration directory, holding the
//! variables' TOML text encrypted to the user's identity.

use crate::crypto::{age_decrypt, decrypt, encrypt, CryptoError, Identity};
use crate::paths::{join, join_path};
use crate::text::{chars_of, push_char, string_of};
use vstd::prelude::*;
use vstd::utf8::{decode_utf8, encode_utf8, encode_utf8_decode_utf8, encode_utf8_valid_utf8, valid_utf8};

verus! {

/// `std::str::from_utf8`: the text that the bytes encode in UTF-8, if they are valid UTF-8.
#[verifier::external_body]
fn utf8_text(bytes: &[u8]) -> (r: Option<String>)
    ensures
        r is Some <==> valid_utf8(bytes@),
        r matches Some(s) ==> s@ == decode_utf8(bytes@),
{
    std::str::from_utf8(bytes).ok().map(|s| s.to_string())
}

/// Why a stored file could not be read.
pub enum StoreError {
    /// The file does not decrypt with the identity.
    Decrypt(CryptoError),
    /// The decrypted bytes are not UTF-8 text.
    NotUtf8,
}

/// The text a stored file holds: its decryption read as UTF-8.
pub open spec fn stored_text(ciphertext: Seq<u8>, identity: Seq<char>) -> Option<Seq<char>> {
    match age_decrypt(ciphertext, identity) {
        Some(p) => if valid_utf8(p) {
            Some(decode_utf8(p))
        } else {
            None
        },
        None => None,
    }
}

/// The name of a repository's file: `<repo>.toml.age`.
pub open spec fn file_name_of(repo: Seq<char>) -> Seq<char> {
    repo + ".toml.age"@
}

/// The name of the file that holds a repository's variables.
pub fn store_file_name(repo: &str) -> (r: String)
    ensures
        r@ == file_name_of(repo@),
{
    let mut out = string_of(chars_of(repo).as_slice());
    let suffix = chars_of(".toml.age");
    let mut i: usize = 0;
    let ghost start = out@;
    while i < suffix.len()
        invariant
            i <= suffix@.len(),
            out@ == start + suffix@.take(i as int),
        decreases suffix@.len() - i,
    {
        push_char(&mut out, suffix[i]);
        i = i + 1;
        assert(out@ =~= start + suffix@.take(i as int));
    }
    assert(suffix@.take(suffix@.len() as int) =~= suffix@);
    out
}

/// The repository whose variables a file holds, if its name ends in `.toml.age`.
pub fn repo_of_file_name(fname: &str) -> (r: Option<String>)
    ensures
        r is Some <==> (fname@.len() >= 9 && fname@.skip(fname@.len() - 9) == ".toml.age"@),
        r matches Some(n) ==> n@ == fname@.take(fname@.len() - 9),
{
    let f = chars_of(fname);
    let suffix = chars_of(".toml.age");
    proof {
        reveal_strlit(".toml.age");
    }
    if f.len() < suffix.len() {
        return None;
    }
    let n = f.len();
    let start = n - suffix.len();
    assert(suffix@.len() == 9);
    let mut i: usize = 0;
    while i < suffix.len()
        invariant
            i <= suffix@.len(),
            n == f@.len(),
            f@ == fname@,
            suffix@ == ".toml.age"@,
            start + suffix@.len() == n,
            forall|j: int| 0 <= j < i ==> f@[start + j] == suffix@[j],
        decreases suffix@.len() - i,
    {
        if f[start + i] != suffix[i] {
            assert(f@.skip(start as int)[i as int] != suffix@[i as int]);
            return None;
        }
        i = i + 1;
    }
    assert(f@.skip(start as int) =~= suffix@);
    assert(f@.subrange(0, start as int) =~= f@.take(start as int));
    Some(string_of(vstd::slice::slice_subrange(f.as_slice(), 0, start)))
}

/// A repository's file name gives back the repository.
pub proof fn lemma_file_name_round_trip(repo: Seq<char>)
    ensures
        file_name_of(repo).len() >= 9,
        file_name_of(repo).skip(file_name_of(repo).len() - 9) == ".toml.age"@,
        file_name_of(repo).take(file_name_of(repo).len() - 9) == repo,
{
    reveal_strlit(".toml.age");
    let f = file_name_of(repo);
    assert(f.skip(f.len() - 9) =~= ".toml.age"@);
    assert(f.take(f.len() - 9) =~= repo);
}

/// Where the variables are kept, and the identity that encrypts them.
pub struct Store {
    repos_dir: String,
    identity: Identity,
}

impl Store {
    /// The directory that holds the sites' directories.
    pub closed spec fn dir(self) -> Seq<char> {
        self.repos_dir@
    }

    /// The secret key text of the store's identity.
    pub closed spec fn key(self) -> Seq<char> {
        self.identity.text()
    }

    /// A store in `repos` under the configuration directory.
    pub fn new(config_dir: &str, identity: Identity) -> (s: Store)
        ensures
            s.dir() == join(config_dir@, "repos"@),
            s.key() == identity.text(),
    {
        Store { repos_dir: join_path(config_dir, "repos"), identity }
    }

    /// The directory that holds the sites' directories.
    pub fn repos_dir(&self) -> (d: &str)
        ensures
            d@ == self.dir(),
    {
        self.repos_dir.as_str()
    }

    /// The file that holds a repository's variables for a site.
    pub fn repo_path(&self, rs: &str, repo: &str) -> (p: String)
        ensures
            p@ == join(join(self.dir(), rs@), file_name_of(repo@)),
    {
        let dir = join_path(self.repos_dir.as_str(), rs);
        let name = store_file_name(repo);
        join_path(dir.as_str(), name.as_str())
    }

    /// What `save` writes for the variables' text: the text encrypted to the identity.
    pub fn seal(&self, plaintext: &str) -> (r: Result<Vec<u8>, CryptoError>)
        ensures
            r is Ok,
            r matches Ok(c) ==> stored_text(c@, self.key()) == Some(plaintext@),
    {
        let r = encrypt(plaintext.as_bytes(), &self.identity);
        proof {
            encode_utf8_valid_utf8(plaintext@);
            encode_utf8_decode_utf8(plaintext@);
        }
        r
    }

    /// What `load` reads from a stored file: its text, decrypted with the identity.
    pub fn open(&self, ciphertext: &[u8]) -> (r: Result<String, StoreError>)
        ensures
            r is Ok <==> stored_text(ciphertext@, self.key()) is Some,
            r matches Ok(t) ==> t@ == stored_text(ciphertext@, self.key())->0,
            r matches Err(StoreError::NotUtf8) ==> age_decrypt(ciphertext@, self.key()) is Some,
            r matches Err(StoreError::Decrypt(e)) ==> age_decrypt(ciphertext@, self.key()) is None && e is Decrypt,
    {
        let plaintext = match decrypt(ciphertext, &self.identity) {
            Ok(p) => p,
            Err(e) => return Err(StoreError::Decrypt(e)),
        };
        match utf8_text(plaintext.as_slice()) {
            Some(t) => Ok(t),
            None => Err(StoreError::NotUtf8),
        }
    }
}

/// What a store seals, it opens again: the text saved is the text loaded.
pub proof fn lemma_open_sealed(store: Store, plaintext: Seq<char>, ciphertext: Seq<u8>)
    requires
        age_decrypt(ciphertext, store.key()) == Some(encode_utf8(plaintext)),
    ensures
        stored_text(ciphertext, store.key()) == Some(plaintext),
{
    encode_utf8_valid_utf8(plaintext);
    encode_utf8_decode_utf8(plaintext);
}

} // verus!
