//! Storage form of API keys: AES-256-GCM under a key that Argon2 derives from
//! the machine identifier and a salt, written as base64.

use crate::error::Error;
use crate::text::{
    cat, contains, contains_spec, join_spec, joined_texts_occur, lemma_join_splits_back, lines,
    lines_spec, split, split_spec, starts_with_spec, texts, trim, trim_spec,
};
use aes_gcm::aead::{Aead, KeyInit};
use base64::Engine;
use rand::RngCore;
use vstd::prelude::*;
use vstd::slice::*;
use vstd::string::*;
use vstd::utf8::*;

verus! {

/// The key that `Argon2::default().hash_password_into` derives into 32 bytes.
pub uninterp spec fn argon2_key(password: Seq<u8>, salt: Seq<u8>) -> Seq<u8>;

/// The ciphertext, tag included, that AES-256-GCM gives without associated
/// data.
pub uninterp spec fn gcm_encrypt(key: Seq<u8>, nonce: Seq<u8>, plain: Seq<u8>) -> Seq<u8>;

/// The plaintext that AES-256-GCM recovers, where the tag is right.
pub uninterp spec fn gcm_decrypt(key: Seq<u8>, nonce: Seq<u8>, sealed: Seq<u8>) -> Option<Seq<u8>>;

/// The standard padded base64 text of some bytes.
pub uninterp spec fn base64_text(bytes: Seq<u8>) -> Seq<char>;

/// The bytes that a standard padded base64 text stands for, or what is wrong
/// with the text.
pub uninterp spec fn base64_bytes(text: Seq<char>) -> Result<Seq<u8>, Seq<char>>;

/// The outcome of decoding a text that stands for the given bytes.
pub open spec fn decodes_to(bytes: Seq<u8>) -> Result<Seq<u8>, Seq<char>> {
    Ok(bytes)
}

/// What `String::from_utf8` reports of bytes that are no UTF-8.
pub uninterp spec fn utf8_complaint(bytes: Seq<u8>) -> Seq<char>;

/// The longest plaintext that AES-GCM takes, in bytes.
pub open spec fn gcm_max() -> int {
    0x10_0000_0000
}

/// The longest password or salt that Argon2 takes, in bytes.
pub open spec fn argon2_max() -> int {
    0xffff_ffff
}

/// `argon2::Argon2::hash_password_into` with the default parameters: derives
/// 32 bytes from a password and a salt. It refuses a password or salt of more
/// than 2^32 - 1 bytes and a salt of less than eight.
#[verifier::external_body]
fn derive_key(password: &[u8], salt: &[u8]) -> (r: Result<Vec<u8>, String>)
    ensures
        match r {
            Ok(k) => password@.len() <= argon2_max() && 8 <= salt@.len() <= argon2_max() && k@
                == argon2_key(password@, salt@) && k@.len() == 32,
            Err(e) => if password@.len() > argon2_max() {
                e@ == "password is too long"@
            } else if salt@.len() < 8 {
                e@ == "salt is too short"@
            } else {
                salt@.len() > argon2_max() && e@ == "salt is too long"@
            },
        },
{
    let mut key = vec![0u8; 32];
    argon2::Argon2::default()
        .hash_password_into(password, salt, &mut key)
        .map(|()| key)
        .map_err(|e| e.to_string())
}

/// `aes_gcm::Aes256Gcm::encrypt` without associated data. It refuses only a
/// plaintext of more than 2^36 bytes; what it gives is decrypted again under
/// the same key and nonce.
#[verifier::external_body]
fn seal_bytes(key: &[u8], nonce: &[u8], plain: &[u8]) -> (r: Result<Vec<u8>, String>)
    requires
        key@.len() == 32,
        nonce@.len() == 12,
    ensures
        match r {
            Ok(c) => {
                &&& plain@.len() <= gcm_max()
                &&& c@ == gcm_encrypt(key@, nonce@, plain@)
                &&& c@.len() == plain@.len() + 16
                &&& gcm_decrypt(key@, nonce@, c@) == Some(plain@)
            },
            Err(e) => plain@.len() > gcm_max() && e@ == "aead::Error"@,
        },
{
    aes_gcm::Aes256Gcm::new(aes_gcm::Key::<aes_gcm::Aes256Gcm>::from_slice(key))
        .encrypt(aes_gcm::Nonce::from_slice(nonce), plain)
        .map_err(|e| e.to_string())
}

/// `aes_gcm::Aes256Gcm::decrypt` without associated data: the plaintext where
/// the tag is right, an error otherwise.
#[verifier::external_body]
fn open_bytes(key: &[u8], nonce: &[u8], sealed: &[u8]) -> (r: Result<Vec<u8>, String>)
    requires
        key@.len() == 32,
        nonce@.len() == 12,
    ensures
        match r {
            Ok(p) => gcm_decrypt(key@, nonce@, sealed@) == Some(p@),
            Err(e) => gcm_decrypt(key@, nonce@, sealed@) is None && e@ == "aead::Error"@,
        },
{
    aes_gcm::Aes256Gcm::new(aes_gcm::Key::<aes_gcm::Aes256Gcm>::from_slice(key))
        .decrypt(aes_gcm::Nonce::from_slice(nonce), sealed)
        .map_err(|e| e.to_string())
}

/// `base64::engine::general_purpose::STANDARD.encode`: four characters for
/// every three bytes begun, and the text is decoded to the same bytes again.
#[verifier::external_body]
fn to_base64(bytes: &[u8]) -> (r: String)
    ensures
        r@ == base64_text(bytes@),
        r@.len() == (bytes@.len() + 2) / 3 * 4,
        base64_bytes(r@) == decodes_to(bytes@),
{
    base64::engine::general_purpose::STANDARD.encode(bytes)
}

/// `base64::engine::general_purpose::STANDARD.decode`: a function of the text.
#[verifier::external_body]
fn from_base64(text: &str) -> (r: Result<Vec<u8>, String>)
    ensures
        match r {
            Ok(b) => base64_bytes(text@) == Ok::<Seq<u8>, Seq<char>>(b@),
            Err(e) => base64_bytes(text@) == Err::<Seq<u8>, Seq<char>>(e@),
        },
{
    base64::engine::general_purpose::STANDARD.decode(text).map_err(|e| e.to_string())
}

/// `rand::thread_rng().fill_bytes`: as many random bytes as asked for. Of
/// their values nothing is known.
#[verifier::external_body]
fn random_bytes(n: usize) -> (r: Vec<u8>)
    ensures
        r@.len() == n,
{
    let mut bytes = vec![0u8; n];
    rand::thread_rng().fill_bytes(&mut bytes);
    bytes
}

/// `String::from_utf8`: the text where the bytes are UTF-8, a complaint that
/// depends on the bytes alone where they are not.
#[verifier::external_body]
fn utf8_text(bytes: Vec<u8>) -> (r: Result<String, String>)
    ensures
        match r {
            Ok(s) => valid_utf8(bytes@) && s@ == decode_utf8(bytes@),
            Err(e) => !valid_utf8(bytes@) && e@ == utf8_complaint(bytes@),
        },
{
    String::from_utf8(bytes).map_err(|e| e.to_string())
}

/// Encrypts and decrypts API keys under one derived key.
pub struct KeyStore {
    key: Vec<u8>,
}

/// What a stored text decrypts to under a key, or why it does not.
pub open spec fn decrypted(key: Seq<u8>, encoded: Seq<char>) -> Result<Seq<char>, Seq<char>> {
    match base64_bytes(encoded) {
        Err(e) => Err("Base64 decode failed: "@ + e),
        Ok(c) => if c.len() < 12 {
            Err("Invalid ciphertext length"@)
        } else {
            match gcm_decrypt(key, c.take(12), c.skip(12)) {
                None => Err("Decryption failed: "@ + "aead::Error"@),
                Some(p) => if valid_utf8(p) {
                    Ok(decode_utf8(p))
                } else {
                    Err("UTF-8 decode failed: "@ + utf8_complaint(p))
                },
            }
        },
    }
}

/// The stored text of a plaintext under a key and a nonce.
pub open spec fn encrypted(key: Seq<u8>, nonce: Seq<u8>, plain: Seq<char>) -> Seq<char> {
    base64_text(nonce + gcm_encrypt(key, nonce, encode_utf8(plain)))
}

impl KeyStore {
    /// The derived key.
    pub closed spec fn key(self) -> Seq<u8> {
        self.key@
    }

    /// The derived key has the length that the cipher takes.
    #[verifier::type_invariant]
    pub closed spec fn wf(self) -> bool {
        self.key@.len() == 32
    }

    /// A key store for a machine and a salt. The salt has to be the one that
    /// the stored texts were written with; a new one makes them unreadable.
    pub fn new(machine_id: &[u8], salt: &[u8]) -> (r: Result<KeyStore, Error>)
        ensures
            match r {
                Ok(k) => machine_id@.len() <= argon2_max() && 8 <= salt@.len() <= argon2_max()
                    && k.key() == argon2_key(machine_id@, salt@) && k.key().len() == 32,
                Err(e) => {
                    &&& e is Config
                    &&& e->Config_0@ == "Key derivation failed: "@ + (if machine_id@.len()
                        > argon2_max() {
                        "password is too long"@
                    } else if salt@.len() < 8 {
                        "salt is too short"@
                    } else {
                        "salt is too long"@
                    })
                    &&& machine_id@.len() > argon2_max() || salt@.len() < 8 || salt@.len()
                        > argon2_max()
                },
            },
    {
        match derive_key(machine_id, salt) {
            Ok(key) => Ok(KeyStore { key }),
            Err(e) => Err(Error::Config(cat("Key derivation failed: ", e.as_str()))),
        }
    }

    /// Encrypts a plaintext under the given nonce.
    pub fn encrypt_with_nonce(&self, nonce: &[u8], plaintext: &str) -> (r: Result<String, Error>)
        requires
            nonce@.len() == 12,
        ensures
            match r {
                Ok(s) => encode_utf8(plaintext@).len() <= gcm_max() && s@ == encrypted(
                    self.key(),
                    nonce@,
                    plaintext@,
                ) && s@.len() > 0 && decrypted(self.key(), s@) == Ok::<Seq<char>, Seq<char>>(
                    plaintext@,
                ),
                Err(e) => encode_utf8(plaintext@).len() > gcm_max() && e is Config && e->Config_0@
                    == "Encryption failed: "@ + "aead::Error"@,
            },
    {
        proof {
            use_type_invariant(self);
        }
        match seal_bytes(self.key.as_slice(), nonce, plaintext.as_bytes()) {
            Ok(sealed) => {
                let mut combined = slice_to_vec(nonce);
                let mut tail = sealed;
                combined.append(&mut tail);
                let s = to_base64(combined.as_slice());
                proof {
                    assert(combined@ == nonce@ + sealed@);
                    assert(combined@.take(12) =~= nonce@);
                    assert(combined@.skip(12) =~= sealed@);
                    encode_utf8_valid_utf8(plaintext@);
                    encode_utf8_decode_utf8(plaintext@);
                }
                Ok(s)
            },
            Err(e) => Err(Error::Config(cat("Encryption failed: ", e.as_str()))),
        }
    }

    /// Encrypts a plaintext under a fresh random nonce. Whatever the nonce,
    /// the text decrypts to the plaintext again.
    pub fn encrypt(&self, plaintext: &str) -> (r: Result<String, Error>)
        ensures
            match r {
                Ok(s) => {
                    &&& encode_utf8(plaintext@).len() <= gcm_max()
                    &&& exists|nonce: Seq<u8>|
                        nonce.len() == 12 && s@ == #[trigger] encrypted(
                            self.key(),
                            nonce,
                            plaintext@,
                        )
                    &&& s@.len() > 0
                    &&& decrypted(self.key(), s@) == Ok::<Seq<char>, Seq<char>>(plaintext@)
                },
                Err(e) => encode_utf8(plaintext@).len() > gcm_max() && e is Config && e->Config_0@
                    == "Encryption failed: "@ + "aead::Error"@,
            },
    {
        let nonce = random_bytes(12);
        self.encrypt_with_nonce(nonce.as_slice(), plaintext)
    }

    /// Decrypts a stored text.
    pub fn decrypt(&self, encoded: &str) -> (r: Result<String, Error>)
        ensures
            match r {
                Ok(s) => decrypted(self.key(), encoded@) == Ok::<Seq<char>, Seq<char>>(s@),
                Err(e) => e is Config && decrypted(self.key(), encoded@) == Err::<
                    Seq<char>,
                    Seq<char>,
                >(e->Config_0@),
            },
    {
        proof {
            use_type_invariant(self);
        }
        let combined = match from_base64(encoded) {
            Ok(b) => b,
            Err(e) => {
                return Err(Error::Config(cat("Base64 decode failed: ", e.as_str())));
            },
        };
        if combined.len() < 12 {
            return Err(Error::Config("Invalid ciphertext length".to_owned()));
        }
        let nonce = slice_subrange(combined.as_slice(), 0, 12);
        let sealed = slice_subrange(combined.as_slice(), 12, combined.len());
        proof {
            assert(nonce@ =~= combined@.take(12));
            assert(sealed@ =~= combined@.skip(12));
        }
        match open_bytes(self.key.as_slice(), nonce, sealed) {
            Ok(plain) => match utf8_text(plain) {
                Ok(s) => Ok(s),
                Err(e) => Err(Error::Config(cat("UTF-8 decode failed: ", e.as_str()))),
            },
            Err(e) => Err(Error::Config(cat("Decryption failed: ", e.as_str()))),
        }
    }
}

/// The first line of a listing that names the platform identifier.
pub open spec fn platform_line(listing: Seq<Seq<char>>) -> Option<Seq<char>>
    decreases listing.len(),
{
    if listing.len() == 0 {
        None
    } else if contains_spec(listing[0], "IOPlatformUUID"@) {
        Some(listing[0])
    } else {
        platform_line(listing.drop_first())
    }
}

/// The platform identifier in an `ioreg` listing: what stands between the
/// third and the fourth quote (or the end) of the first line that names it.
pub open spec fn platform_uuid(listing: Seq<char>) -> Option<Seq<char>> {
    match platform_line(lines_spec(listing)) {
        None => None,
        Some(line) => {
            let pieces = split_spec(line, '"');
            if pieces.len() > 3 {
                Some(pieces[3])
            } else {
                None
            }
        },
    }
}

/// Reads the machine identifier from an `ioreg` listing.
pub fn machine_id_of_listing(listing: &str) -> (r: Result<Vec<u8>, Error>)
    ensures
        match r {
            Ok(id) => platform_uuid(listing@) is Some && id@ == encode_utf8(
                platform_uuid(listing@)->0,
            ),
            Err(e) => platform_uuid(listing@) is None && e is Config && e->Config_0@
                == "IOPlatformUUID not found"@,
        },
{
    let all = lines(listing);
    let ghost views = texts(all@);
    let mut i: usize = 0;
    proof {
        assert(views.skip(0) =~= views);
    }
    while i < all.len()
        invariant
            i <= all.len(),
            views == texts(all@),
            views == lines_spec(listing@),
            platform_line(views) == platform_line(views.skip(i as int)),
        decreases all.len() - i,
    {
        proof {
            assert(views.skip(i as int)[0] == all@[i as int]@);
            assert(views.skip(i as int).drop_first() =~= views.skip(i + 1));
        }
        if contains(all[i].as_str(), "IOPlatformUUID") {
            let pieces = split(all[i].as_str(), '"');
            let ghost p = texts(pieces@);
            if pieces.len() > 3 {
                proof {
                    assert(p[3] == pieces@[3]@);
                }
                return Ok(slice_to_vec(pieces[3].as_str().as_bytes()));
            }
            return Err(Error::Config("IOPlatformUUID not found".to_owned()));
        }
        i += 1;
    }
    Err(Error::Config("IOPlatformUUID not found".to_owned()))
}

/// The machine identifier in a registry value: its text without white space
/// at either end.
pub fn machine_id_of_guid(guid: &str) -> (r: Vec<u8>)
    ensures
        r@ == encode_utf8(trim_spec(guid@)),
{
    slice_to_vec(trim(guid).as_str().as_bytes())
}

/// A fresh salt of 32 random bytes.
pub fn new_salt() -> (r: Vec<u8>)
    ensures
        r@.len() == 32,
{
    random_bytes(32)
}

/// A stored text is read as the nonce, twelve bytes, and then the ciphertext,
/// and gives the text whose bytes were encrypted. What cannot be read is
/// reported by the step at which it fails.
pub proof fn stored_text_is_nonce_and_ciphertext(
    key: Seq<u8>,
    encoded: Seq<char>,
    nonce: Seq<u8>,
    sealed: Seq<u8>,
)
    ensures
        base64_bytes(encoded) is Err ==> decrypted(key, encoded) == Err::<Seq<char>, Seq<char>>(
            "Base64 decode failed: "@ + base64_bytes(encoded)->Err_0,
        ),
        base64_bytes(encoded) is Ok && base64_bytes(encoded)->Ok_0.len() < 12 ==> decrypted(
            key,
            encoded,
        ) == Err::<Seq<char>, Seq<char>>("Invalid ciphertext length"@),
        base64_bytes(encoded) == Ok::<Seq<u8>, Seq<char>>(nonce + sealed) && nonce.len() == 12
            ==> {
            &&& gcm_decrypt(key, nonce, sealed) is None ==> decrypted(key, encoded) == Err::<
                Seq<char>,
                Seq<char>,
            >("Decryption failed: "@ + "aead::Error"@)
            &&& gcm_decrypt(key, nonce, sealed) is Some && valid_utf8(
                gcm_decrypt(key, nonce, sealed)->0,
            ) ==> decrypted(key, encoded) == Ok::<Seq<char>, Seq<char>>(
                decode_utf8(gcm_decrypt(key, nonce, sealed)->0),
            )
            &&& gcm_decrypt(key, nonce, sealed) is Some && !valid_utf8(
                gcm_decrypt(key, nonce, sealed)->0,
            ) ==> decrypted(key, encoded) is Err
        },
{
    let whole = nonce + sealed;
    if nonce.len() == 12 {
        assert(whole.take(12) =~= nonce);
        assert(whole.skip(12) =~= sealed);
    }
}

/// The identifier in a listing is what stands in quotes after its name: of a
/// line that is made of pieces with quotes between them, the second of which
/// is the name, it is the fourth.
pub proof fn identifier_follows_its_name(pieces: Seq<Seq<char>>)
    requires
        pieces.len() > 3,
        pieces[1] == "IOPlatformUUID"@,
        forall|i: int| 0 <= i < pieces.len() ==> !(#[trigger] pieces[i]).contains('"'),
        !join_spec(pieces, seq!['"']).contains('\n'),
    ensures
        platform_uuid(join_spec(pieces, seq!['"'])) == Some(pieces[3]),
{
    reveal_strlit("IOPlatformUUID");
    let line = join_spec(pieces, seq!['"']);
    lemma_join_splits_back(pieces, '"');
    joined_texts_occur(pieces, seq!['"'], 1);
    let all = seq![line];
    lemma_join_splits_back(all, '\n');
    assert(join_spec(all, seq!['\n']) == line);
    assert(line.len() > 0) by {
        let i = choose|i: int|
            0 <= i <= line.len() && #[trigger] starts_with_spec(
                line.skip(i),
                pieces[1],
            );
        assert(line.skip(i).len() >= 14);
    }
    assert(lines_spec(line) =~= seq![line]);
}

/// The line that names the identifier is the first that does.
pub proof fn first_line_that_names_it_counts(line: Seq<char>, rest: Seq<Seq<char>>)
    ensures
        platform_line(Seq::<Seq<char>>::empty()) is None,
        contains_spec(line, "IOPlatformUUID"@) ==> platform_line(seq![line] + rest) == Some(line),
        !contains_spec(line, "IOPlatformUUID"@) ==> platform_line(seq![line] + rest)
            == platform_line(rest),
{
    let listing = seq![line] + rest;
    assert(listing[0] == line);
    assert(listing.drop_first() =~= rest);
}

} // verus!
