//! The envelope codec: a key derived from a passphrase with Argon2id, and
//! authenticated encryption with AES-256-GCM.
//!
//! An envelope is `salt (16 bytes) ‖ nonce (12 bytes) ‖ ciphertext ‖ tag
//! (16 bytes)`. Salt and nonce are drawn afresh for every envelope.

use crate::command::{CommandOutput, CommandOutputView};
use crate::error::{bytes_outcome, BackupError, Failure};
use crate::text::{trim, trimmed};
use aes_gcm::aead::{Aead, KeyInit};
use argon2::PasswordHasher;
use rand::RngCore;
use vstd::prelude::*;
use vstd::string::StringSliceAdditionalSpecFns;

verus! {

/// The length of the salt at the head of an envelope.
pub const SALT_SIZE: usize = 16;

/// The length of the nonce that follows the salt.
pub const NONCE_SIZE: usize = 12;

/// The length of the authentication tag at the end of an envelope.
pub const TAG_SIZE: usize = 16;

/// The length of the key.
pub const KEY_SIZE: usize = 32;

/// What an envelope holds beside the ciphertext: salt, nonce and tag.
pub const ENVELOPE_OVERHEAD: usize = SALT_SIZE + NONCE_SIZE + TAG_SIZE;

/// The longest plaintext that AES-GCM seals, in bytes.
pub const MAX_PLAINTEXT: u64 = 68_719_476_736;

/// The error of the `password-hash` crate, as Argon2 reports it.
#[verifier::external_type_specification]
#[verifier::external_body]
pub struct ExPasswordHashError(argon2::password_hash::Error);

/// The error of the `aead` crate: it carries nothing.
#[verifier::external_type_specification]
#[verifier::external_body]
pub struct ExAeadError(aes_gcm::Error);

/// The hash that Argon2id gives for a passphrase and a salt with the `argon2`
/// crate's default parameters (version 0x13, 19 MiB of memory, two passes, one
/// lane, 32 bytes of output); `None` where it gives none.
pub uninterp spec fn argon2id_hash(passphrase: Seq<u8>, salt: Seq<u8>) -> Option<Seq<u8>>;

/// What AES-256-GCM makes of a plaintext under a key and a nonce, without
/// associated data: the ciphertext followed by the tag; `None` where the
/// cipher refuses the plaintext.
pub uninterp spec fn aes256gcm_seal(key: Seq<u8>, nonce: Seq<u8>, plaintext: Seq<u8>) -> Option<
    Seq<u8>,
>;

/// The plaintext that AES-256-GCM gives back for a ciphertext with its tag
/// under a key and a nonce; `None` where the tag does not match.
pub uninterp spec fn aes256gcm_open(key: Seq<u8>, nonce: Seq<u8>, sealed: Seq<u8>) -> Option<
    Seq<u8>,
>;

/// `PasswordHasher::hash_password` of `argon2::Argon2::default()`, called on
/// the passphrase and on the salt in the form that the call takes, a
/// `SaltString` made with `SaltString::encode_b64`. What is claimed of it: the
/// hash that it yields, or that it yields none, depends on the passphrase and
/// the salt alone. Nothing is claimed on when it succeeds.
#[verifier::external_body]
fn argon2_hash_password(passphrase: &[u8], salt: &[u8; 16]) -> (res: Result<
    Option<Vec<u8>>,
    argon2::password_hash::Error,
>)
    ensures
        match res {
            Ok(Some(hash)) => argon2id_hash(passphrase@, salt@) == Some(hash@),
            _ => argon2id_hash(passphrase@, salt@) is None,
        },
{
    let salt_string = argon2::password_hash::SaltString::encode_b64(salt)?;
    let hash = argon2::Argon2::default().hash_password(passphrase, &salt_string)?;
    Ok(hash.hash.map(|output| output.as_bytes().to_vec()))
}

/// `Aead::encrypt` of `aes_gcm::Aes256Gcm`, made from the key with
/// `KeyInit::new_from_slice`. What is claimed of it: its result depends on
/// key, nonce and plaintext alone; it fails exactly on a plaintext of more
/// than 2^36 bytes; what it returns is 16 bytes longer than the plaintext;
/// and `Aead::decrypt` under the same key and nonce gives the plaintext back.
#[verifier::external_body]
fn aes256gcm_encrypt(key: &[u8; 32], nonce: &[u8; 12], plaintext: &[u8]) -> (res: Result<
    Vec<u8>,
    aes_gcm::Error,
>)
    ensures
        match res {
            Ok(sealed) => aes256gcm_seal(key@, nonce@, plaintext@) == Some(sealed@),
            Err(_) => aes256gcm_seal(key@, nonce@, plaintext@) is None,
        },
        res is Ok <==> plaintext@.len() <= MAX_PLAINTEXT,
        res matches Ok(sealed) ==> sealed@.len() == plaintext@.len() + TAG_SIZE,
        res matches Ok(sealed) ==> aes256gcm_open(key@, nonce@, sealed@) == Some(plaintext@),
{
    let cipher = aes_gcm::Aes256Gcm::new_from_slice(key).map_err(|_| aes_gcm::Error)?;
    cipher.encrypt(aes_gcm::Nonce::from_slice(nonce), plaintext)
}

/// `Aead::decrypt` of `aes_gcm::Aes256Gcm`, made from the key with
/// `KeyInit::new_from_slice`. What is claimed of it: its result depends on
/// key, nonce and sealed text alone. Nothing is claimed on which sealed texts
/// it accepts.
#[verifier::external_body]
fn aes256gcm_decrypt(key: &[u8; 32], nonce: &[u8; 12], sealed: &[u8]) -> (res: Result<
    Vec<u8>,
    aes_gcm::Error,
>)
    ensures
        match res {
            Ok(plaintext) => aes256gcm_open(key@, nonce@, sealed@) == Some(plaintext@),
            Err(_) => aes256gcm_open(key@, nonce@, sealed@) is None,
        },
{
    let cipher = aes_gcm::Aes256Gcm::new_from_slice(key).map_err(|_| aes_gcm::Error)?;
    cipher.decrypt(aes_gcm::Nonce::from_slice(nonce), sealed)
}

/// `RngCore::fill_bytes` of `OsRng` on a fresh array: bytes from the
/// operating system's random source. Nothing is claimed of them.
#[verifier::external_body]
fn random_bytes<const N: usize>() -> (bytes: [u8; N]) {
    let mut bytes = [0u8; N];
    aes_gcm::aead::OsRng.fill_bytes(&mut bytes);
    bytes
}

/// The key that a hash gives: its first 32 bytes, where it has that many.
pub open spec fn key_of_hash(hash: Option<Seq<u8>>) -> Option<Seq<u8>> {
    match hash {
        Some(h) => if h.len() >= KEY_SIZE {
            Some(h.subrange(0, KEY_SIZE as int))
        } else {
            None
        },
        None => None,
    }
}

/// The key derived from a passphrase and a salt.
pub open spec fn derive_key_spec(passphrase: Seq<u8>, salt: Seq<u8>) -> Option<Seq<u8>> {
    key_of_hash(argon2id_hash(passphrase, salt))
}

/// Takes the key from what the derivation function returned.
pub fn key_from_hash(hash: Option<Vec<u8>>) -> (res: Result<[u8; 32], BackupError>)
    ensures
        match res {
            Ok(key) => hash is Some && key_of_hash(Some(hash->0@)) == Some(key@),
            Err(e) => e == BackupError::KeyDerivationError && (hash is None || key_of_hash(
                Some(hash->0@),
            ) is None),
        },
{
    match hash {
        Some(bytes) => {
            if bytes.len() < KEY_SIZE {
                return Err(BackupError::KeyDerivationError);
            }
            let mut key = [0u8; 32];
            let mut i: usize = 0;
            while i < KEY_SIZE
                invariant
                    i <= KEY_SIZE <= bytes@.len(),
                    forall|k: int| 0 <= k < i ==> key@[k] == bytes@[k],
                decreases KEY_SIZE - i,
            {
                key[i] = bytes[i];
                i += 1;
            }
            assert(key@ =~= bytes@.subrange(0, KEY_SIZE as int));
            Ok(key)
        },
        None => Err(BackupError::KeyDerivationError),
    }
}

/// Derives the 256-bit key for a passphrase and a salt with Argon2id. The
/// same passphrase and salt always give the same key.
pub fn derive_key(passphrase: &str, salt: &[u8; 16]) -> (res: Result<[u8; 32], BackupError>)
    ensures
        match res {
            Ok(key) => derive_key_spec(passphrase.spec_bytes(), salt@) == Some(key@),
            Err(e) => e == BackupError::KeyDerivationError && derive_key_spec(
                passphrase.spec_bytes(),
                salt@,
            ) is None,
        },
{
    let hash = match argon2_hash_password(passphrase.as_bytes(), salt) {
        Ok(hash) => hash,
        Err(_) => None,
    };
    key_from_hash(hash)
}

/// The salt at the head of an envelope.
pub open spec fn envelope_salt(envelope: Seq<u8>) -> Seq<u8> {
    envelope.subrange(0, SALT_SIZE as int)
}

/// The nonce that follows the salt.
pub open spec fn envelope_nonce(envelope: Seq<u8>) -> Seq<u8> {
    envelope.subrange(SALT_SIZE as int, SALT_SIZE + NONCE_SIZE)
}

/// The ciphertext and its tag: all that follows the nonce.
pub open spec fn envelope_sealed(envelope: Seq<u8>) -> Seq<u8> {
    envelope.subrange(SALT_SIZE + NONCE_SIZE, envelope.len() as int)
}

/// The sealed form of a plaintext under a key and a nonce: what the cipher
/// makes of it, where that is one tag longer than the plaintext and the cipher
/// opens it again to the same plaintext, as it does with all that it seals.
pub open spec fn seal_spec(key: Seq<u8>, nonce: Seq<u8>, plaintext: Seq<u8>) -> Option<Seq<u8>> {
    match aes256gcm_seal(key, nonce, plaintext) {
        Some(sealed) => if sealed.len() == plaintext.len() + TAG_SIZE && aes256gcm_open(
            key,
            nonce,
            sealed,
        ) == Some(plaintext) {
            Some(sealed)
        } else {
            None
        },
        None => None,
    }
}

/// The envelope of a plaintext under a key, with the given salt and nonce.
pub open spec fn seal_envelope_spec(
    plaintext: Seq<u8>,
    key: Seq<u8>,
    salt: Seq<u8>,
    nonce: Seq<u8>,
) -> Result<Seq<u8>, Failure> {
    match seal_spec(key, nonce, plaintext) {
        Some(sealed) => Ok(salt + nonce + sealed),
        None => Err(Failure::EncryptionFailed),
    }
}

/// What opening an envelope with a key gives: the envelope is refused as
/// malformed before anything is decrypted where it is too short to hold salt,
/// nonce and tag, and as a whole where it does not authenticate.
pub open spec fn open_envelope_spec(envelope: Seq<u8>, key: Seq<u8>) -> Result<Seq<u8>, Failure> {
    if envelope.len() < ENVELOPE_OVERHEAD {
        Err(Failure::MalformedEnvelope)
    } else {
        match aes256gcm_open(key, envelope_nonce(envelope), envelope_sealed(envelope)) {
            Some(plaintext) => Ok(plaintext),
            None => Err(Failure::DecryptionFailed),
        }
    }
}

/// The envelope of a plaintext under a passphrase, with the given salt and
/// nonce.
pub open spec fn encrypt_spec(
    plaintext: Seq<u8>,
    passphrase: Seq<u8>,
    salt: Seq<u8>,
    nonce: Seq<u8>,
) -> Result<Seq<u8>, Failure> {
    match derive_key_spec(passphrase, salt) {
        Some(key) => seal_envelope_spec(plaintext, key, salt, nonce),
        None => Err(Failure::KeyDerivationError),
    }
}

/// What decrypting an envelope with a passphrase gives.
pub open spec fn decrypt_spec(envelope: Seq<u8>, passphrase: Seq<u8>) -> Result<Seq<u8>, Failure> {
    if envelope.len() < ENVELOPE_OVERHEAD {
        Err(Failure::MalformedEnvelope)
    } else {
        match derive_key_spec(passphrase, envelope_salt(envelope)) {
            Some(key) => open_envelope_spec(envelope, key),
            None => Err(Failure::KeyDerivationError),
        }
    }
}

/// Decrypting an envelope with the passphrase it was encrypted with gives the
/// plaintext back, whatever the plaintext, the passphrase, the salt and the
/// nonce were.
pub proof fn lemma_decrypt_inverts_encrypt(
    plaintext: Seq<u8>,
    passphrase: Seq<u8>,
    salt: Seq<u8>,
    nonce: Seq<u8>,
)
    requires
        salt.len() == SALT_SIZE,
        nonce.len() == NONCE_SIZE,
        encrypt_spec(plaintext, passphrase, salt, nonce) is Ok,
    ensures
        decrypt_spec(encrypt_spec(plaintext, passphrase, salt, nonce)->Ok_0, passphrase) == Ok::<
            Seq<u8>,
            Failure,
        >(plaintext),
{
    let key = derive_key_spec(passphrase, salt)->0;
    let sealed = seal_spec(key, nonce, plaintext)->0;
    lemma_envelope_parts(salt, nonce, sealed);
}

/// An envelope put together from a salt, a nonce and a sealed text is taken
/// apart into the same three.
pub proof fn lemma_envelope_parts(salt: Seq<u8>, nonce: Seq<u8>, sealed: Seq<u8>)
    requires
        salt.len() == SALT_SIZE,
        nonce.len() == NONCE_SIZE,
    ensures
        envelope_salt(salt + nonce + sealed) == salt,
        envelope_nonce(salt + nonce + sealed) == nonce,
        envelope_sealed(salt + nonce + sealed) == sealed,
{
    let envelope = salt + nonce + sealed;
    assert(envelope_salt(envelope) =~= salt);
    assert(envelope_nonce(envelope) =~= nonce);
    assert(envelope_sealed(envelope) =~= sealed);
}

/// An envelope that is too short is refused as malformed, whatever the
/// passphrase: no key is derived and nothing is decrypted.
pub proof fn lemma_short_envelope_is_malformed(envelope: Seq<u8>, passphrase: Seq<u8>)
    requires
        envelope.len() < SALT_SIZE + NONCE_SIZE + TAG_SIZE,
    ensures
        decrypt_spec(envelope, passphrase) == Err::<Seq<u8>, Failure>(Failure::MalformedEnvelope),
{
}

/// An envelope that the cipher does not authenticate under the key that the
/// passphrase gives is refused with `DecryptionFailed` and with nothing else,
/// whether the passphrase is another one than it was sealed with or its bytes
/// were changed: the failure does not tell the two apart, and no plaintext
/// comes with it.
pub proof fn lemma_rejection_is_opaque(envelope: Seq<u8>, passphrase: Seq<u8>)
    requires
        envelope.len() >= SALT_SIZE + NONCE_SIZE + TAG_SIZE,
        derive_key_spec(passphrase, envelope_salt(envelope)) is Some,
        aes256gcm_open(
            derive_key_spec(passphrase, envelope_salt(envelope))->0,
            envelope_nonce(envelope),
            envelope_sealed(envelope),
        ) is None,
    ensures
        decrypt_spec(envelope, passphrase) == Err::<Seq<u8>, Failure>(Failure::DecryptionFailed),
{
}

/// Appends `tail` to `bytes`.
pub fn append_bytes(bytes: &mut Vec<u8>, tail: &[u8])
    ensures
        final(bytes)@ == old(bytes)@ + tail@,
{
    bytes.extend_from_slice(tail);
    assert(bytes@ =~= old(bytes)@ + tail@);
}

/// Puts an envelope together: the salt, then the nonce, then the sealed
/// text.
pub fn assemble_envelope(salt: &[u8; 16], nonce: &[u8; 12], sealed: &[u8]) -> (envelope: Vec<u8>)
    ensures
        envelope@ == salt@ + nonce@ + sealed@,
{
    let mut envelope: Vec<u8> = Vec::new();
    append_bytes(&mut envelope, salt.as_slice());
    append_bytes(&mut envelope, nonce.as_slice());
    append_bytes(&mut envelope, sealed);
    assert(envelope@ =~= salt@ + nonce@ + sealed@);
    envelope
}

/// Takes an envelope apart into its salt, its nonce and its sealed text,
/// which stand at fixed places. An envelope too short to hold a salt, a nonce
/// and a tag is refused as malformed.
pub fn parse_envelope(envelope: &[u8]) -> (res: Result<([u8; 16], [u8; 12], &[u8]), BackupError>)
    ensures
        match res {
            Ok((salt, nonce, sealed)) => {
                &&& envelope@.len() >= SALT_SIZE + NONCE_SIZE + TAG_SIZE
                &&& salt@ == envelope_salt(envelope@)
                &&& nonce@ == envelope_nonce(envelope@)
                &&& sealed@ == envelope_sealed(envelope@)
            },
            Err(e) => envelope@.len() < SALT_SIZE + NONCE_SIZE + TAG_SIZE && e
                == BackupError::MalformedEnvelope,
        },
{
    if envelope.len() < ENVELOPE_OVERHEAD {
        return Err(BackupError::MalformedEnvelope);
    }
    let mut salt = [0u8; 16];
    let mut i: usize = 0;
    while i < SALT_SIZE
        invariant
            i <= SALT_SIZE,
            envelope@.len() >= ENVELOPE_OVERHEAD,
            forall|k: int| 0 <= k < i ==> salt@[k] == envelope@[k],
        decreases SALT_SIZE - i,
    {
        salt[i] = envelope[i];
        i += 1;
    }
    let mut nonce = [0u8; 12];
    let mut j: usize = 0;
    while j < NONCE_SIZE
        invariant
            j <= NONCE_SIZE,
            envelope@.len() >= ENVELOPE_OVERHEAD,
            forall|k: int| 0 <= k < j ==> nonce@[k] == envelope@[SALT_SIZE + k],
        decreases NONCE_SIZE - j,
    {
        nonce[j] = envelope[SALT_SIZE + j];
        j += 1;
    }
    let sealed = vstd::slice::slice_subrange(envelope, SALT_SIZE + NONCE_SIZE, envelope.len());
    assert(salt@ =~= envelope_salt(envelope@));
    assert(nonce@ =~= envelope_nonce(envelope@));
    Ok((salt, nonce, sealed))
}

/// Seals `data` under `key` into an envelope that carries `salt` and `nonce`
/// at its head. It succeeds exactly where the plaintext is not longer than
/// the cipher takes.
pub fn seal_envelope(data: &[u8], key: &[u8; 32], salt: &[u8; 16], nonce: &[u8; 12]) -> (res:
    Result<Vec<u8>, BackupError>)
    ensures
        bytes_outcome(res) == seal_envelope_spec(data@, key@, salt@, nonce@),
        res is Ok <==> data@.len() <= MAX_PLAINTEXT,
        res matches Ok(envelope) ==> envelope@.len() == data@.len() + ENVELOPE_OVERHEAD,
        res matches Ok(envelope) ==> open_envelope_spec(envelope@, key@) == Ok::<Seq<u8>, Failure>(
            data@,
        ),
{
    match aes256gcm_encrypt(key, nonce, data) {
        Ok(sealed) => {
            let envelope = assemble_envelope(salt, nonce, sealed.as_slice());
            proof {
                lemma_envelope_parts(salt@, nonce@, sealed@);
            }
            Ok(envelope)
        },
        Err(_) => Err(BackupError::EncryptionFailed),
    }
}

/// Opens an envelope with a key.
pub fn open_envelope(envelope: &[u8], key: &[u8; 32]) -> (res: Result<Vec<u8>, BackupError>)
    ensures
        bytes_outcome(res) == open_envelope_spec(envelope@, key@),
{
    match parse_envelope(envelope) {
        Ok((_, nonce, sealed)) => match aes256gcm_decrypt(key, &nonce, sealed) {
            Ok(plaintext) => Ok(plaintext),
            Err(_) => Err(BackupError::DecryptionFailed),
        },
        Err(e) => Err(e),
    }
}

/// Encrypts `data` under `passphrase` with the given salt and nonce. It
/// succeeds exactly where a key can be derived and the plaintext is not longer
/// than the cipher takes, and what it returns decrypts to `data`.
pub fn encrypt_with(data: &[u8], passphrase: &str, salt: &[u8; 16], nonce: &[u8; 12]) -> (res:
    Result<Vec<u8>, BackupError>)
    ensures
        bytes_outcome(res) == encrypt_spec(data@, passphrase.spec_bytes(), salt@, nonce@),
        res is Ok <==> derive_key_spec(passphrase.spec_bytes(), salt@) is Some && data@.len()
            <= MAX_PLAINTEXT,
        res matches Ok(envelope) ==> envelope@.len() == data@.len() + ENVELOPE_OVERHEAD,
        res matches Ok(envelope) ==> decrypt_spec(envelope@, passphrase.spec_bytes()) == Ok::<
            Seq<u8>,
            Failure,
        >(data@),
{
    match derive_key(passphrase, salt) {
        Ok(key) => {
            let res = seal_envelope(data, &key, salt, nonce);
            proof {
                if res is Ok {
                    lemma_decrypt_inverts_encrypt(data@, passphrase.spec_bytes(), salt@, nonce@);
                }
            }
            res
        },
        Err(e) => Err(e),
    }
}

/// Encrypts `data` under `passphrase` into an envelope, with a salt and a
/// nonce drawn afresh from the operating system's random source. The envelope
/// decrypts to `data` under the same passphrase.
pub fn encrypt(data: &[u8], passphrase: &str) -> (res: Result<Vec<u8>, BackupError>)
    ensures
        exists|salt: Seq<u8>, nonce: Seq<u8>|
            salt.len() == SALT_SIZE && nonce.len() == NONCE_SIZE && #[trigger] encrypt_spec(
                data@,
                passphrase.spec_bytes(),
                salt,
                nonce,
            ) == bytes_outcome(res),
        data@.len() > MAX_PLAINTEXT ==> res is Err,
        res matches Ok(envelope) ==> envelope@.len() == data@.len() + ENVELOPE_OVERHEAD,
        res matches Ok(envelope) ==> decrypt_spec(envelope@, passphrase.spec_bytes()) == Ok::<
            Seq<u8>,
            Failure,
        >(data@),
{
    let salt: [u8; 16] = random_bytes();
    let nonce: [u8; 12] = random_bytes();
    encrypt_with(data, passphrase, &salt, &nonce)
}

/// Decrypts an envelope with a passphrase. An envelope too short to hold
/// salt, nonce and tag is refused as malformed; one that does not
/// authenticate, as `DecryptionFailed`. No plaintext is returned beside a
/// failure.
pub fn decrypt(encrypted: &[u8], passphrase: &str) -> (res: Result<Vec<u8>, BackupError>)
    ensures
        bytes_outcome(res) == decrypt_spec(encrypted@, passphrase.spec_bytes()),
{
    match parse_envelope(encrypted) {
        Ok((salt, _, _)) => match derive_key(passphrase, &salt) {
            Ok(key) => open_envelope(encrypted, &key),
            Err(e) => Err(e),
        },
        Err(e) => Err(e),
    }
}

/// A failure of the credential store that keeps the passphrase.
#[derive(Debug, PartialEq, Eq)]
pub enum CredentialError {
    /// The store holds no passphrase.
    NotFound,
    /// The store did not take the passphrase; with what it said.
    StoreFailed { stderr: String },
    /// The store did not delete the passphrase; with what it said.
    DeleteFailed { stderr: String },
}

/// A failure of the credential store as contracts speak of it.
pub enum CredentialFailure {
    NotFound,
    StoreFailed { stderr: Seq<char> },
    DeleteFailed { stderr: Seq<char> },
}

impl View for CredentialError {
    type V = CredentialFailure;

    open spec fn view(&self) -> CredentialFailure {
        match self {
            CredentialError::NotFound => CredentialFailure::NotFound,
            CredentialError::StoreFailed { stderr } => CredentialFailure::StoreFailed {
                stderr: stderr@,
            },
            CredentialError::DeleteFailed { stderr } => CredentialFailure::DeleteFailed {
                stderr: stderr@,
            },
        }
    }
}

/// The passphrase that a lookup in the credential store reported: what the
/// store printed, without the white space around it.
pub open spec fn passphrase_of(lookup: CommandOutputView) -> Result<Seq<char>, CredentialFailure> {
    if lookup.success {
        Ok(trimmed(lookup.stdout))
    } else {
        Err(CredentialFailure::NotFound)
    }
}

/// Reads the passphrase from what a lookup in the credential store reported.
pub fn get_passphrase(lookup: &CommandOutput) -> (res: Result<String, CredentialError>)
    ensures
        match res {
            Ok(passphrase) => passphrase_of(lookup@) == Ok::<Seq<char>, CredentialFailure>(
                passphrase@,
            ),
            Err(e) => passphrase_of(lookup@) == Err::<Seq<char>, CredentialFailure>(e@),
        },
{
    if !lookup.success {
        return Err(CredentialError::NotFound);
    }
    Ok(trim(lookup.stdout.as_str()))
}

/// Whether a lookup in the credential store found a passphrase.
pub fn has_passphrase(lookup: &CommandOutput) -> (found: bool)
    ensures
        found == (passphrase_of(lookup@) is Ok),
        found == lookup.success,
{
    get_passphrase(lookup).is_ok()
}

/// Judges what the credential store reported when it was given the
/// passphrase to keep.
pub fn store_passphrase(stored: &CommandOutput) -> (res: Result<(), CredentialError>)
    ensures
        match res {
            Ok(_) => stored.success,
            Err(e) => !stored.success && e@ == (CredentialFailure::StoreFailed {
                stderr: stored.stderr@,
            }),
        },
{
    if stored.success {
        Ok(())
    } else {
        Err(CredentialError::StoreFailed { stderr: stored.stderr.clone() })
    }
}

/// Judges what the credential store reported when it was told to delete the
/// passphrase.
pub fn delete_passphrase(deleted: &CommandOutput) -> (res: Result<(), CredentialError>)
    ensures
        match res {
            Ok(_) => deleted.success,
            Err(e) => !deleted.success && e@ == (CredentialFailure::DeleteFailed {
                stderr: deleted.stderr@,
            }),
        },
{
    if deleted.success {
        Ok(())
    } else {
        Err(CredentialError::DeleteFailed { stderr: deleted.stderr.clone() })
    }
}

/// What a failure of the credential store says to the user.
pub open spec fn credential_message_text(failure: CredentialFailure) -> Seq<char> {
    match failure {
        CredentialFailure::NotFound =>
            "Failed to retrieve passphrase from keychain.\nRun 'whatsapp-backup init' to set up encryption."@,
        CredentialFailure::StoreFailed { stderr } => "Failed to store passphrase in keychain: "@
            + stderr,
        CredentialFailure::DeleteFailed { stderr } => "Failed to delete passphrase: "@ + stderr,
    }
}

impl CredentialError {
    /// What the failure says to the user.
    pub fn message(&self) -> (text: String)
        ensures
            text@ == credential_message_text(self@),
    {
        match self {
            CredentialError::NotFound => String::from_str(
                "Failed to retrieve passphrase from keychain.\nRun 'whatsapp-backup init' to set up encryption.",
            ),
            CredentialError::StoreFailed { stderr } => {
                let mut text = String::from_str("Failed to store passphrase in keychain: ");
                text.append(stderr.as_str());
                text
            },
            CredentialError::DeleteFailed { stderr } => {
                let mut text = String::from_str("Failed to delete passphrase: ");
                text.append(stderr.as_str());
                text
            },
        }
    }
}

/// The least length of a new passphrase, in bytes.
pub const MIN_PASSPHRASE_LENGTH: usize = 8;

/// Why a new passphrase is not taken.
#[derive(Debug, Clone, Copy, PartialEq, Eq)]
pub enum PassphraseRejection {
    /// It is shorter than eight bytes.
    TooShort,
    /// It was not repeated letter for letter.
    Mismatch,
}

/// Whether a new passphrase is taken: it is at least eight bytes long and
/// was repeated letter for letter. Its length is looked at first.
pub fn check_new_passphrase(passphrase: &str, confirm: &str) -> (res: Result<
    (),
    PassphraseRejection,
>)
    ensures
        passphrase.spec_bytes().len() < MIN_PASSPHRASE_LENGTH ==> res == Err::<
            (),
            PassphraseRejection,
        >(PassphraseRejection::TooShort),
        passphrase.spec_bytes().len() >= MIN_PASSPHRASE_LENGTH && passphrase@ != confirm@ ==> res
            == Err::<(), PassphraseRejection>(PassphraseRejection::Mismatch),
        passphrase.spec_bytes().len() >= MIN_PASSPHRASE_LENGTH && passphrase@ == confirm@ ==> res
            is Ok,
{
    if passphrase.as_bytes().len() < MIN_PASSPHRASE_LENGTH {
        return Err(PassphraseRejection::TooShort);
    }
    let first = String::from_str(passphrase);
    let second = String::from_str(confirm);
    if first == second {
        Ok(())
    } else {
        Err(PassphraseRejection::Mismatch)
    }
}

} // verus!
