//! The ways in which sealing, opening and reassembling a backup fail.

use vstd::prelude::*;

verus! {

/// A failure of the codec. Each one ends the operation it occurs in: nothing
/// partial is handed out beside it.
#[derive(Debug, PartialEq, Eq)]
pub enum BackupError {
    /// The envelope is too short to hold a salt, a nonce and a tag.
    MalformedEnvelope,
    /// The envelope did not authenticate: the passphrase is wrong or the
    /// bytes were changed. The two are not told apart.
    DecryptionFailed,
    /// No key could be derived from the passphrase and the salt.
    KeyDerivationError,
    /// The cipher refused the plaintext.
    EncryptionFailed,
    /// A chunk that the manifest lists is not among the chunks at hand.
    MissingChunk { name: String },
    /// The joined chunks do not have the digest that the manifest records.
    IntegrityMismatch { expected: String, actual: String },
    /// The tool has not been set up yet.
    NotInitialized,
}

/// A failure as contracts speak of it, with texts as sequences of characters.
pub enum Failure {
    MalformedEnvelope,
    DecryptionFailed,
    KeyDerivationError,
    EncryptionFailed,
    MissingChunk { name: Seq<char> },
    IntegrityMismatch { expected: Seq<char>, actual: Seq<char> },
    NotInitialized,
}

impl View for BackupError {
    type V = Failure;

    open spec fn view(&self) -> Failure {
        match self {
            BackupError::MalformedEnvelope => Failure::MalformedEnvelope,
            BackupError::DecryptionFailed => Failure::DecryptionFailed,
            BackupError::KeyDerivationError => Failure::KeyDerivationError,
            BackupError::EncryptionFailed => Failure::EncryptionFailed,
            BackupError::MissingChunk { name } => Failure::MissingChunk { name: name@ },
            BackupError::IntegrityMismatch { expected, actual } => Failure::IntegrityMismatch {
                expected: expected@,
                actual: actual@,
            },
            BackupError::NotInitialized => Failure::NotInitialized,
        }
    }
}

/// What a result that carries bytes says, in the terms of contracts.
pub open spec fn bytes_outcome(res: Result<Vec<u8>, BackupError>) -> Result<Seq<u8>, Failure> {
    match res {
        Ok(bytes) => Ok(bytes@),
        Err(e) => Err(e@),
    }
}

/// What a failure says to the user. It names chunks and digests, never a
/// passphrase or a plaintext.
pub open spec fn message_text(failure: Failure) -> Seq<char> {
    match failure {
        Failure::MalformedEnvelope => "Encrypted data too short"@,
        Failure::DecryptionFailed => "Decryption failed - wrong passphrase or corrupted data"@,
        Failure::KeyDerivationError => "Failed to derive key"@,
        Failure::EncryptionFailed => "Encryption failed"@,
        Failure::MissingChunk { name } => "Missing chunk: "@ + name,
        Failure::IntegrityMismatch { expected, actual } => "SHA256 mismatch! Expected "@ + expected
            + ", got "@ + actual,
        Failure::NotInitialized =>
            "Not initialized. Run 'whatsapp-backup init' first to set up encryption and GitHub."@,
    }
}

impl BackupError {
    /// What the failure says to the user.
    pub fn message(&self) -> (text: String)
        ensures
            text@ == message_text(self@),
    {
        match self {
            BackupError::MalformedEnvelope => String::from_str("Encrypted data too short"),
            BackupError::DecryptionFailed => String::from_str(
                "Decryption failed - wrong passphrase or corrupted data",
            ),
            BackupError::KeyDerivationError => String::from_str("Failed to derive key"),
            BackupError::EncryptionFailed => String::from_str("Encryption failed"),
            BackupError::MissingChunk { name } => {
                let mut text = String::from_str("Missing chunk: ");
                text.append(name.as_str());
                text
            },
            BackupError::IntegrityMismatch { expected, actual } => {
                let mut text = String::from_str("SHA256 mismatch! Expected ");
                text.append(expected.as_str());
                text.append(", got ");
                text.append(actual.as_str());
                text
            },
            BackupError::NotInitialized => String::from_str(
                "Not initialized. Run 'whatsapp-backup init' first to set up encryption and GitHub.",
            ),
        }
    }
}

} // verus!
