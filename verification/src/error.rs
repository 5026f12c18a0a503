//! What can go wrong when a file is encrypted or decrypted.
use vstd::prelude::*;
use vstd::string::StringExecFns;

verus! {

/// `std::io::Error`, a failure of the operating system or of a read.
#[verifier::external_type_specification]
#[verifier::external_body]
pub struct ExIoError(std::io::Error);

/// A failure of encryption or decryption.
#[derive(Debug)]
pub enum CryptoError {
    /// A file could not be read or written, or ended too early.
    IoError(std::io::Error),
    /// The password is wrong or the file was changed; or the message is too long to encrypt.
    DecryptionError,
    /// The file does not have the container format.
    InvalidFormat,
    /// The file is too far from the present time.
    ReplayDetected,
    /// The key could not be derived, with the reason.
    Argon2Error(String),
}

/// A failure without what only the operating system knows of it.
pub enum Failure {
    Io,
    Decryption,
    Format,
    Replay,
    Argon2(Seq<char>),
}

impl View for CryptoError {
    type V = Failure;

    open spec fn view(&self) -> Failure {
        match *self {
            CryptoError::IoError(_) => Failure::Io,
            CryptoError::DecryptionError => Failure::Decryption,
            CryptoError::InvalidFormat => Failure::Format,
            CryptoError::ReplayDetected => Failure::Replay,
            CryptoError::Argon2Error(reason) => Failure::Argon2(reason@),
        }
    }
}

/// The text shown for a failure; `io_text` is what the operating system says, where it failed.
pub open spec fn failure_text(failure: Failure, io_text: Seq<char>) -> Seq<char> {
    match failure {
        Failure::Io => "IO error: "@ + io_text,
        Failure::Decryption => "Invalid password or corrupted file"@,
        Failure::Format => "File is too short or malformed"@,
        Failure::Replay => "Replay attack detected (old file version)"@,
        Failure::Argon2(reason) => "Key derivation error: "@ + reason,
    }
}

/// The text of `std::io::Error`, which depends on the operating system.
#[verifier::external_body]
fn io_error_text(error: &std::io::Error) -> String {
    error.to_string()
}

impl CryptoError {
    /// The text shown for this failure, where `io_text` is what the operating system says of it.
    pub fn message_with(&self, io_text: &str) -> (text: String)
        ensures
            text@ == failure_text(self@, io_text@),
    {
        match self {
            CryptoError::IoError(_) => "IO error: ".to_owned().concat(io_text),
            CryptoError::DecryptionError => "Invalid password or corrupted file".to_owned(),
            CryptoError::InvalidFormat => "File is too short or malformed".to_owned(),
            CryptoError::ReplayDetected => "Replay attack detected (old file version)".to_owned(),
            CryptoError::Argon2Error(reason) => "Key derivation error: ".to_owned().concat(
                reason.as_str(),
            ),
        }
    }

    /// The text shown for this failure.
    pub fn message(&self) -> (text: String)
        ensures
            exists|io_text: Seq<char>| text@ == #[trigger] failure_text(self@, io_text),
            !(self@ is Io) ==> text@ == failure_text(self@, Seq::empty()),
    {
        let io_text: String = match self {
            CryptoError::IoError(error) => io_error_text(error),
            _ => String::new(),
        };
        self.message_with(io_text.as_str())
    }
}

impl From<std::io::Error> for CryptoError {
    fn from(error: std::io::Error) -> (failure: Self) {
        CryptoError::IoError(error)
    }
}

impl vstd::std_specs::convert::FromSpecImpl<std::io::Error> for CryptoError {
    open spec fn obeys_from_spec() -> bool {
        true
    }

    open spec fn from_spec(error: std::io::Error) -> Self {
        CryptoError::IoError(error)
    }
}

/// Each failure is seen as what it is.
pub proof fn law_failures(error: CryptoError)
    ensures
        match error {
            CryptoError::IoError(_) => error@ is Io,
            CryptoError::DecryptionError => error@ is Decryption,
            CryptoError::InvalidFormat => error@ is Format,
            CryptoError::ReplayDetected => error@ is Replay,
            CryptoError::Argon2Error(reason) => error@ == Failure::Argon2(reason@),
        },
{
}

/// The text of each failure; those that come with a reason end with it.
pub proof fn law_failure_texts(io_text: Seq<char>, reason: Seq<char>)
    ensures
        failure_text(Failure::Io, io_text) == "IO error: "@ + io_text,
        failure_text(Failure::Decryption, io_text) == "Invalid password or corrupted file"@,
        failure_text(Failure::Format, io_text) == "File is too short or malformed"@,
        failure_text(Failure::Replay, io_text) == "Replay attack detected (old file version)"@,
        failure_text(Failure::Argon2(reason), io_text) == "Key derivation error: "@ + reason,
{
}

} // verus!
