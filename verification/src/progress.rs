//! The event protocol that a host consumes: progress and error events,
//! error kinds and the exit codes they map to.

use vstd::prelude::*;
use vstd::string::StringExecFns;

verus! {

/// The kinds of failure that reach the host.
#[derive(Debug, Clone, Copy, PartialEq, Eq, Structural)]
pub enum ErrorKind {
    /// An authentication failure while decrypting.
    WrongPassphrase,
    /// A container that does not parse, or whose size is not what its header says.
    CorruptFile,
    /// A permission denial on the input or the output.
    Permission,
    /// Anything else.
    Internal,
}

impl ErrorKind {
    /// The name of the kind in an error event.
    pub open spec fn name_text(self) -> Seq<char> {
        match self {
            ErrorKind::WrongPassphrase => "wrong_passphrase"@,
            ErrorKind::CorruptFile => "corrupt_file"@,
            ErrorKind::Permission => "permission_error"@,
            ErrorKind::Internal => "internal_error"@,
        }
    }

    /// The exit code of the kind.
    pub open spec fn exit_status(self) -> i32 {
        match self {
            ErrorKind::WrongPassphrase => 1,
            ErrorKind::CorruptFile => 2,
            ErrorKind::Permission => 3,
            ErrorKind::Internal => 10,
        }
    }

    /// The name under which an error event reports this kind.
    pub fn name(self) -> (name: &'static str)
        ensures
            name@ == self.name_text(),
    {
        match self {
            ErrorKind::WrongPassphrase => "wrong_passphrase",
            ErrorKind::CorruptFile => "corrupt_file",
            ErrorKind::Permission => "permission_error",
            ErrorKind::Internal => "internal_error",
        }
    }

    /// The process exit code for this kind: 1 for a wrong passphrase, 2
    /// for a corrupt file, 3 for a permission error, 10 otherwise.
    pub fn exit_code(self) -> (code: i32)
        ensures
            code == self.exit_status(),
            code != 0,
    {
        match self {
            ErrorKind::WrongPassphrase => 1,
            ErrorKind::CorruptFile => 2,
            ErrorKind::Permission => 3,
            ErrorKind::Internal => 10,
        }
    }
}

/// An error event: the kind's name and a message.
#[derive(Debug)]
pub struct ErrorEvent {
    pub error: String,
    pub message: String,
}

impl ErrorEvent {
    /// The event that reports a failure of `kind` with `message`.
    pub fn new(kind: ErrorKind, message: &str) -> (event: ErrorEvent)
        ensures
            event.error@ == kind.name_text(),
            event.message@ == message@,
    {
        ErrorEvent { error: String::from_str(kind.name()), message: String::from_str(message) }
    }
}

/// The phases of an operation that report progress.
#[derive(Debug, Clone, Copy, PartialEq, Eq, Structural)]
pub enum Phase {
    Kdf,
    Encrypt,
    Decrypt,
}

impl Phase {
    /// The name of the phase in a progress event.
    pub open spec fn name_text(self) -> Seq<char> {
        match self {
            Phase::Kdf => "kdf"@,
            Phase::Encrypt => "encrypt"@,
            Phase::Decrypt => "decrypt"@,
        }
    }

    /// The name under which a progress event reports this phase.
    pub fn name(self) -> (name: &'static str)
        ensures
            name@ == self.name_text(),
    {
        match self {
            Phase::Kdf => "kdf",
            Phase::Encrypt => "encrypt",
            Phase::Decrypt => "decrypt",
        }
    }
}

/// A progress event: how many bytes of how many are done in a phase.
#[derive(Debug)]
pub struct ProgressEvent {
    pub bytes_processed: u64,
    pub total_bytes: u64,
    pub phase: String,
}

impl ProgressEvent {
    /// The event that reports `bytes_processed` of `total_bytes` in `phase`.
    pub fn new(phase: Phase, bytes_processed: u64, total_bytes: u64) -> (event: ProgressEvent)
        ensures
            event.phase@ == phase.name_text(),
            event.bytes_processed == bytes_processed,
            event.total_bytes == total_bytes,
    {
        ProgressEvent { bytes_processed, total_bytes, phase: String::from_str(phase.name()) }
    }

    /// Whether the event reports a finished phase: all bytes are done, or
    /// there were none to do.
    pub fn is_complete(&self) -> (done: bool)
        ensures
            done == (self.total_bytes == 0 || self.bytes_processed >= self.total_bytes),
    {
        self.total_bytes == 0 || self.bytes_processed >= self.total_bytes
    }
}

} // verus!
