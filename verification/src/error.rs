//! Error type of the bridge.
use vstd::prelude::*;
use crate::text;
use crate::text::{push_decimal, push_hex};

verus! {

/// `std::io::Error`: an error of the operating system.
#[verifier::external_type_specification]
#[verifier::external_body]
pub struct ExIoError(std::io::Error);

/// `to_string` of std for an `io::Error` gives the system's words for it. They differ from system
/// to system, and nothing is claimed of them.
#[verifier::external_body]
fn io_words(e: &std::io::Error) -> String {
    e.to_string()
}

/// Whether these can be the system's words for an error.
pub closed spec fn are_words_of(words: String, e: std::io::Error) -> bool {
    call_ensures(io_words, (&e,), words)
}

/// All errors that can occur in bridge operations.
#[derive(Debug, Clone, PartialEq, Eq)]
pub enum SynapseError {
    /// Shared memory creation/opening failed.
    ShmError(String),
    /// Ring buffer is full (non-blocking push failed).
    RingFull,
    /// Ring buffer is empty (non-blocking pop failed).
    RingEmpty,
    /// Data exceeds slot size.
    DataTooLarge { data_len: usize, slot_size: usize },
    /// Magic number mismatch: not a bridge region.
    BadMagic { expected: u64, found: u64 },
    /// Version mismatch.
    VersionMismatch { expected: u32, found: u32 },
    /// Session token mismatch: wrong bridge instance.
    SessionMismatch,
    /// Invalid state transition.
    InvalidState(String),
    /// OS-level I/O error.
    Io(String),
}

impl SynapseError {
    /// The message that describes the error.
    pub open spec fn text(&self) -> Seq<char> {
        match self {
            SynapseError::ShmError(msg) => "shared memory error: "@ + msg@,
            SynapseError::RingFull => "ring buffer full"@,
            SynapseError::RingEmpty => "ring buffer empty"@,
            SynapseError::DataTooLarge { data_len, slot_size } => "data ("@
                + text::decimal(*data_len as nat) + " bytes) exceeds slot size ("@
                + text::decimal(*slot_size as nat) + " bytes)"@,
            SynapseError::BadMagic { expected, found } => "bad magic: expected 0x"@
                + text::hex(*expected as nat, 16) + ", found 0x"@ + text::hex(
                *found as nat,
                16,
            ),
            SynapseError::VersionMismatch { expected, found } => "version mismatch: expected "@
                + text::decimal(*expected as nat) + ", found "@ + text::decimal(
                *found as nat,
            ),
            SynapseError::SessionMismatch => "session token mismatch"@,
            SynapseError::InvalidState(msg) => "invalid state: "@ + msg@,
            SynapseError::Io(msg) => "I/O error: "@ + msg@,
        }
    }

    /// Describes the error in words.
    pub fn to_string(&self) -> (out: String)
        ensures
            out@ == self.text(),
    {
        let mut out: String = String::new();
        match self {
            SynapseError::ShmError(msg) => {
                out.append("shared memory error: ");
                out.append(msg.as_str());
            },
            SynapseError::RingFull => {
                out.append("ring buffer full");
            },
            SynapseError::RingEmpty => {
                out.append("ring buffer empty");
            },
            SynapseError::DataTooLarge { data_len, slot_size } => {
                out.append("data (");
                push_decimal(&mut out, *data_len as u64);
                out.append(" bytes) exceeds slot size (");
                push_decimal(&mut out, *slot_size as u64);
                out.append(" bytes)");
            },
            SynapseError::BadMagic { expected, found } => {
                out.append("bad magic: expected 0x");
                push_hex(&mut out, *expected as u128, 16);
                out.append(", found 0x");
                push_hex(&mut out, *found as u128, 16);
            },
            SynapseError::VersionMismatch { expected, found } => {
                out.append("version mismatch: expected ");
                push_decimal(&mut out, *expected as u64);
                out.append(", found ");
                push_decimal(&mut out, *found as u64);
            },
            SynapseError::SessionMismatch => {
                out.append("session token mismatch");
            },
            SynapseError::InvalidState(msg) => {
                out.append("invalid state: ");
                out.append(msg.as_str());
            },
            SynapseError::Io(msg) => {
                out.append("I/O error: ");
                out.append(msg.as_str());
            },
        }
        assert(out@ =~= self.text());
        out
    }
}

impl From<std::io::Error> for SynapseError {
    /// An error of the operating system, in its own words.
    fn from(e: std::io::Error) -> (error: SynapseError)
        ensures
            error matches SynapseError::Io(words) && are_words_of(words, e),
    {
        SynapseError::Io(io_words(&e))
    }
}

/// What the conversion gives is not a function of anything that contracts can speak of: it holds
/// the system's words.
impl vstd::std_specs::convert::FromSpecImpl<std::io::Error> for SynapseError {
    open spec fn obeys_from_spec() -> bool {
        false
    }

    open spec fn from_spec(e: std::io::Error) -> SynapseError {
        vstd::pervasive::arbitrary()
    }
}

/// What is said of each error.
pub proof fn law_messages(e: SynapseError)
    ensures
        match e {
            SynapseError::ShmError(words) => e.text() == "shared memory error: "@ + words@,
            SynapseError::RingFull => e.text() == "ring buffer full"@,
            SynapseError::RingEmpty => e.text() == "ring buffer empty"@,
            SynapseError::DataTooLarge { data_len, slot_size } => e.text() == "data ("@
                + text::decimal(data_len as nat) + " bytes) exceeds slot size ("@ + text::decimal(
                slot_size as nat,
            ) + " bytes)"@,
            SynapseError::BadMagic { expected, found } => e.text() == "bad magic: expected 0x"@
                + text::hex(expected as nat, 16) + ", found 0x"@ + text::hex(found as nat, 16),
            SynapseError::VersionMismatch { expected, found } => e.text()
                == "version mismatch: expected "@ + text::decimal(expected as nat) + ", found "@
                + text::decimal(found as nat),
            SynapseError::SessionMismatch => e.text() == "session token mismatch"@,
            SynapseError::InvalidState(words) => e.text() == "invalid state: "@ + words@,
            SynapseError::Io(words) => e.text() == "I/O error: "@ + words@,
        },
{
}

} // verus!
