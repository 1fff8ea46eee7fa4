//! Why a lookup or a configuration change did not go through.

use vstd::prelude::*;
use vstd::string::StringExecFns;

verus! {

/// What a lookup asks for.
#[derive(Clone, Copy, Debug, PartialEq, Eq, Structural)]
pub enum LookupKind {
    /// The host name of an address.
    Reverse,
    /// The IPv4 addresses of a host.
    Addresses,
    /// The records of a named kind of a host.
    Records,
}

/// Why one lookup gave no value.
#[derive(Debug, PartialEq, Eq)]
pub enum LookupError {
    /// The text is not an IPv4 address; it is kept as it was given.
    InvalidAddress(String),
    /// The text names no supported record kind; it is kept as it was given.
    UnsupportedRecordType(String),
    /// The resolver answered, with nothing that the lookup could return.
    NotFound(LookupKind),
    /// The resolver failed; its own words are kept.
    ResolutionError(LookupKind, String),
}

impl LookupError {
    /// What `message` says.
    pub open spec fn message_text(self) -> Seq<char> {
        match self {
            LookupError::InvalidAddress(t) => "Invalid IPv4 address format: "@ + t@,
            LookupError::UnsupportedRecordType(t) => "Unsupported record type: "@ + t@,
            LookupError::NotFound(LookupKind::Reverse) => "No hostname found for IP address"@,
            LookupError::NotFound(LookupKind::Addresses) => "No IPv4 addresses found for hostname"@,
            LookupError::NotFound(LookupKind::Records) => "No records found for hostname"@,
            LookupError::ResolutionError(LookupKind::Reverse, e) => "Reverse DNS lookup failed: "@
                + e@,
            LookupError::ResolutionError(_, e) => "DNS lookup failed: "@ + e@,
        }
    }

    /// The error in words.
    pub fn message(&self) -> (r: String)
        ensures
            r@ == self.message_text(),
    {
        match self {
            LookupError::InvalidAddress(t) => String::from_str("Invalid IPv4 address format: ").concat(
                t.as_str(),
            ),
            LookupError::UnsupportedRecordType(t) => String::from_str(
                "Unsupported record type: ",
            ).concat(t.as_str()),
            LookupError::NotFound(LookupKind::Reverse) => String::from_str(
                "No hostname found for IP address",
            ),
            LookupError::NotFound(LookupKind::Addresses) => String::from_str(
                "No IPv4 addresses found for hostname",
            ),
            LookupError::NotFound(LookupKind::Records) => String::from_str(
                "No records found for hostname",
            ),
            LookupError::ResolutionError(LookupKind::Reverse, e) => String::from_str(
                "Reverse DNS lookup failed: ",
            ).concat(e.as_str()),
            LookupError::ResolutionError(_, e) => String::from_str("DNS lookup failed: ").concat(
                e.as_str(),
            ),
        }
    }
}

} // verus!
