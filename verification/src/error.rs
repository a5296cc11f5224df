//! Why an operation of the registry failed.

use vstd::prelude::*;
use vstd::string::StringExecFns;

verus! {

/// The four kinds of failure that callers tell apart, and a fifth for a store
/// whose bytes the registry cannot read.
#[derive(Debug, Clone, Copy, PartialEq, Eq, Structural)]
pub enum ErrorKind {
    /// The request itself is not acceptable.
    Validation,
    /// What the request names is not there.
    NotFound,
    /// The caller is not allowed to do this.
    Authorization,
    /// The name is taken.
    AlreadyRegistered,
    /// An entry of the store is not in the registry's framing.
    Storage,
}

/// Each way in which an operation of the registry can fail.
#[derive(Debug, Clone, Copy, PartialEq, Eq, Structural)]
pub enum RegistryError {
    /// The namespace is not among the allowed ones.
    UnknownTld,
    /// No attached payment covers the registration fee.
    InsufficientPayment,
    /// The value is longer than 256 bytes.
    ValueTooLong,
    /// The lineage reference is no base 32 text.
    MalformedLineage,
    /// The registry has no settings yet.
    ConfigNotFound,
    /// The name is not registered.
    NameNotFound,
    /// No archived record is kept under the lineage reference.
    LineageNotFound,
    /// The caller does not own the name.
    NotOwner,
    /// The name is registered already.
    AlreadyRegistered,
    /// The store holds bytes under the key that are no record or settings.
    CorruptEntry,
}

impl RegistryError {
    /// The kind of failure that each error belongs to.
    pub open spec fn spec_kind(self) -> ErrorKind {
        match self {
            RegistryError::UnknownTld => ErrorKind::Validation,
            RegistryError::InsufficientPayment => ErrorKind::Validation,
            RegistryError::ValueTooLong => ErrorKind::Validation,
            RegistryError::MalformedLineage => ErrorKind::Validation,
            RegistryError::ConfigNotFound => ErrorKind::NotFound,
            RegistryError::NameNotFound => ErrorKind::NotFound,
            RegistryError::LineageNotFound => ErrorKind::NotFound,
            RegistryError::NotOwner => ErrorKind::Authorization,
            RegistryError::AlreadyRegistered => ErrorKind::AlreadyRegistered,
            RegistryError::CorruptEntry => ErrorKind::Storage,
        }
    }

    /// The kind of failure that this error belongs to.
    #[verifier::when_used_as_spec(spec_kind)]
    pub fn kind(self) -> (kind: ErrorKind)
        ensures
            kind == self.spec_kind(),
    {
        match self {
            RegistryError::UnknownTld => ErrorKind::Validation,
            RegistryError::InsufficientPayment => ErrorKind::Validation,
            RegistryError::ValueTooLong => ErrorKind::Validation,
            RegistryError::MalformedLineage => ErrorKind::Validation,
            RegistryError::ConfigNotFound => ErrorKind::NotFound,
            RegistryError::NameNotFound => ErrorKind::NotFound,
            RegistryError::LineageNotFound => ErrorKind::NotFound,
            RegistryError::NotOwner => ErrorKind::Authorization,
            RegistryError::AlreadyRegistered => ErrorKind::AlreadyRegistered,
            RegistryError::CorruptEntry => ErrorKind::Storage,
        }
    }

    /// The sentence that goes with each error.
    pub open spec fn message_text(self) -> Seq<char> {
        match self {
            RegistryError::UnknownTld => "Unknown TLD"@,
            RegistryError::InsufficientPayment => "Insufficient payment"@,
            RegistryError::ValueTooLong => "Value exceeds max allowed length (256)"@,
            RegistryError::MalformedLineage => "Unable to decode specified lineage as base32"@,
            RegistryError::ConfigNotFound => "Config not found"@,
            RegistryError::NameNotFound => "Could not find name"@,
            RegistryError::LineageNotFound => "Could not find lineage"@,
            RegistryError::NotOwner => "Only the name owner can change it"@,
            RegistryError::AlreadyRegistered => "Name already registered"@,
            RegistryError::CorruptEntry => "Stored entry is unreadable"@,
        }
    }

    /// A sentence for people, one per error.
    pub fn message(self) -> (text: String)
        ensures
            text@ == self.message_text(),
    {
        match self {
            RegistryError::UnknownTld => String::from_str("Unknown TLD"),
            RegistryError::InsufficientPayment => String::from_str("Insufficient payment"),
            RegistryError::ValueTooLong => String::from_str(
                "Value exceeds max allowed length (256)",
            ),
            RegistryError::MalformedLineage => String::from_str(
                "Unable to decode specified lineage as base32",
            ),
            RegistryError::ConfigNotFound => String::from_str("Config not found"),
            RegistryError::NameNotFound => String::from_str("Could not find name"),
            RegistryError::LineageNotFound => String::from_str("Could not find lineage"),
            RegistryError::NotOwner => String::from_str("Only the name owner can change it"),
            RegistryError::AlreadyRegistered => String::from_str("Name already registered"),
            RegistryError::CorruptEntry => String::from_str("Stored entry is unreadable"),
        }
    }
}

} // verus!
