//! Error kinds reported by the codec and by response validation.

use vstd::prelude::*;

verus! {

/// Why an SNMPv3 Report PDU was sent instead of a response.
#[derive(Debug, Clone, Copy, PartialEq, Eq, Structural)]
pub enum ReportError {
    UnknownSecurityModel,
    InvalidMessage,
    BadVersion,
    UnsupportedSecurityLevel,
    NotInTimeWindow,
    UnknownUserName,
    UnknownEngineId,
    AuthenticationFailure,
    DecryptionError,
    BadContext,
    UnknownReport,
    NoVarbindOid,
    NoVarbind,
}

/// Why an SNMPv3 exchange could not be authenticated.
#[derive(Debug, Clone, Copy, PartialEq, Eq, Structural)]
pub enum AuthErrorKind {
    SecurityNotProvided,
    NotAuthenticated,
}

/// Everything that can go wrong while encoding, decoding or validating a message.
#[derive(Debug, Clone, Copy, PartialEq, Eq, Structural)]
pub enum Error {
    /// The input ended before the element was complete.
    AsnEof,
    /// A length octet is reserved, indefinite, wider than the machine word,
    /// or claims more content than the input holds.
    AsnInvalidLen,
    /// The identifier octet is not the expected one.
    AsnWrongType,
    /// The identifier octet names no value type that a varbind can carry.
    AsnUnexpectedType,
    /// An integer's content is wider than eight octets.
    AsnIntOverflow,
    /// A decoded integer lies outside the range of its field.
    ValueOutOfRange,
    /// The message's version number is none of 0, 1 and 3.
    UnsupportedVersion,
    /// The response answers another request.
    RequestIdMismatch,
    /// The response carries another community.
    CommunityMismatch,
    /// The peer answered with a Report PDU.
    UnexpectedReport(ReportError),
    /// The message does not fit into the encode buffer.
    EncodeOverflow,
    /// An object identifier has more sub-identifiers than SNMP allows.
    OidTooLong,
    /// A value has no encoding.
    ValueUnrepresentable,
    /// SNMPv3 processing was asked for and could not authenticate.
    AuthFailure(AuthErrorKind),
}

} // verus!
