//! Wire codec and request/response rules of an SNMP client: a backward-growing
//! BER builder over a fixed buffer, a forward reader, and the checks a reply
//! has to pass.

pub mod asn1;
pub mod ber;
pub mod buf;
pub mod error;
pub mod oid;
pub mod pdu;
pub mod rasn;
pub mod roundtrip;
pub mod session;
pub mod snmp;
pub mod value;

pub use buf::{Buf, BufState, BUFFER_SIZE};
pub use error::{AuthErrorKind, Error, ReportError};
pub use asn1::AsnReader;
pub use oid::Oid;
pub use pdu::{
    build, build_get, build_getbulk, build_getnext, build_inner, build_set, Pdu, V1TrapInfo,
};
pub use session::Session;
pub use value::{MessageType, SpecValue, Value, Varbinds, Version};
