//! SNMP application tags, exception markers and PDU identifiers.

use vstd::prelude::*;

verus! {

pub const TYPE_IPADDRESS: u8 = 0x40;

pub const TYPE_COUNTER32: u8 = 0x41;

pub const TYPE_UNSIGNED32: u8 = 0x42;

pub const TYPE_TIMETICKS: u8 = 0x43;

pub const TYPE_OPAQUE: u8 = 0x44;

pub const TYPE_COUNTER64: u8 = 0x46;

pub const SNMP_NOSUCHOBJECT: u8 = 0x80;

pub const SNMP_NOSUCHINSTANCE: u8 = 0x81;

pub const SNMP_ENDOFMIBVIEW: u8 = 0x82;

pub const MSG_GET: u8 = 0xA0;

pub const MSG_GET_NEXT: u8 = 0xA1;

pub const MSG_RESPONSE: u8 = 0xA2;

pub const MSG_SET: u8 = 0xA3;

pub const MSG_TRAP_V1: u8 = 0xA4;

pub const MSG_GET_BULK: u8 = 0xA5;

pub const MSG_INFORM: u8 = 0xA6;

pub const MSG_TRAP_V2: u8 = 0xA7;

pub const MSG_REPORT: u8 = 0xA8;

} // verus!
