use vstd::prelude::*;

verus! {

/// Host address record: four address bytes.
pub const DNS_RECORD_TYPE_A: u16 = 1;

/// Authoritative name server record: a domain name.
pub const DNS_RECORD_TYPE_NS: u16 = 2;

pub const DNS_RECORD_TYPE_CNAME: u16 = 5;

pub const DNS_RECORD_TYPE_SOA: u16 = 6;

pub const DNS_RECORD_TYPE_PTR: u16 = 12;

pub const DNS_RECORD_TYPE_MX: u16 = 15;

pub const DNS_RECORD_TYPE_TXT: u16 = 16;

/// The Internet class.
pub const DNS_CLASS_IN: u16 = 1;

/// Size of the fixed message header on the wire.
pub const HEADER_SIZE_BYTES: usize = 12;

/// Type and class that follow a question's name.
pub const MIN_QUESTION_SIZE_BYTES: usize = 4;

/// Type, class, time to live and data length that follow a record's name.
pub const MIN_RECORD_SIZE_BYTES: usize = 10;

/// Size of the buffer that a reply is read into.
pub const MAX_DNS_PACKET_BYTES: usize = 1024;

/// How many compression pointers one name may follow before it is rejected.
pub const MAX_POINTER_HOPS: usize = 16;

/// The separator between the labels of a name in its text form.
pub const LABEL_SEPARATOR: u8 = 46;

} // verus!
