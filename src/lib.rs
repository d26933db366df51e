//! An iterative DNS resolver core: the wire codec for headers, questions,
//! resource records and compressed names, the decoder for whole messages,
//! and the decision step that walks a delegation chain from the root.

pub mod constants;
pub mod error;
pub mod header;
pub mod name;
pub mod question;
pub mod record;
pub mod packet;
pub mod resolver;
pub mod laws;

pub use constants::{
    DNS_CLASS_IN, DNS_RECORD_TYPE_A, DNS_RECORD_TYPE_CNAME, DNS_RECORD_TYPE_MX,
    DNS_RECORD_TYPE_NS, DNS_RECORD_TYPE_PTR, DNS_RECORD_TYPE_SOA, DNS_RECORD_TYPE_TXT,
    HEADER_SIZE_BYTES, MAX_DNS_PACKET_BYTES, MAX_POINTER_HOPS,
};
pub use error::DnsError;
pub use header::Header;
pub use packet::Packet;
pub use question::Question;
pub use record::Record;
pub use resolver::{Next, Query, Resolver};
