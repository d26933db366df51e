use vstd::prelude::*;
use crate::constants::HEADER_SIZE_BYTES;
use crate::error::DnsError;

verus! {

/// The big-endian 16-bit value at `i` and `i + 1`.
pub open spec fn be16(b: Seq<u8>, i: int) -> u16 {
    ((b[i] as int) * 256 + (b[i + 1] as int)) as u16
}

/// The big-endian 32-bit value at `i` to `i + 3`.
pub open spec fn be32(b: Seq<u8>, i: int) -> u32 {
    ((b[i] as int) * 16777216 + (b[i + 1] as int) * 65536 + (b[i + 2] as int) * 256 + (
    b[i + 3] as int)) as u32
}

/// The two bytes of `v`, most significant first.
pub open spec fn u16_wire(v: u16) -> Seq<u8> {
    seq![(v / 256) as u8, (v % 256) as u8]
}

/// The four bytes of `v`, most significant first.
pub open spec fn u32_wire(v: u32) -> Seq<u8> {
    seq![(v / 16777216) as u8, ((v / 65536) % 256) as u8, ((v / 256) % 256) as u8, (v % 256) as u8]
}

pub(crate) fn push_u16(out: &mut Vec<u8>, v: u16)
    ensures
        final(out)@ == old(out)@ + u16_wire(v),
{
    out.push((v / 256) as u8);
    out.push((v % 256) as u8);
    assert(final(out)@ =~= old(out)@ + u16_wire(v));
}

pub(crate) fn push_u32(out: &mut Vec<u8>, v: u32)
    ensures
        final(out)@ == old(out)@ + u32_wire(v),
{
    out.push((v / 16777216) as u8);
    out.push(((v / 65536) % 256) as u8);
    out.push(((v / 256) % 256) as u8);
    out.push((v % 256) as u8);
    assert(final(out)@ =~= old(out)@ + u32_wire(v));
}

pub(crate) fn read_u16(b: &[u8], i: usize) -> (r: u16)
    requires
        i + 2 <= b@.len(),
    ensures
        r == be16(b@, i as int),
{
    (b[i] as u16) * 256 + (b[i + 1] as u16)
}

pub(crate) fn read_u32(b: &[u8], i: usize) -> (r: u32)
    requires
        i + 4 <= b@.len(),
    ensures
        r == be32(b@, i as int),
{
    (b[i] as u32) * 16777216 + (b[i + 1] as u32) * 65536 + (b[i + 2] as u32) * 256 + (b[i
        + 3] as u32)
}

/// The fixed part at the start of every message.
#[derive(Debug, Clone, Copy, PartialEq, Eq, Structural)]
pub struct Header {
    pub id: u16,
    pub flags: u16,
    pub num_questions: u16,
    pub num_answers: u16,
    pub num_authorities: u16,
    pub num_additionals: u16,
}

/// The twelve wire bytes of a header.
pub open spec fn header_wire(h: Header) -> Seq<u8> {
    u16_wire(h.id) + u16_wire(h.flags) + u16_wire(h.num_questions) + u16_wire(h.num_answers)
        + u16_wire(h.num_authorities) + u16_wire(h.num_additionals)
}

/// The header that the first twelve bytes of `b` hold, if there are twelve.
pub open spec fn header_at(b: Seq<u8>) -> Option<Header> {
    if b.len() < HEADER_SIZE_BYTES {
        None
    } else {
        Some(
            Header {
                id: be16(b, 0),
                flags: be16(b, 2),
                num_questions: be16(b, 4),
                num_answers: be16(b, 6),
                num_authorities: be16(b, 8),
                num_additionals: be16(b, 10),
            },
        )
    }
}

impl Header {
    /// The header in wire form: six big-endian 16-bit fields.
    pub fn to_bytes(&self) -> (r: Vec<u8>)
        ensures
            r@ == header_wire(*self),
            r@.len() == HEADER_SIZE_BYTES,
    {
        let mut bytes: Vec<u8> = Vec::new();
        push_u16(&mut bytes, self.id);
        push_u16(&mut bytes, self.flags);
        push_u16(&mut bytes, self.num_questions);
        push_u16(&mut bytes, self.num_answers);
        push_u16(&mut bytes, self.num_authorities);
        push_u16(&mut bytes, self.num_additionals);
        assert(bytes@ =~= header_wire(*self));
        bytes
    }

    /// Reads a header from the start of `bytes`; fails when fewer than
    /// twelve bytes are there.
    pub fn from_bytes(bytes: &[u8]) -> (r: Result<Header, DnsError>)
        ensures
            r == match header_at(bytes@) {
                Some(h) => Ok::<Header, DnsError>(h),
                None => Err(DnsError::MalformedMessage),
            },
    {
        if bytes.len() < HEADER_SIZE_BYTES {
            return Err(DnsError::MalformedMessage);
        }
        Ok(
            Header {
                id: read_u16(bytes, 0),
                flags: read_u16(bytes, 2),
                num_questions: read_u16(bytes, 4),
                num_answers: read_u16(bytes, 6),
                num_authorities: read_u16(bytes, 8),
                num_additionals: read_u16(bytes, 10),
            },
        )
    }
}

} // verus!
