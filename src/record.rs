use vstd::prelude::*;
use crate::constants::{DNS_RECORD_TYPE_NS, MIN_RECORD_SIZE_BYTES};
use crate::error::DnsError;
use crate::header::{be16, be32, push_u16, push_u32, read_u16, read_u32, u16_wire, u32_wire};
use crate::name::{name_at, push_range, read_name};

verus! {

/// What a resource record holds.
pub struct RecordView {
    pub name: Seq<u8>,
    pub record_type: u16,
    pub class_type: u16,
    pub ttl: u32,
    pub data: Seq<u8>,
}

/// One resource record. After decoding, `name` holds the owner name's text,
/// and `data` the payload: for a name server record the text of the name it
/// carries, for any other type the bytes as they stand.
#[derive(Debug)]
pub struct Record {
    pub name: Vec<u8>,
    pub record_type: u16,
    pub class_type: u16,
    pub ttl: u32,
    pub data: Vec<u8>,
}

impl View for Record {
    type V = RecordView;

    open spec fn view(&self) -> RecordView {
        RecordView {
            name: self.name@,
            record_type: self.record_type,
            class_type: self.class_type,
            ttl: self.ttl,
            data: self.data@,
        }
    }
}

/// The views of a sequence of records.
pub open spec fn records_view(rs: Seq<Record>) -> Seq<RecordView> {
    rs.map_values(|r: Record| r@)
}

/// The wire form of a record whose name is already in wire form.
pub open spec fn record_wire(r: RecordView) -> Seq<u8> {
    r.name + u16_wire(r.record_type) + u16_wire(r.class_type) + u32_wire(r.ttl) + u16_wire(
        r.data.len() as u16,
    ) + r.data
}

/// The record at `pos` and the position just past it. The payload must fit
/// in the buffer; a non-empty name server payload is a name, which may point
/// back into the message but must lie within the record.
pub open spec fn record_at(b: Seq<u8>, pos: int) -> Option<(RecordView, int)> {
    match name_at(b, pos) {
        Some((n, e)) => if e + MIN_RECORD_SIZE_BYTES > b.len() {
            None
        } else {
            let start = e + MIN_RECORD_SIZE_BYTES;
            let end = start + be16(b, e + 8);
            let rtype = be16(b, e);
            if end > b.len() {
                None
            } else {
                let data = if rtype == DNS_RECORD_TYPE_NS && end > start {
                    match name_at(b.take(end), start) {
                        Some((t, _)) => Some(t),
                        None => None,
                    }
                } else {
                    Some(b.subrange(start, end))
                };
                match data {
                    Some(d) => Some(
                        (
                            RecordView {
                                name: n,
                                record_type: rtype,
                                class_type: be16(b, e + 2),
                                ttl: be32(b, e + 4),
                                data: d,
                            },
                            end,
                        ),
                    ),
                    None => None,
                }
            }
        },
        None => None,
    }
}

/// The `n` records from `pos` on, one after another, and the position just
/// past the last.
pub open spec fn records_at(b: Seq<u8>, pos: int, n: nat) -> Option<(Seq<RecordView>, int)>
    decreases n,
{
    if n == 0 {
        Some((Seq::empty(), pos))
    } else {
        match records_at(b, pos, (n - 1) as nat) {
            Some((rs, p)) => match record_at(b, p) {
                Some((r, e)) => Some((rs.push(r), e)),
                None => None,
            },
            None => None,
        }
    }
}

/// Once a record fails to decode, so does every longer run of records.
proof fn lemma_records_fail(b: Seq<u8>, pos: int, m: nat, n: nat)
    requires
        m <= n,
        records_at(b, pos, m) is None,
    ensures
        records_at(b, pos, n) is None,
    decreases n - m,
{
    if m < n {
        lemma_records_fail(b, pos, m, (n - 1) as nat);
    }
}

impl Record {
    /// The record in wire form: the name bytes as held, type, class, time to
    /// live, payload length and payload.
    pub fn to_bytes(&self) -> (r: Vec<u8>)
        requires
            self.data@.len() <= 0xffff,
        ensures
            r@ == record_wire(self@),
    {
        let mut bytes: Vec<u8> = self.name.clone();
        push_u16(&mut bytes, self.record_type);
        push_u16(&mut bytes, self.class_type);
        push_u32(&mut bytes, self.ttl);
        push_u16(&mut bytes, self.data.len() as u16);
        push_range(&mut bytes, self.data.as_slice(), 0, self.data.len());
        assert(self.data@.subrange(0, self.data@.len() as int) =~= self.data@);
        assert(bytes@ =~= record_wire(self@));
        bytes
    }

    /// Decodes the record at `cursor`, and the position just past it.
    pub fn from_bytes(bytes: &[u8], cursor: usize) -> (r: Result<(Record, usize), DnsError>)
        ensures
            match record_at(bytes@, cursor as int) {
                Some((rec, e)) => r matches Ok((v, c)) && v@ == rec && c == e,
                None => r == Err::<(Record, usize), DnsError>(DnsError::MalformedMessage),
            },
            r matches Ok((_, c)) ==> c <= bytes@.len(),
    {
        let (name, cursor) = match read_name(bytes, cursor) {
            Ok(p) => p,
            Err(e) => {
                return Err(e);
            },
        };
        if bytes.len() - cursor < MIN_RECORD_SIZE_BYTES {
            return Err(DnsError::MalformedMessage);
        }
        let record_type = read_u16(bytes, cursor);
        let class_type = read_u16(bytes, cursor + 2);
        let ttl = read_u32(bytes, cursor + 4);
        let data_len = read_u16(bytes, cursor + 8);
        let start = cursor + MIN_RECORD_SIZE_BYTES;
        if bytes.len() - start < data_len as usize {
            return Err(DnsError::MalformedMessage);
        }
        let end = start + data_len as usize;
        let data = if record_type == DNS_RECORD_TYPE_NS && end > start {
            let within = &bytes[0..end];
            assert(within@ =~= bytes@.take(end as int));
            match read_name(within, start) {
                Ok((text, _)) => text,
                Err(e) => {
                    return Err(e);
                },
            }
        } else {
            let mut raw: Vec<u8> = Vec::new();
            push_range(&mut raw, bytes, start, end);
            assert(raw@ =~= bytes@.subrange(start as int, end as int));
            raw
        };
        Ok((Record { name, record_type, class_type, ttl, data }, end))
    }

    /// Decodes `n` records one after another from `cursor` on, and the
    /// position just past the last. The count comes from the header, since a
    /// message does not mark where a section ends.
    pub fn next_n_from_bytes(n: u16, bytes: &[u8], start: usize) -> (r: Result<
        (Vec<Record>, usize),
        DnsError,
    >)
        ensures
            match records_at(bytes@, start as int, n as nat) {
                Some((rs, e)) => r matches Ok((v, c)) && records_view(v@) == rs && c == e,
                None => r == Err::<(Vec<Record>, usize), DnsError>(DnsError::MalformedMessage),
            },
    {
        let mut records: Vec<Record> = Vec::new();
        let mut cursor = start;
        let mut i: u16 = 0;
        while i < n
            invariant
                i <= n,
                records_at(bytes@, start as int, i as nat) == Some(
                    (records_view(records@), cursor as int),
                ),
            decreases n - i,
        {
            match Record::from_bytes(bytes, cursor) {
                Ok((record, next)) => {
                    let ghost before = records@;
                    records.push(record);
                    assert(records_view(records@) =~= records_view(before).push(record@));
                    cursor = next;
                },
                Err(e) => {
                    proof {
                        lemma_records_fail(bytes@, start as int, (i + 1) as nat, n as nat);
                    }
                    return Err(e);
                },
            }
            i = i + 1;
        }
        Ok((records, cursor))
    }
}

} // verus!
