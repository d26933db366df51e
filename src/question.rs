use vstd::prelude::*;
use vstd::string::StringSliceAdditionalSpecFns;
use crate::constants::MIN_QUESTION_SIZE_BYTES;
use crate::error::DnsError;
use crate::header::{be16, push_u16, read_u16, u16_wire};
use vstd::utf8::valid_utf8;
use crate::constants::MAX_POINTER_HOPS;
use crate::name::{encode_text, name_at, raw_name_at, read_name, text_wire};

verus! {

/// What a question holds: its name, type and class.
pub struct QuestionView {
    pub name: Seq<u8>,
    pub qtype: u16,
    pub qclass: u16,
}

/// One entry of a message's question section. After encoding for a query
/// the name holds its wire form; after decoding, its text.
#[derive(Debug)]
pub struct Question {
    pub qname: Vec<u8>,
    pub qtype: u16,
    pub qclass: u16,
}

impl View for Question {
    type V = QuestionView;

    open spec fn view(&self) -> QuestionView {
        QuestionView { name: self.qname@, qtype: self.qtype, qclass: self.qclass }
    }
}

/// The wire form of a question whose name is already in wire form.
pub open spec fn question_wire(q: QuestionView) -> Seq<u8> {
    q.name + u16_wire(q.qtype) + u16_wire(q.qclass)
}

/// The question at `pos` and the position just past it.
pub open spec fn question_at(b: Seq<u8>, pos: int) -> Option<(QuestionView, int)> {
    match name_at(b, pos) {
        Some((n, e)) => if e + MIN_QUESTION_SIZE_BYTES > b.len() {
            None
        } else {
            Some((QuestionView { name: n, qtype: be16(b, e), qclass: be16(b, e + 2) }, e + 4))
        },
        None => None,
    }
}

impl Question {
    /// The question in wire form: the name bytes as held, then type and class.
    pub fn to_bytes(&self) -> (r: Vec<u8>)
        ensures
            r@ == question_wire(self@),
    {
        let mut bytes: Vec<u8> = self.qname.clone();
        push_u16(&mut bytes, self.qtype);
        push_u16(&mut bytes, self.qclass);
        assert(bytes@ =~= question_wire(self@));
        bytes
    }

    /// Encodes dot-separated text as a wire name: each label after its
    /// length byte, then a zero byte. Fails where a label is longer than 255
    /// bytes.
    pub fn encode_name(domain_name: &str) -> (r: Result<Vec<u8>, DnsError>)
        ensures
            match text_wire(domain_name.spec_bytes()) {
                Some(w) => r matches Ok(v) && v@ == w,
                None => r == Err::<Vec<u8>, DnsError>(DnsError::LabelTooLong),
            },
    {
        encode_text(domain_name.as_bytes())
    }

    /// Decodes the name at `cursor`, following compression pointers: its
    /// text, and the position just past its wire form. The text goes through
    /// lossy UTF-8 decoding, which keeps valid text as it is.
    pub fn decode_name(bytes: &[u8], cursor: usize) -> (r: Result<(Vec<u8>, usize), DnsError>)
        ensures
            match name_at(bytes@, cursor as int) {
                Some((t, e)) => r matches Ok((v, c)) && v@ == t && c == e,
                None => r == Err::<(Vec<u8>, usize), DnsError>(DnsError::MalformedMessage),
            },
            r matches Ok((_, c)) ==> c <= bytes@.len(),
            match raw_name_at(bytes@, cursor as int, MAX_POINTER_HOPS as nat) {
                Some((t, _)) => valid_utf8(t) ==> (r matches Ok((v, _)) && v@ == t),
                None => true,
            },
    {
        read_name(bytes, cursor)
    }

    /// Decodes the question at `cursor`, and the position just past it.
    pub fn from_bytes(bytes: &[u8], cursor: usize) -> (r: Result<(Question, usize), DnsError>)
        ensures
            match question_at(bytes@, cursor as int) {
                Some((q, e)) => r matches Ok((v, c)) && v@ == q && c == e,
                None => r == Err::<(Question, usize), DnsError>(DnsError::MalformedMessage),
            },
            r matches Ok((_, c)) ==> c <= bytes@.len(),
    {
        let (qname, cursor) = match read_name(bytes, cursor) {
            Ok(p) => p,
            Err(e) => {
                return Err(e);
            },
        };
        if bytes.len() - cursor < MIN_QUESTION_SIZE_BYTES {
            return Err(DnsError::MalformedMessage);
        }
        let qtype = read_u16(bytes, cursor);
        let qclass = read_u16(bytes, cursor + 2);
        Ok((Question { qname, qtype, qclass }, cursor + 4))
    }
}

} // verus!
