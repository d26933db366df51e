use vstd::prelude::*;
use crate::constants::HEADER_SIZE_BYTES;
use crate::error::DnsError;
use crate::header::{header_at, Header};
use crate::question::{question_at, Question, QuestionView};
use crate::record::{records_at, records_view, Record, RecordView};

verus! {

/// What a decoded message holds.
pub struct PacketView {
    pub header: Header,
    pub questions: Seq<QuestionView>,
    pub answers: Seq<RecordView>,
    pub authorities: Seq<RecordView>,
    pub additionals: Seq<RecordView>,
}

/// A whole message: the header and its four sections.
#[derive(Debug)]
pub struct Packet {
    pub header: Header,
    pub questions: Vec<Question>,
    pub answers: Vec<Record>,
    pub authorities: Vec<Record>,
    pub additionals: Vec<Record>,
}

impl View for Packet {
    type V = PacketView;

    open spec fn view(&self) -> PacketView {
        PacketView {
            header: self.header,
            questions: self.questions@.map_values(|q: Question| q@),
            answers: records_view(self.answers@),
            authorities: records_view(self.authorities@),
            additionals: records_view(self.additionals@),
        }
    }
}

/// The `n` questions from `pos` on, and the position just past the last.
pub open spec fn questions_at(b: Seq<u8>, pos: int, n: nat) -> Option<(Seq<QuestionView>, int)>
    decreases n,
{
    if n == 0 {
        Some((Seq::empty(), pos))
    } else {
        match questions_at(b, pos, (n - 1) as nat) {
            Some((qs, p)) => match question_at(b, p) {
                Some((q, e)) => Some((qs.push(q), e)),
                None => None,
            },
            None => None,
        }
    }
}

/// The message that `b` holds and the position just past it: the header,
/// then as many questions, answers, authority and additional records as it
/// declares, each section starting where the one before ended.
pub open spec fn message_at(b: Seq<u8>) -> Option<(PacketView, int)> {
    match header_at(b) {
        Some(h) => match questions_at(b, HEADER_SIZE_BYTES as int, h.num_questions as nat) {
            Some((qs, after_questions)) => match records_at(b, after_questions, h.num_answers as nat) {
                Some((ans, after_answers)) => match records_at(b, after_answers, h.num_authorities as nat) {
                    Some((auth, after_authorities)) => match records_at(b, after_authorities, h.num_additionals as nat) {
                        Some((add, e)) => Some(
                            (
                                PacketView {
                                    header: h,
                                    questions: qs,
                                    answers: ans,
                                    authorities: auth,
                                    additionals: add,
                                },
                                e,
                            ),
                        ),
                        None => None,
                    },
                    None => None,
                },
                None => None,
            },
            None => None,
        },
        None => None,
    }
}

/// The message that `b` holds.
pub open spec fn packet_at(b: Seq<u8>) -> Option<PacketView> {
    match message_at(b) {
        Some((p, _)) => Some(p),
        None => None,
    }
}

proof fn lemma_questions_fail(b: Seq<u8>, pos: int, m: nat, n: nat)
    requires
        m <= n,
        questions_at(b, pos, m) is None,
    ensures
        questions_at(b, pos, n) is None,
    decreases n - m,
{
    if m < n {
        lemma_questions_fail(b, pos, m, (n - 1) as nat);
    }
}

impl Packet {
    /// Decodes a whole message.
    pub fn from_bytes(bytes: &[u8]) -> (r: Result<Packet, DnsError>)
        ensures
            match packet_at(bytes@) {
                Some(p) => r matches Ok(v) && v@ == p,
                None => r == Err::<Packet, DnsError>(DnsError::MalformedMessage),
            },
    {
        let header = match Header::from_bytes(bytes) {
            Ok(h) => h,
            Err(e) => {
                return Err(e);
            },
        };
        let mut cursor: usize = HEADER_SIZE_BYTES;
        let mut questions: Vec<Question> = Vec::new();
        let mut i: u16 = 0;
        while i < header.num_questions
            invariant
                i <= header.num_questions,
                header_at(bytes@) == Some(header),
                questions_at(bytes@, HEADER_SIZE_BYTES as int, i as nat) == Some(
                    (questions@.map_values(|q: Question| q@), cursor as int),
                ),
            decreases header.num_questions - i,
        {
            match Question::from_bytes(bytes, cursor) {
                Ok((question, next)) => {
                    let ghost before = questions@;
                    questions.push(question);
                    assert(questions@.map_values(|q: Question| q@) =~= before.map_values(
                        |q: Question| q@,
                    ).push(question@));
                    cursor = next;
                },
                Err(e) => {
                    proof {
                        lemma_questions_fail(
                            bytes@,
                            HEADER_SIZE_BYTES as int,
                            (i + 1) as nat,
                            header.num_questions as nat,
                        );
                    }
                    return Err(e);
                },
            }
            i = i + 1;
        }
        let (answers, cursor) = match Record::next_n_from_bytes(header.num_answers, bytes, cursor) {
            Ok(p) => p,
            Err(e) => {
                return Err(e);
            },
        };
        let (authorities, cursor) = match Record::next_n_from_bytes(
            header.num_authorities,
            bytes,
            cursor,
        ) {
            Ok(p) => p,
            Err(e) => {
                return Err(e);
            },
        };
        let (additionals, _) = match Record::next_n_from_bytes(
            header.num_additionals,
            bytes,
            cursor,
        ) {
            Ok(p) => p,
            Err(e) => {
                return Err(e);
            },
        };
        Ok(Packet { header, questions, answers, authorities, additionals })
    }
}

} // verus!
