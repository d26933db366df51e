use vstd::prelude::*;
use crate::constants::{DNS_RECORD_TYPE_A, DNS_RECORD_TYPE_NS, LABEL_SEPARATOR, MAX_POINTER_HOPS};
use crate::header::{be16, be32, header_at, header_wire, u16_wire, u32_wire, Header};
use crate::question::{question_at, question_wire, QuestionView};
use crate::record::{record_at, record_wire, records_at, RecordView};
use crate::packet::{message_at, packet_at, questions_at, PacketView};
use crate::resolver::{first_address, first_nameserver, is_first};
use crate::name::{
    dot_join, join_labels, labels_wire, name_at, pointer_target, raw_name_at, split_dots,
    text_wire, utf8_lossy,
};

verus! {

/// Labels that the wire form carries as they are: each is non-empty and
/// short enough that its length byte is not read as a pointer.
pub open spec fn plain_labels(ls: Seq<Seq<u8>>) -> bool {
    forall|i: int| 0 <= i < ls.len() ==> 0 < #[trigger] ls[i].len() < 192
}

proof fn lemma_u16_wire(v: u16)
    ensures
        be16(u16_wire(v), 0) == v,
{
    let w = u16_wire(v);
    assert((v / 256) * 256 + v % 256 == v) by (nonlinear_arith);
    assert(w[0] as int == v / 256);
    assert(w[1] as int == v % 256);
}

proof fn lemma_u32_wire(v: u32)
    ensures
        be32(u32_wire(v), 0) == v,
{
    let w = u32_wire(v);
    assert(w[0] as int == v / 16777216);
    assert(w[1] as int == (v / 65536) % 256);
    assert(w[2] as int == (v / 256) % 256);
    assert(w[3] as int == v % 256);
    assert((v / 16777216) * 16777216 + ((v / 65536) % 256) * 65536 + ((v / 256) % 256) * 256 + v
        % 256 == v) by (nonlinear_arith);
}

/// The value read at `i` is the one written there.
proof fn lemma_be16_at(b: Seq<u8>, i: int, v: u16)
    requires
        0 <= i,
        i + 2 <= b.len(),
        b.subrange(i, i + 2) == u16_wire(v),
    ensures
        be16(b, i) == v,
{
    lemma_u16_wire(v);
    assert(b[i] == b.subrange(i, i + 2)[0]);
    assert(b[i + 1] == b.subrange(i, i + 2)[1]);
}

proof fn lemma_be32_at(b: Seq<u8>, i: int, v: u32)
    requires
        0 <= i,
        i + 4 <= b.len(),
        b.subrange(i, i + 4) == u32_wire(v),
    ensures
        be32(b, i) == v,
{
    lemma_u32_wire(v);
    assert(b[i] == b.subrange(i, i + 4)[0]);
    assert(b[i + 1] == b.subrange(i, i + 4)[1]);
    assert(b[i + 2] == b.subrange(i, i + 4)[2]);
    assert(b[i + 3] == b.subrange(i, i + 4)[3]);
}

/// Decoding an encoded header gives back every field.
pub proof fn law_header_round_trip(h: Header)
    ensures
        header_at(header_wire(h)) == Some(h),
{
    let b = header_wire(h);
    assert(b.subrange(0, 2) =~= u16_wire(h.id));
    lemma_be16_at(b, 0, h.id);
    assert(b.subrange(2, 4) =~= u16_wire(h.flags));
    lemma_be16_at(b, 2, h.flags);
    assert(b.subrange(4, 6) =~= u16_wire(h.num_questions));
    lemma_be16_at(b, 4, h.num_questions);
    assert(b.subrange(6, 8) =~= u16_wire(h.num_answers));
    lemma_be16_at(b, 6, h.num_answers);
    assert(b.subrange(8, 10) =~= u16_wire(h.num_authorities));
    lemma_be16_at(b, 8, h.num_authorities);
    assert(b.subrange(10, 12) =~= u16_wire(h.num_additionals));
    lemma_be16_at(b, 10, h.num_additionals);
}

proof fn lemma_plain_wire_some(ls: Seq<Seq<u8>>)
    requires
        plain_labels(ls),
    ensures
        labels_wire(ls) is Some,
        ls.len() > 0 ==> join_labels(ls).len() > 0,
    decreases ls.len(),
{
    if ls.len() > 0 {
        assert(0 < ls[0].len() < 192);
        let rest = ls.drop_first();
        assert forall|i: int| 0 <= i < rest.len() implies 0 < #[trigger] rest[i].len() < 192 by {
            assert(rest[i] == ls[i + 1]);
        }
        lemma_plain_wire_some(rest);
    }
}

/// Plain labels written at `pos` in wire form read back as their joined
/// text, with any budget of pointers.
pub proof fn lemma_wire_decodes(b: Seq<u8>, pos: int, ls: Seq<Seq<u8>>, hops: nat)
    requires
        plain_labels(ls),
        labels_wire(ls) is Some,
        0 <= pos,
        pos + labels_wire(ls)->Some_0.len() <= b.len(),
        b.subrange(pos, pos + labels_wire(ls)->Some_0.len()) == labels_wire(ls)->Some_0,
    ensures
        raw_name_at(b, pos, hops) == Some((join_labels(ls), pos + labels_wire(ls)->Some_0.len())),
    decreases ls.len(),
{
    let w = labels_wire(ls)->Some_0;
    assert(b[pos] == w[0]);
    if ls.len() > 0 {
        let l = ls[0];
        let rest = ls.drop_first();
        assert(0 < l.len() < 192);
        assert forall|i: int| 0 <= i < rest.len() implies 0 < #[trigger] rest[i].len() < 192 by {
            assert(rest[i] == ls[i + 1]);
        }
        lemma_plain_wire_some(rest);
        let w2 = labels_wire(rest)->Some_0;
        assert(w == seq![l.len() as u8] + l + w2);
        let next = pos + 1 + l.len();
        assert(b.subrange(pos + 1, next) =~= l) by {
            assert forall|i: int| 0 <= i < l.len() implies b.subrange(pos + 1, next)[i] == l[i] by {
                assert(b[pos + 1 + i] == w[1 + i]);
            }
        }
        assert(b.subrange(next, next + w2.len()) =~= w2) by {
            assert forall|i: int| 0 <= i < w2.len() implies b.subrange(next, next + w2.len())[i]
                == w2[i] by {
                assert(b[next + i] == w[1 + l.len() + i]);
            }
        }
        lemma_wire_decodes(b, next, rest, hops);
        if rest.len() == 0 {
            assert(join_labels(ls) == l);
        } else {
            assert(join_labels(ls) == dot_join(l, join_labels(rest)));
        }
    }
}

proof fn lemma_join_split(t: Seq<u8>)
    ensures
        join_labels(split_dots(t)) == t,
        split_dots(t).len() >= 1,
    decreases t.len(),
{
    if t.len() > 0 {
        let v = t.drop_first();
        lemma_join_split(v);
        let rest = split_dots(v);
        if t[0] == LABEL_SEPARATOR {
            let s = seq![Seq::<u8>::empty()] + rest;
            assert(s.drop_first() =~= rest);
            assert(join_labels(s) =~= t);
        } else {
            let s = rest.update(0, seq![t[0]] + rest[0]);
            if rest.len() == 1 {
                assert(join_labels(rest) == rest[0]);
                assert(s.len() == 1);
                assert(join_labels(s) == s[0]);
                assert(t =~= seq![t[0]] + v);
            } else {
                assert(s.drop_first() =~= rest.drop_first());
                assert(s[0] == seq![t[0]] + rest[0]);
                assert(join_labels(rest) == rest[0] + seq![LABEL_SEPARATOR] + join_labels(
                    rest.drop_first(),
                ));
                assert(join_labels(s) == s[0] + seq![LABEL_SEPARATOR] + join_labels(
                    s.drop_first(),
                ));
                assert(t =~= seq![t[0]] + v);
                assert(join_labels(s) =~= t);
            }
        }
    }
}

/// Decoding the wire form of a name given as text gives back that text, for
/// any name whose labels are all non-empty and shorter than 192 bytes.
/// (Decoding then repairs the text as UTF-8, which keeps valid text as it
/// is: see `Question::decode_name`.)
pub proof fn law_name_round_trip(t: Seq<u8>)
    requires
        plain_labels(split_dots(t)),
    ensures
        text_wire(t) is Some,
        raw_name_at(text_wire(t)->Some_0, 0, MAX_POINTER_HOPS as nat) == Some(
            (t, text_wire(t)->Some_0.len() as int),
        ),
        name_at(text_wire(t)->Some_0, 0) == Some((utf8_lossy(t), text_wire(t)->Some_0.len() as int)),
{
    let ls = split_dots(t);
    lemma_plain_wire_some(ls);
    let w = text_wire(t)->Some_0;
    assert(w.subrange(0, w.len() as int) =~= w);
    lemma_wire_decodes(w, 0, ls, MAX_POINTER_HOPS as nat);
    lemma_join_split(t);
}

/// Decoding an encoded question gives back its type and class, and the text
/// of the name whose plain labels its wire form holds.
pub proof fn law_question_round_trip(q: QuestionView, ls: Seq<Seq<u8>>)
    requires
        plain_labels(ls),
        labels_wire(ls) == Some(q.name),
    ensures
        question_at(question_wire(q), 0) == Some(
            (
                QuestionView { name: utf8_lossy(join_labels(ls)), qtype: q.qtype, qclass: q.qclass },
                question_wire(q).len() as int,
            ),
        ),
{
    let b = question_wire(q);
    let e = q.name.len() as int;
    assert(b.subrange(0, e) =~= q.name);
    lemma_wire_decodes(b, 0, ls, MAX_POINTER_HOPS as nat);
    assert(b.subrange(e, e + 2) =~= u16_wire(q.qtype));
    lemma_be16_at(b, e, q.qtype);
    assert(b.subrange(e + 2, e + 4) =~= u16_wire(q.qclass));
    lemma_be16_at(b, e + 2, q.qclass);
}

/// Decoding an encoded record gives back its type, class, time to live and
/// payload, and the text of the name whose plain labels its wire form holds.
/// A name server payload that holds plain labels comes back as their text.
#[verifier::rlimit(40)]
pub proof fn law_record_round_trip(r: RecordView, ls: Seq<Seq<u8>>, data_labels: Seq<Seq<u8>>)
    requires
        plain_labels(ls),
        labels_wire(ls) == Some(r.name),
        r.data.len() <= 0xffff,
        r.record_type == DNS_RECORD_TYPE_NS ==> plain_labels(data_labels) && labels_wire(
            data_labels,
        ) == Some(r.data),
    ensures
        record_at(record_wire(r), 0) == Some(
            (
                RecordView {
                    name: utf8_lossy(join_labels(ls)),
                    record_type: r.record_type,
                    class_type: r.class_type,
                    ttl: r.ttl,
                    data: if r.record_type == DNS_RECORD_TYPE_NS {
                        utf8_lossy(join_labels(data_labels))
                    } else {
                        r.data
                    },
                },
                record_wire(r).len() as int,
            ),
        ),
{
    let b = record_wire(r);
    let e = r.name.len() as int;
    assert(b.subrange(0, e) =~= r.name);
    lemma_wire_decodes(b, 0, ls, MAX_POINTER_HOPS as nat);
    assert(b.subrange(e, e + 2) =~= u16_wire(r.record_type));
    lemma_be16_at(b, e, r.record_type);
    assert(b.subrange(e + 2, e + 4) =~= u16_wire(r.class_type));
    lemma_be16_at(b, e + 2, r.class_type);
    assert(b.subrange(e + 4, e + 8) =~= u32_wire(r.ttl));
    lemma_be32_at(b, e + 4, r.ttl);
    assert(b.subrange(e + 8, e + 10) =~= u16_wire(r.data.len() as u16));
    lemma_be16_at(b, e + 8, r.data.len() as u16);
    let start = e + 10;
    let end = start + r.data.len();
    assert(b.subrange(start, end) =~= r.data);
    assert(b.take(end) =~= b);
    assert(name_at(b, 0) == Some((utf8_lossy(join_labels(ls)), e)));
    assert(be16(b, e + 8) as int == r.data.len());
    if r.record_type == DNS_RECORD_TYPE_NS {
        lemma_wire_decodes(b, start, data_labels, MAX_POINTER_HOPS as nat);
        assert(name_at(b.take(end), start) == Some((utf8_lossy(join_labels(data_labels)), end)));
    }
}

/// A name that decodes with some budget of pointers decodes the same with
/// a larger one.
proof fn lemma_more_hops(b: Seq<u8>, pos: int, hops: nat)
    requires
        raw_name_at(b, pos, hops) is Some,
    ensures
        raw_name_at(b, pos, hops + 1) == raw_name_at(b, pos, hops),
    decreases hops, b.len() - pos,
{
    if b[pos] >= 192 {
        lemma_more_hops(b, pointer_target(b, pos), (hops - 1) as nat);
    } else if b[pos] != 0 {
        lemma_more_hops(b, pos + 1 + b[pos], hops);
    }
}

/// A name written as a compression pointer to an earlier name decodes to
/// the same text as that name, and ends two bytes after the pointer; so two
/// questions, the second naming the first by a pointer, hold the same name.
pub proof fn law_pointer_names_match(b: Seq<u8>, first: int, at: int)
    requires
        0 <= first < 16384,
        0 <= at,
        at + 1 < b.len(),
        b[at] == 192 + first / 256,
        b[at + 1] == first % 256,
        raw_name_at(b, first, (MAX_POINTER_HOPS - 1) as nat) is Some,
    ensures
        name_at(b, first) is Some,
        name_at(b, at) is Some,
        name_at(b, at)->Some_0.0 == name_at(b, first)->Some_0.0,
        name_at(b, at)->Some_0.1 == at + 2,
        question_at(b, first) is Some && question_at(b, at) is Some ==> question_at(
            b,
            first,
        )->Some_0.0.name == question_at(b, at)->Some_0.0.name,
{
    assert(pointer_target(b, at) == first);
    lemma_more_hops(b, first, (MAX_POINTER_HOPS - 1) as nat);
}

/// A name that decodes from a prefix of a buffer decodes the same from the
/// whole buffer, and ends within that prefix.
proof fn lemma_name_prefix(b: Seq<u8>, k: int, pos: int, hops: nat)
    requires
        0 <= k <= b.len(),
        raw_name_at(b.take(k), pos, hops) is Some,
    ensures
        raw_name_at(b, pos, hops) == raw_name_at(b.take(k), pos, hops),
        raw_name_at(b.take(k), pos, hops)->Some_0.1 <= k,
    decreases hops, k - pos,
{
    let c = b.take(k);
    assert(c[pos] == b[pos]);
    if c[pos] >= 192 {
        assert(c[pos + 1] == b[pos + 1]);
        assert(pointer_target(c, pos) == pointer_target(b, pos));
        lemma_name_prefix(b, k, pointer_target(b, pos), (hops - 1) as nat);
    } else if c[pos] != 0 {
        let next = pos + 1 + c[pos];
        assert(c.subrange(pos + 1, next) =~= b.subrange(pos + 1, next));
        lemma_name_prefix(b, k, next, hops);
    }
}

/// A name cut off before its end does not decode.
pub proof fn law_truncated_name_fails(b: Seq<u8>, pos: int, k: int)
    requires
        name_at(b, pos) is Some,
        0 <= k < name_at(b, pos)->Some_0.1,
    ensures
        name_at(b.take(k), pos) is None,
{
    lemma_name_end(b, pos, MAX_POINTER_HOPS as nat);
    if name_at(b.take(k), pos) is Some {
        lemma_name_prefix(b, k, pos, MAX_POINTER_HOPS as nat);
    }
}

proof fn lemma_name_end(b: Seq<u8>, pos: int, hops: nat)
    requires
        raw_name_at(b, pos, hops) is Some,
    ensures
        pos < raw_name_at(b, pos, hops)->Some_0.1 <= b.len(),
    decreases hops, b.len() - pos,
{
    if b[pos] >= 192 {
    } else if b[pos] != 0 {
        lemma_name_end(b, pos + 1 + b[pos], hops);
    }
}

/// A header cut off before its twelfth byte does not decode.
pub proof fn law_truncated_header_fails(b: Seq<u8>, k: int)
    requires
        0 <= k < 12,
        k <= b.len(),
    ensures
        header_at(b.take(k)) is None,
{
}

/// A question cut off before its end does not decode.
pub proof fn law_truncated_question_fails(b: Seq<u8>, pos: int, k: int)
    requires
        question_at(b, pos) is Some,
        0 <= k < question_at(b, pos)->Some_0.1,
    ensures
        question_at(b.take(k), pos) is None,
{
    lemma_name_end(b, pos, MAX_POINTER_HOPS as nat);
    let c = b.take(k);
    if question_at(c, pos) is Some {
        lemma_name_prefix(b, k, pos, MAX_POINTER_HOPS as nat);
    }
}

/// A record that decodes from a prefix of a buffer decodes the same from
/// the whole buffer, and ends within that prefix.
proof fn lemma_record_prefix(b: Seq<u8>, k: int, pos: int)
    requires
        0 <= k <= b.len(),
        record_at(b.take(k), pos) is Some,
    ensures
        record_at(b, pos) == record_at(b.take(k), pos),
        record_at(b.take(k), pos)->Some_0.1 <= k,
{
    let c = b.take(k);
    lemma_name_prefix(b, k, pos, MAX_POINTER_HOPS as nat);
    let e = raw_name_at(c, pos, MAX_POINTER_HOPS as nat)->Some_0.1;
    let end = record_at(c, pos)->Some_0.1;
    lemma_name_end(c, pos, MAX_POINTER_HOPS as nat);
    assert(e + 10 <= k);
    assert(c[e + 8] == b[e + 8] && c[e + 9] == b[e + 9]);
    assert(end == e + 10 + be16(c, e + 8));
    assert(end <= k);
    assert(c.take(end) =~= b.take(end));
    assert(c.subrange(e + 10, end) =~= b.subrange(e + 10, end));
}

/// A record cut off before its end does not decode.
pub proof fn law_truncated_record_fails(b: Seq<u8>, pos: int, k: int)
    requires
        record_at(b, pos) is Some,
        0 <= k < record_at(b, pos)->Some_0.1,
    ensures
        record_at(b.take(k), pos) is None,
{
    lemma_name_end(b, pos, MAX_POINTER_HOPS as nat);
    if record_at(b.take(k), pos) is Some {
        lemma_record_prefix(b, k, pos);
    }
}

proof fn lemma_records_prefix(b: Seq<u8>, k: int, pos: int, n: nat)
    requires
        0 <= k <= b.len(),
        0 <= pos <= k,
        records_at(b.take(k), pos, n) is Some,
    ensures
        records_at(b, pos, n) == records_at(b.take(k), pos, n),
        pos <= records_at(b.take(k), pos, n)->Some_0.1 <= k,
    decreases n,
{
    if n > 0 {
        lemma_records_prefix(b, k, pos, (n - 1) as nat);
        let p = records_at(b.take(k), pos, (n - 1) as nat)->Some_0.1;
        lemma_record_prefix(b, k, p);
        lemma_name_end(b.take(k), p, MAX_POINTER_HOPS as nat);
    }
}

/// A run of records cut off before the end of its last record does not
/// decode.
pub proof fn law_truncated_records_fail(b: Seq<u8>, pos: int, n: nat, k: int)
    requires
        0 <= pos <= k,
        records_at(b, pos, n) is Some,
        k < records_at(b, pos, n)->Some_0.1,
    ensures
        records_at(b.take(k), pos, n) is None,
{
    lemma_records_end(b, pos, n);
    if records_at(b.take(k), pos, n) is Some {
        lemma_records_prefix(b, k, pos, n);
    }
}

proof fn lemma_records_end(b: Seq<u8>, pos: int, n: nat)
    requires
        records_at(b, pos, n) is Some,
        0 <= pos,
    ensures
        pos <= records_at(b, pos, n)->Some_0.1,
        n > 0 ==> records_at(b, pos, n)->Some_0.1 <= b.len(),
    decreases n,
{
    if n > 0 {
        lemma_records_end(b, pos, (n - 1) as nat);
        let p = records_at(b, pos, (n - 1) as nat)->Some_0.1;
        lemma_name_end(b, p, MAX_POINTER_HOPS as nat);
    }
}

/// A question that decodes from a prefix of a buffer decodes the same from
/// the whole buffer, and ends within that prefix.
proof fn lemma_question_prefix(b: Seq<u8>, k: int, pos: int)
    requires
        0 <= k <= b.len(),
        question_at(b.take(k), pos) is Some,
    ensures
        question_at(b, pos) == question_at(b.take(k), pos),
        pos < question_at(b.take(k), pos)->Some_0.1 <= k,
{
    let c = b.take(k);
    lemma_name_prefix(b, k, pos, MAX_POINTER_HOPS as nat);
    lemma_name_end(c, pos, MAX_POINTER_HOPS as nat);
    let e = raw_name_at(c, pos, MAX_POINTER_HOPS as nat)->Some_0.1;
    assert(c[e] == b[e] && c[e + 1] == b[e + 1] && c[e + 2] == b[e + 2] && c[e + 3] == b[e + 3]);
}

proof fn lemma_questions_prefix(b: Seq<u8>, k: int, pos: int, n: nat)
    requires
        0 <= k <= b.len(),
        0 <= pos <= k,
        questions_at(b.take(k), pos, n) is Some,
    ensures
        questions_at(b, pos, n) == questions_at(b.take(k), pos, n),
        pos <= questions_at(b.take(k), pos, n)->Some_0.1 <= k,
    decreases n,
{
    if n > 0 {
        lemma_questions_prefix(b, k, pos, (n - 1) as nat);
        let p = questions_at(b.take(k), pos, (n - 1) as nat)->Some_0.1;
        lemma_question_prefix(b, k, p);
    }
}

/// A message cut off before its end does not decode.
pub proof fn law_truncated_message_fails(b: Seq<u8>, k: int)
    requires
        message_at(b) is Some,
        0 <= k < message_at(b)->Some_0.1,
    ensures
        message_at(b.take(k)) is None,
        packet_at(b.take(k)) is None,
{
    let c = b.take(k);
    let h = header_at(b)->Some_0;
    let after_questions = questions_at(b, 12, h.num_questions as nat)->Some_0.1;
    let after_answers = records_at(b, after_questions, h.num_answers as nat)->Some_0.1;
    let after_authorities = records_at(b, after_answers, h.num_authorities as nat)->Some_0.1;
    lemma_questions_end(b, 12, h.num_questions as nat);
    lemma_records_end(b, after_questions, h.num_answers as nat);
    lemma_records_end(b, after_answers, h.num_authorities as nat);
    lemma_records_end(b, after_authorities, h.num_additionals as nat);
    if message_at(c) is Some {
        assert(header_at(c) == header_at(b));
        lemma_questions_prefix(b, k, 12, h.num_questions as nat);
        lemma_records_prefix(b, k, after_questions, h.num_answers as nat);
        lemma_records_prefix(b, k, after_answers, h.num_authorities as nat);
        lemma_records_prefix(b, k, after_authorities, h.num_additionals as nat);
    }
}

proof fn lemma_questions_end(b: Seq<u8>, pos: int, n: nat)
    requires
        questions_at(b, pos, n) is Some,
        0 <= pos,
    ensures
        pos <= questions_at(b, pos, n)->Some_0.1,
        n > 0 ==> questions_at(b, pos, n)->Some_0.1 <= b.len(),
    decreases n,
{
    if n > 0 {
        lemma_questions_end(b, pos, (n - 1) as nat);
        let p = questions_at(b, pos, (n - 1) as nat)->Some_0.1;
        lemma_name_end(b, p, MAX_POINTER_HOPS as nat);
    }
}

/// A reply with empty answer, authority and additional sections offers no
/// answer, no glue and no name server, so `Resolver::advance` ends the
/// resolution as not found.
pub proof fn law_dead_end(p: PacketView)
    requires
        p.answers.len() == 0,
        p.authorities.len() == 0,
        p.additionals.len() == 0,
    ensures
        first_address(p.answers) is None,
        first_address(p.additionals) is None,
        first_nameserver(p.authorities) is None,
{
    assert(forall|i: int| !#[trigger] is_first(p.answers, DNS_RECORD_TYPE_A, false, i));
    assert(forall|i: int| !#[trigger] is_first(p.additionals, DNS_RECORD_TYPE_A, false, i));
    assert(forall|i: int| !#[trigger] is_first(p.authorities, DNS_RECORD_TYPE_NS, true, i));
}

} // verus!
