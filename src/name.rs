use vstd::prelude::*;
use vstd::utf8::valid_utf8;
use crate::constants::{LABEL_SEPARATOR, MAX_POINTER_HOPS};
use crate::error::DnsError;

verus! {

/// Names the text, as UTF-8 bytes, that lossy UTF-8 decoding makes of `b`:
/// each malformed sequence is replaced by U+FFFD.
pub uninterp spec fn utf8_lossy(b: Seq<u8>) -> Seq<u8>;

/// Relies on `String::from_utf8_lossy`: its text depends on the bytes alone,
/// and bytes that are already valid UTF-8 come back unchanged.
#[verifier::external_body]
fn lossy_text(b: &[u8]) -> (r: Vec<u8>)
    ensures
        r@ == utf8_lossy(b@),
        valid_utf8(b@) ==> r@ == b@,
{
    String::from_utf8_lossy(b).into_owned().into_bytes()
}

/// `label` followed by the rest of a name in text form.
pub open spec fn dot_join(label: Seq<u8>, rest: Seq<u8>) -> Seq<u8> {
    if rest.len() == 0 {
        label
    } else {
        label + seq![LABEL_SEPARATOR] + rest
    }
}

/// The pointer target that the two bytes at `pos` and `pos + 1` give.
pub open spec fn pointer_target(b: Seq<u8>, pos: int) -> int {
    (b[pos] as int - 192) * 256 + b[pos + 1] as int
}

/// The text of the name at `pos` (labels joined by dots, bytes as they
/// stand) and the position just past its wire form, following at most
/// `hops` compression pointers; `None` where the wire form runs past the
/// buffer or needs more pointers.
pub open spec fn raw_name_at(b: Seq<u8>, pos: int, hops: nat) -> Option<(Seq<u8>, int)>
    decreases hops, b.len() - pos,
{
    if pos < 0 || pos >= b.len() {
        None
    } else if b[pos] >= 192 {
        if pos + 1 >= b.len() || hops == 0 {
            None
        } else {
            match raw_name_at(b, pointer_target(b, pos), (hops - 1) as nat) {
                Some((t, _)) => Some((t, pos + 2)),
                None => None,
            }
        }
    } else if b[pos] == 0 {
        Some((Seq::empty(), pos + 1))
    } else if pos + 1 + b[pos] > b.len() {
        None
    } else {
        let next = pos + 1 + b[pos];
        match raw_name_at(b, next, hops) {
            Some((t, e)) => Some((dot_join(b.subrange(pos + 1, next), t), e)),
            None => None,
        }
    }
}

/// The decoded name at `pos`: its text after lossy UTF-8 decoding, and the
/// position just past its wire form.
pub open spec fn name_at(b: Seq<u8>, pos: int) -> Option<(Seq<u8>, int)> {
    match raw_name_at(b, pos, MAX_POINTER_HOPS as nat) {
        Some((t, e)) => Some((utf8_lossy(t), e)),
        None => None,
    }
}

/// Appends `src[from..to]` to `out`.
pub(crate) fn push_range(out: &mut Vec<u8>, src: &[u8], from: usize, to: usize)
    requires
        from <= to <= src@.len(),
    ensures
        final(out)@ == old(out)@ + src@.subrange(from as int, to as int),
{
    let mut i: usize = from;
    while i < to
        invariant
            from <= i <= to <= src@.len(),
            out@ == old(out)@ + src@.subrange(from as int, i as int),
        decreases to - i,
    {
        out.push(src[i]);
        i = i + 1;
        assert(out@ =~= old(out)@ + src@.subrange(from as int, i as int));
    }
}

/// Reads the name at `pos` without decoding its text.
fn read_raw_name(bytes: &[u8], pos: usize, hops: usize) -> (r: Result<(Vec<u8>, usize), DnsError>)
    ensures
        match raw_name_at(bytes@, pos as int, hops as nat) {
            Some((t, e)) => r matches Ok((v, c)) && v@ == t && c == e,
            None => r == Err::<(Vec<u8>, usize), DnsError>(DnsError::MalformedMessage),
        },
        r matches Ok((_, c)) ==> c <= bytes@.len(),
    decreases hops, bytes@.len() - pos,
{
    if pos >= bytes.len() {
        return Err(DnsError::MalformedMessage);
    }
    let length = bytes[pos];
    if length >= 192 {
        // A compression pointer: six bits of this byte and the next byte give
        // the offset of the rest of the name, which ends this name.
        if pos + 1 >= bytes.len() || hops == 0 {
            return Err(DnsError::MalformedMessage);
        }
        let target: usize = ((length - 192) as usize) * 256 + bytes[pos + 1] as usize;
        match read_raw_name(bytes, target, hops - 1) {
            Ok((text, _)) => Ok((text, pos + 2)),
            Err(e) => Err(e),
        }
    } else if length == 0 {
        Ok((Vec::new(), pos + 1))
    } else if length as usize > bytes.len() - pos - 1 {
        Err(DnsError::MalformedMessage)
    } else {
        let next: usize = pos + 1 + length as usize;
        match read_raw_name(bytes, next, hops) {
            Ok((rest, end)) => {
                let mut text: Vec<u8> = Vec::new();
                push_range(&mut text, bytes, pos + 1, next);
                if rest.len() > 0 {
                    text.push(LABEL_SEPARATOR);
                    push_range(&mut text, rest.as_slice(), 0, rest.len());
                }
                assert(rest@.subrange(0, rest@.len() as int) =~= rest@);
                assert(text@ =~= dot_join(bytes@.subrange(pos + 1, next as int), rest@));
                Ok((text, end))
            },
            Err(e) => Err(e),
        }
    }
}

/// Decodes the name at `cursor`: its text, and the position just past it.
pub(crate) fn read_name(bytes: &[u8], cursor: usize) -> (r: Result<(Vec<u8>, usize), DnsError>)
    ensures
        match name_at(bytes@, cursor as int) {
            Some((t, e)) => r matches Ok((v, c)) && v@ == t && c == e,
            None => r == Err::<(Vec<u8>, usize), DnsError>(DnsError::MalformedMessage),
        },
        r matches Ok((_, c)) ==> c <= bytes@.len(),
        match raw_name_at(bytes@, cursor as int, MAX_POINTER_HOPS as nat) {
            Some((t, _)) => valid_utf8(t) ==> (r matches Ok((v, _)) && v@ == t),
            None => true,
        },
{
    match read_raw_name(bytes, cursor, MAX_POINTER_HOPS) {
        Ok((raw, end)) => Ok((lossy_text(raw.as_slice()), end)),
        Err(e) => Err(e),
    }
}

/// The labels of a name in text form: the pieces between its dots.
pub open spec fn split_dots(t: Seq<u8>) -> Seq<Seq<u8>>
    decreases t.len(),
{
    if t.len() == 0 {
        seq![Seq::empty()]
    } else {
        let rest = split_dots(t.drop_first());
        if t[0] == LABEL_SEPARATOR {
            seq![Seq::empty()] + rest
        } else {
            rest.update(0, seq![t[0]] + rest[0])
        }
    }
}

/// The labels joined by dots.
pub open spec fn join_labels(ls: Seq<Seq<u8>>) -> Seq<u8>
    decreases ls.len(),
{
    if ls.len() == 0 {
        Seq::empty()
    } else if ls.len() == 1 {
        ls[0]
    } else {
        ls[0] + seq![LABEL_SEPARATOR] + join_labels(ls.drop_first())
    }
}

/// The wire form of a label sequence: each label after its length byte,
/// then a zero byte; `None` where a label is longer than a length byte holds.
pub open spec fn labels_wire(ls: Seq<Seq<u8>>) -> Option<Seq<u8>>
    decreases ls.len(),
{
    if ls.len() == 0 {
        Some(seq![0u8])
    } else if ls[0].len() > 255 {
        None
    } else {
        match labels_wire(ls.drop_first()) {
            Some(w) => Some(seq![ls[0].len() as u8] + ls[0] + w),
            None => None,
        }
    }
}

/// The wire form of a name given as dot-separated text.
pub open spec fn text_wire(t: Seq<u8>) -> Option<Seq<u8>> {
    labels_wire(split_dots(t))
}

pub open spec fn prepend(p: Seq<u8>, o: Option<Seq<u8>>) -> Option<Seq<u8>> {
    match o {
        Some(w) => Some(p + w),
        None => None,
    }
}

proof fn lemma_split_nonempty(t: Seq<u8>)
    ensures
        split_dots(t).len() >= 1,
    decreases t.len(),
{
    if t.len() > 0 {
        lemma_split_nonempty(t.drop_first());
    }
}

/// Where `u` has no dot before `k`, and a dot or its end at `k`, its first
/// label is `u[..k]` and the others are those after that dot.
proof fn lemma_split_first(u: Seq<u8>, k: int)
    requires
        0 <= k <= u.len(),
        forall|i: int| 0 <= i < k ==> u[i] != LABEL_SEPARATOR,
        k == u.len() || u[k] == LABEL_SEPARATOR,
    ensures
        k == u.len() ==> split_dots(u) == seq![u],
        k < u.len() ==> split_dots(u) == seq![u.take(k)] + split_dots(u.skip(k + 1)),
    decreases k,
{
    if k == 0 {
        if u.len() == 0 {
            assert(u =~= Seq::<u8>::empty());
        } else {
            assert(u.take(0) =~= Seq::<u8>::empty());
            assert(u.skip(1) =~= u.drop_first());
        }
    } else {
        let v = u.drop_first();
        lemma_split_first(v, k - 1);
        lemma_split_nonempty(v);
        let rest = split_dots(v);
        if k == u.len() {
            assert(seq![u[0]] + v =~= u);
            assert(rest.update(0, seq![u[0]] + rest[0]) =~= seq![u]);
        } else {
            assert(seq![u[0]] + v.take(k - 1) =~= u.take(k));
            assert(v.skip(k) =~= u.skip(k + 1));
            assert(rest.update(0, seq![u[0]] + rest[0]) =~= seq![u.take(k)] + split_dots(
                u.skip(k + 1),
            ));
        }
    }
}

/// Encodes dot-separated text as a wire name; fails where a label is longer
/// than 255 bytes.
pub fn encode_text(t: &[u8]) -> (r: Result<Vec<u8>, DnsError>)
    ensures
        match text_wire(t@) {
            Some(w) => r matches Ok(v) && v@ == w,
            None => r == Err::<Vec<u8>, DnsError>(DnsError::LabelTooLong),
        },
{
    let mut out: Vec<u8> = Vec::new();
    let mut s: usize = 0;
    assert(t@.skip(0) =~= t@);
    loop
        invariant
            s <= t@.len(),
            text_wire(t@) == prepend(out@, labels_wire(split_dots(t@.skip(s as int)))),
        decreases t@.len() - s,
    {
        let mut j: usize = s;
        while j < t.len() && t[j] != LABEL_SEPARATOR
            invariant
                s <= j <= t@.len(),
                forall|i: int| s <= i < j ==> t@[i] != LABEL_SEPARATOR,
            decreases t@.len() - j,
        {
            j = j + 1;
        }
        let ghost u = t@.skip(s as int);
        proof {
            lemma_split_first(u, j - s);
        }
        if j - s > 255 {
            return Err(DnsError::LabelTooLong);
        }
        let ghost before = out@;
        out.push((j - s) as u8);
        push_range(&mut out, t, s, j);
        assert(u.take(j - s) =~= t@.subrange(s as int, j as int));
        if j == t.len() {
            out.push(0);
            assert(u =~= t@.subrange(s as int, j as int));
            assert(out@ =~= before + (seq![(j - s) as u8] + u + seq![0u8]));
            return Ok(out);
        }
        assert(u.skip(j - s + 1) =~= t@.skip(j + 1));
        assert(out@ =~= before + seq![(j - s) as u8] + u.take(j - s));
        assert((seq![u.take(j - s)] + split_dots(t@.skip(j + 1))).drop_first() =~= split_dots(
            t@.skip(j + 1),
        ));
        s = j + 1;
    }
}

} // verus!
