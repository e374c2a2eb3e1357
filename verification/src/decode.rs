//! Decoding: from a received buffer to a structured message.

use vstd::prelude::*;
use crate::error::DecodeError;
use crate::message::{questions_view, records_view, Message, Question, Record};
use crate::name::{label_wf, utf8_ok, Name, MAX_LABELS};
use crate::wire::{
    decode_message, parse_name, parse_name_from, parse_question, parse_questions_from,
    parse_record, parse_records_from, pointer_target, u16_at, u32_at, HEADER_LEN,
    MAX_POINTER_HOPS,
};

verus! {

/// The fixed header of a message as it stands in a buffer.
#[derive(Clone, Copy, Debug, PartialEq, Eq)]
pub struct Header {
    pub id: u16,
    pub flags: u16,
    pub qdcount: u16,
    pub ancount: u16,
    pub nscount: u16,
    pub arcount: u16,
}

/// Reads the big-endian sixteen-bit number at `pos`.
pub(crate) fn read_u16(buf: &[u8], pos: usize) -> (v: u16)
    requires
        pos + 2 <= buf@.len(),
    ensures
        v == u16_at(buf@, pos as int),
{
    let hi: u16 = buf[pos] as u16;
    let lo: u16 = buf[pos + 1] as u16;
    hi * 256 + lo
}

/// Reads the big-endian thirty-two-bit number at `pos`.
pub(crate) fn read_u32(buf: &[u8], pos: usize) -> (v: u32)
    requires
        pos + 4 <= buf@.len(),
    ensures
        v == u32_at(buf@, pos as int),
{
    let a: u32 = buf[pos] as u32;
    let b: u32 = buf[pos + 1] as u32;
    let c: u32 = buf[pos + 2] as u32;
    let d: u32 = buf[pos + 3] as u32;
    a * 16777216 + b * 65536 + c * 256 + d
}

/// Copies `buf[from..from + n]`.
pub(crate) fn copy_range(buf: &[u8], from: usize, n: usize) -> (out: Vec<u8>)
    requires
        from + n <= buf@.len(),
    ensures
        out@ == buf@.subrange(from as int, from + n),
{
    let len: usize = buf.len();
    let mut out: Vec<u8> = Vec::new();
    let mut k: usize = 0;
    while k < n
        invariant
            k <= n,
            from + n <= len,
            len == buf@.len(),
            out@ == buf@.subrange(from as int, from + k),
        decreases n - k,
    {
        out.push(buf[from + k]);
        assert(out@ =~= buf@.subrange(from as int, from + k + 1));
        k += 1;
    }
    out
}

/// Reads the name that starts at `offset`, following compression pointers.
///
/// Returns the name and the offset at which the enclosing entry goes on. A
/// pointer must name an offset before the one the name, or the part of it
/// that the previous pointer named, started at; at most
/// [`MAX_POINTER_HOPS`] pointers are followed and at most [`MAX_LABELS`]
/// labels read.
pub fn parse_qname(pkt: &[u8], offset: usize) -> (r: Result<(Name, usize), DecodeError>)
    ensures
        match parse_name(pkt@, offset as int) {
            Ok((n, e)) => r matches Ok((name, next)) && name@ == n && next == e,
            Err(e) => r matches Err(x) && x == e,
        },
        r matches Ok((_, next)) ==> next <= pkt@.len(),
{
    let len: usize = pkt.len();
    let mut labels: Vec<Vec<u8>> = Vec::new();
    let mut pos: usize = offset;
    let mut limit: usize = offset;
    let mut hops: usize = 0;
    let mut end: usize = 0;
    assert((Name { labels })@ =~= Seq::<Seq<u8>>::empty());
    loop
        invariant
            len == pkt@.len(),
            parse_name(pkt@, offset as int) == parse_name_from(
                pkt@,
                pos as int,
                limit as int,
                hops as nat,
                (Name { labels })@,
                end as int,
            ),
            hops > 0 ==> end <= len,
            hops <= MAX_POINTER_HOPS,
            labels@.len() <= MAX_LABELS,
        decreases limit, len - pos,
    {
        if pos >= len {
            return Err(DecodeError::Truncated);
        }
        let b: u8 = pkt[pos];
        if b == 0 {
            let next: usize = if hops == 0 { pos + 1 } else { end };
            return Ok((Name { labels }, next));
        }
        if b >= 192 {
            if pos + 1 >= len {
                return Err(DecodeError::Truncated);
            }
            let target: usize = (b - 192) as usize * 256 + pkt[pos + 1] as usize;
            assert(target == pointer_target(pkt@[pos as int], pkt@[pos + 1]));
            if target >= limit || hops >= MAX_POINTER_HOPS {
                return Err(DecodeError::InvalidData);
            }
            if hops == 0 {
                end = pos + 2;
            }
            pos = target;
            limit = target;
            hops = hops + 1;
        } else if b >= 64 {
            return Err(DecodeError::InvalidData);
        } else {
            let n: usize = b as usize;
            if len - pos - 1 < n {
                return Err(DecodeError::Truncated);
            }
            let label: Vec<u8> = copy_range(pkt, pos + 1, n);
            if !utf8_ok(label.as_slice()) || labels.len() >= MAX_LABELS {
                return Err(DecodeError::InvalidData);
            }
            assert(label_wf(label@));
            let ghost before = (Name { labels })@;
            labels.push(label);
            assert((Name { labels })@ =~= before.push(label@));
            pos = pos + 1 + n;
        }
    }
}

/// Reads the question that starts at `offset`: a name, then type and class.
pub fn parse_dns_query(pkt: &[u8], offset: usize) -> (r: Result<(Question, usize), DecodeError>)
    ensures
        match parse_question(pkt@, offset as int) {
            Ok((q, e)) => r matches Ok((question, next)) && question@ == q && next == e,
            Err(e) => r matches Err(x) && x == e,
        },
        r matches Ok((_, next)) ==> next <= pkt@.len(),
{
    let (name, end) = match parse_qname(pkt, offset) {
        Ok(v) => v,
        Err(e) => {
            return Err(e);
        },
    };
    if pkt.len() - end < 4 {
        return Err(DecodeError::Truncated);
    }
    let qtype: u16 = read_u16(pkt, end);
    let qclass: u16 = read_u16(pkt, end + 2);
    Ok((Question { name, qtype, qclass }, end + 4))
}

/// Reads `num` questions one after another, the first at `offset`.
pub fn parse_dns_queries(pkt: &[u8], offset: usize, num: usize) -> (r: Result<
    (Vec<Question>, usize),
    DecodeError,
>)
    ensures
        match parse_questions_from(pkt@, offset as int, num as nat, Seq::empty()) {
            Ok((qs, e)) => r matches Ok((questions, next)) && questions_view(questions@) == qs
                && next == e,
            Err(e) => r matches Err(x) && x == e,
        },
        r matches Ok((_, next)) ==> offset <= pkt@.len() ==> next <= pkt@.len(),
{
    let mut questions: Vec<Question> = Vec::new();
    let mut pos: usize = offset;
    let mut i: usize = 0;
    assert(questions_view(questions@) =~= Seq::empty());
    while i < num
        invariant
            i <= num,
            offset <= pkt@.len() ==> pos <= pkt@.len(),
            parse_questions_from(pkt@, offset as int, num as nat, Seq::empty())
                == parse_questions_from(
                pkt@,
                pos as int,
                (num - i) as nat,
                questions_view(questions@),
            ),
        decreases num - i,
    {
        let (q, next) = match parse_dns_query(pkt, pos) {
            Ok(v) => v,
            Err(e) => {
                return Err(e);
            },
        };
        let ghost before = questions_view(questions@);
        questions.push(q);
        assert(questions_view(questions@) =~= before.push(q@));
        pos = next;
        i += 1;
    }
    Ok((questions, pos))
}

/// Reads the record that starts at `offset`: a name, type, class, lifetime
/// and length-prefixed data, which is kept as raw bytes whatever the type.
pub fn parse_dns_record(pkt: &[u8], offset: usize) -> (r: Result<(Record, usize), DecodeError>)
    ensures
        match parse_record(pkt@, offset as int) {
            Ok((rec, e)) => r matches Ok((record, next)) && record@ == rec && next == e,
            Err(e) => r matches Err(x) && x == e,
        },
        r matches Ok((_, next)) ==> next <= pkt@.len(),
{
    let (name, end) = match parse_qname(pkt, offset) {
        Ok(v) => v,
        Err(e) => {
            return Err(e);
        },
    };
    if pkt.len() - end < 10 {
        return Err(DecodeError::Truncated);
    }
    let rtype: u16 = read_u16(pkt, end);
    let class: u16 = read_u16(pkt, end + 2);
    let ttl: u32 = read_u32(pkt, end + 4);
    let rdlen: usize = read_u16(pkt, end + 8) as usize;
    if pkt.len() - end - 10 < rdlen {
        return Err(DecodeError::Truncated);
    }
    let rdata: Vec<u8> = copy_range(pkt, end + 10, rdlen);
    Ok((Record { name, rtype, class, ttl, rdata }, end + 10 + rdlen))
}

/// Reads `num` records one after another, the first at `offset`.
pub fn parse_dns_records(pkt: &[u8], offset: usize, num: usize) -> (r: Result<
    (Vec<Record>, usize),
    DecodeError,
>)
    ensures
        match parse_records_from(pkt@, offset as int, num as nat, Seq::empty()) {
            Ok((rs, e)) => r matches Ok((records, next)) && records_view(records@) == rs && next
                == e,
            Err(e) => r matches Err(x) && x == e,
        },
        r matches Ok((_, next)) ==> offset <= pkt@.len() ==> next <= pkt@.len(),
{
    let mut records: Vec<Record> = Vec::new();
    let mut pos: usize = offset;
    let mut i: usize = 0;
    assert(records_view(records@) =~= Seq::empty());
    while i < num
        invariant
            i <= num,
            offset <= pkt@.len() ==> pos <= pkt@.len(),
            parse_records_from(pkt@, offset as int, num as nat, Seq::empty())
                == parse_records_from(
                pkt@,
                pos as int,
                (num - i) as nat,
                records_view(records@),
            ),
        decreases num - i,
    {
        let (rec, next) = match parse_dns_record(pkt, pos) {
            Ok(v) => v,
            Err(e) => {
                return Err(e);
            },
        };
        let ghost before = records_view(records@);
        records.push(rec);
        assert(records_view(records@) =~= before.push(rec@));
        pos = next;
        i += 1;
    }
    Ok((records, pos))
}

/// Reads the twelve header bytes; a shorter buffer is `Truncated`.
pub fn parse_header(pkt: &[u8]) -> (r: Result<Header, DecodeError>)
    ensures
        pkt@.len() < HEADER_LEN ==> r == Err::<Header, DecodeError>(DecodeError::Truncated),
        pkt@.len() >= HEADER_LEN ==> r == Ok::<Header, DecodeError>(
            Header {
                id: u16_at(pkt@, 0),
                flags: u16_at(pkt@, 2),
                qdcount: u16_at(pkt@, 4),
                ancount: u16_at(pkt@, 6),
                nscount: u16_at(pkt@, 8),
                arcount: u16_at(pkt@, 10),
            },
        ),
{
    if pkt.len() < HEADER_LEN {
        return Err(DecodeError::Truncated);
    }
    Ok(
        Header {
            id: read_u16(pkt, 0),
            flags: read_u16(pkt, 2),
            qdcount: read_u16(pkt, 4),
            ancount: read_u16(pkt, 6),
            nscount: read_u16(pkt, 8),
            arcount: read_u16(pkt, 10),
        },
    )
}

/// Decodes a whole message.
///
/// The result is exactly what [`decode_message`] says of the buffer: the
/// message it holds, `Truncated` where the buffer ends before a declared
/// field (any buffer of fewer than twelve bytes), `InvalidData` where a
/// name is malformed or bytes follow the last counted entry.
pub fn decode(pkt: &[u8]) -> (r: Result<Message, DecodeError>)
    ensures
        match decode_message(pkt@) {
            Ok(m) => r matches Ok(msg) && msg@ == m,
            Err(e) => r matches Err(x) && x == e,
        },
        pkt@.len() < HEADER_LEN ==> (r matches Err(x) && x == DecodeError::Truncated),
{
    let header = match parse_header(pkt) {
        Ok(h) => h,
        Err(e) => {
            return Err(e);
        },
    };
    let (questions, q_end) = match parse_dns_queries(pkt, HEADER_LEN, header.qdcount as usize) {
        Ok(v) => v,
        Err(e) => {
            return Err(e);
        },
    };
    let (answers, an_end) = match parse_dns_records(pkt, q_end, header.ancount as usize) {
        Ok(v) => v,
        Err(e) => {
            return Err(e);
        },
    };
    let (authorities, ns_end) = match parse_dns_records(pkt, an_end, header.nscount as usize) {
        Ok(v) => v,
        Err(e) => {
            return Err(e);
        },
    };
    let (additionals, ar_end) = match parse_dns_records(pkt, ns_end, header.arcount as usize) {
        Ok(v) => v,
        Err(e) => {
            return Err(e);
        },
    };
    if ar_end != pkt.len() {
        return Err(DecodeError::InvalidData);
    }
    Ok(Message { id: header.id, flags: header.flags, questions, answers, authorities, additionals })
}

} // verus!
