//! The wire format, stated over byte sequences.
//!
//! `encode_*` say which bytes stand for a value; `parse_*` say which value,
//! or which error, a buffer yields from a given offset.

use vstd::prelude::*;
use crate::error::DecodeError;
use crate::message::{MessageView, QuestionView, RecordView};
use crate::name::{label_wf, name_wf, MAX_LABELS, MAX_LABEL_LEN};

verus! {

/// Size of the fixed header.
pub const HEADER_LEN: usize = 12;

/// Most compression pointers one name may follow.
pub const MAX_POINTER_HOPS: usize = 16;

/// The two bytes of `v`, high byte first.
pub open spec fn u16_bytes(v: u16) -> Seq<u8> {
    seq![(v / 256) as u8, (v % 256) as u8]
}

/// The four bytes of `v`, high byte first.
pub open spec fn u32_bytes(v: u32) -> Seq<u8> {
    seq![
        (v / 16777216) as u8,
        ((v / 65536) % 256) as u8,
        ((v / 256) % 256) as u8,
        (v % 256) as u8,
    ]
}

/// The number whose high byte is `hi` and whose low byte is `lo`.
pub open spec fn be16(hi: u8, lo: u8) -> u16 {
    (hi * 256 + lo) as u16
}

/// The number whose bytes are `a`, `b`, `c`, `d`, high byte first.
pub open spec fn be32(a: u8, b: u8, c: u8, d: u8) -> u32 {
    (a * 16777216 + b * 65536 + c * 256 + d) as u32
}

/// The sixteen-bit number at `pos`.
pub open spec fn u16_at(buf: Seq<u8>, pos: int) -> u16 {
    be16(buf[pos], buf[pos + 1])
}

/// The thirty-two-bit number at `pos`.
pub open spec fn u32_at(buf: Seq<u8>, pos: int) -> u32 {
    be32(buf[pos], buf[pos + 1], buf[pos + 2], buf[pos + 3])
}

// ------------------------------------------------------------ well-formedness

/// A record that decoding can give back: a well-formed name and data whose
/// length fits sixteen bits.
pub open spec fn record_wf(r: RecordView) -> bool {
    name_wf(r.name) && r.rdata.len() <= u16::MAX
}

pub open spec fn records_wf(rs: Seq<RecordView>) -> bool {
    &&& rs.len() <= u16::MAX
    &&& forall|i: int| 0 <= i < rs.len() ==> record_wf(#[trigger] rs[i])
}

pub open spec fn questions_wf(qs: Seq<QuestionView>) -> bool {
    &&& qs.len() <= u16::MAX
    &&& forall|i: int| 0 <= i < qs.len() ==> name_wf((#[trigger] qs[i]).name)
}

/// A well-formed message: every name is well formed, every record's data
/// and every section fit their sixteen-bit counts.
pub open spec fn message_wf(m: MessageView) -> bool {
    &&& questions_wf(m.questions)
    &&& records_wf(m.answers)
    &&& records_wf(m.authorities)
    &&& records_wf(m.additionals)
}

// ---------------------------------------------------------------- encoding

/// A label can be written when its length fits the six bits of a length byte
/// and is not the zero that ends a name.
pub open spec fn label_encodable(l: Seq<u8>) -> bool {
    1 <= l.len() <= MAX_LABEL_LEN
}

pub open spec fn name_encodable(n: Seq<Seq<u8>>) -> bool {
    forall|i: int| 0 <= i < n.len() ==> label_encodable(#[trigger] n[i])
}

pub open spec fn question_encodable(q: QuestionView) -> bool {
    name_encodable(q.name)
}

pub open spec fn record_encodable(r: RecordView) -> bool {
    name_encodable(r.name) && r.rdata.len() <= u16::MAX
}

pub open spec fn records_encodable(rs: Seq<RecordView>) -> bool {
    &&& rs.len() <= u16::MAX
    &&& forall|i: int| 0 <= i < rs.len() ==> record_encodable(#[trigger] rs[i])
}

/// A message has a wire form when every length in it fits its field.
pub open spec fn message_encodable(m: MessageView) -> bool {
    &&& m.questions.len() <= u16::MAX
    &&& forall|i: int| 0 <= i < m.questions.len() ==> question_encodable(#[trigger] m.questions[i])
    &&& records_encodable(m.answers)
    &&& records_encodable(m.authorities)
    &&& records_encodable(m.additionals)
}

/// A length byte, then the label.
pub open spec fn encode_label(l: Seq<u8>) -> Seq<u8> {
    seq![l.len() as u8] + l
}

/// The labels one after another, without the byte that ends the name.
pub open spec fn encode_labels(n: Seq<Seq<u8>>) -> Seq<u8>
    decreases n.len(),
{
    if n.len() == 0 {
        Seq::empty()
    } else {
        encode_label(n[0]) + encode_labels(n.drop_first())
    }
}

/// An uncompressed name: its labels, then a zero byte.
pub open spec fn encode_name(n: Seq<Seq<u8>>) -> Seq<u8> {
    encode_labels(n) + seq![0u8]
}

pub open spec fn encode_question(q: QuestionView) -> Seq<u8> {
    encode_name(q.name) + u16_bytes(q.qtype) + u16_bytes(q.qclass)
}

pub open spec fn encode_record(r: RecordView) -> Seq<u8> {
    encode_name(r.name) + u16_bytes(r.rtype) + u16_bytes(r.class) + u32_bytes(r.ttl) + u16_bytes(
        r.rdata.len() as u16,
    ) + r.rdata
}

pub open spec fn encode_questions(qs: Seq<QuestionView>) -> Seq<u8>
    decreases qs.len(),
{
    if qs.len() == 0 {
        Seq::empty()
    } else {
        encode_question(qs[0]) + encode_questions(qs.drop_first())
    }
}

pub open spec fn encode_records(rs: Seq<RecordView>) -> Seq<u8>
    decreases rs.len(),
{
    if rs.len() == 0 {
        Seq::empty()
    } else {
        encode_record(rs[0]) + encode_records(rs.drop_first())
    }
}

/// The twelve header bytes; the counts are the lengths of the sections.
pub open spec fn encode_header(m: MessageView) -> Seq<u8> {
    u16_bytes(m.id) + u16_bytes(m.flags) + u16_bytes(m.questions.len() as u16) + u16_bytes(
        m.answers.len() as u16,
    ) + u16_bytes(m.authorities.len() as u16) + u16_bytes(m.additionals.len() as u16)
}

/// The wire form of a message: header, questions, answers, authorities, additionals.
pub open spec fn encode_message(m: MessageView) -> Seq<u8> {
    encode_header(m) + encode_questions(m.questions) + encode_records(m.answers) + encode_records(
        m.authorities,
    ) + encode_records(m.additionals)
}

// ---------------------------------------------------------------- decoding

/// The offset that a compression pointer with first byte `b0` and second byte `b1` names.
pub open spec fn pointer_target(b0: u8, b1: u8) -> int {
    (b0 - 192) * 256 + b1
}

/// Reads a name from `pos` on.
///
/// `limit` is the offset that a pointer met from here on must stay below,
/// `hops` the pointers followed so far, `acc` the labels read so far and
/// `end` the offset after the first pointer once one was followed.
/// The result is the labels and the offset at which the enclosing entry goes on.
pub open spec fn parse_name_from(
    buf: Seq<u8>,
    pos: int,
    limit: int,
    hops: nat,
    acc: Seq<Seq<u8>>,
    end: int,
) -> Result<(Seq<Seq<u8>>, int), DecodeError>
    decreases limit, buf.len() - pos,
{
    if pos < 0 || pos >= buf.len() {
        Err(DecodeError::Truncated)
    } else if buf[pos] == 0 {
        Ok((acc, if hops == 0 { pos + 1 } else { end }))
    } else if buf[pos] >= 192 {
        if pos + 1 >= buf.len() {
            Err(DecodeError::Truncated)
        } else if pointer_target(buf[pos], buf[pos + 1]) >= limit || hops >= MAX_POINTER_HOPS {
            Err(DecodeError::InvalidData)
        } else {
            let target = pointer_target(buf[pos], buf[pos + 1]);
            parse_name_from(
                buf,
                target,
                target,
                hops + 1,
                acc,
                if hops == 0 {
                    pos + 2
                } else {
                    end
                },
            )
        }
    } else if buf[pos] >= 64 {
        Err(DecodeError::InvalidData)
    } else {
        let n = buf[pos] as int;
        if pos + 1 + n > buf.len() {
            Err(DecodeError::Truncated)
        } else if !label_wf(buf.subrange(pos + 1, pos + 1 + n)) || acc.len() >= MAX_LABELS {
            Err(DecodeError::InvalidData)
        } else {
            parse_name_from(
                buf,
                pos + 1 + n,
                limit,
                hops,
                acc.push(buf.subrange(pos + 1, pos + 1 + n)),
                end,
            )
        }
    }
}

/// The name that starts at `start`, with the offset after it. A pointer in it
/// must name an offset before `start`, and each further one an earlier offset still.
pub open spec fn parse_name(buf: Seq<u8>, start: int) -> Result<(Seq<Seq<u8>>, int), DecodeError> {
    parse_name_from(buf, start, start, 0, Seq::empty(), 0)
}

/// The question that starts at `pos`, with the offset after it.
pub open spec fn parse_question(buf: Seq<u8>, pos: int) -> Result<
    (QuestionView, int),
    DecodeError,
> {
    match parse_name(buf, pos) {
        Err(e) => Err(e),
        Ok((name, end)) => if end + 4 > buf.len() {
            Err(DecodeError::Truncated)
        } else {
            Ok(
                (
                    QuestionView { name, qtype: u16_at(buf, end), qclass: u16_at(buf, end + 2) },
                    end + 4,
                ),
            )
        },
    }
}

/// Reads `count` more questions from `pos` on, after those in `acc`.
pub open spec fn parse_questions_from(
    buf: Seq<u8>,
    pos: int,
    count: nat,
    acc: Seq<QuestionView>,
) -> Result<(Seq<QuestionView>, int), DecodeError>
    decreases count,
{
    if count == 0 {
        Ok((acc, pos))
    } else {
        match parse_question(buf, pos) {
            Err(e) => Err(e),
            Ok((q, next)) => parse_questions_from(buf, next, (count - 1) as nat, acc.push(q)),
        }
    }
}

/// The record that starts at `pos`, with the offset after it.
pub open spec fn parse_record(buf: Seq<u8>, pos: int) -> Result<(RecordView, int), DecodeError> {
    match parse_name(buf, pos) {
        Err(e) => Err(e),
        Ok((name, end)) => if end + 10 > buf.len() {
            Err(DecodeError::Truncated)
        } else if end + 10 + u16_at(buf, end + 8) > buf.len() {
            Err(DecodeError::Truncated)
        } else {
            Ok(
                (
                    RecordView {
                        name,
                        rtype: u16_at(buf, end),
                        class: u16_at(buf, end + 2),
                        ttl: u32_at(buf, end + 4),
                        rdata: buf.subrange(end + 10, end + 10 + u16_at(buf, end + 8)),
                    },
                    end + 10 + u16_at(buf, end + 8),
                ),
            )
        },
    }
}

/// Reads `count` more records from `pos` on, after those in `acc`.
pub open spec fn parse_records_from(
    buf: Seq<u8>,
    pos: int,
    count: nat,
    acc: Seq<RecordView>,
) -> Result<(Seq<RecordView>, int), DecodeError>
    decreases count,
{
    if count == 0 {
        Ok((acc, pos))
    } else {
        match parse_record(buf, pos) {
            Err(e) => Err(e),
            Ok((r, next)) => parse_records_from(buf, next, (count - 1) as nat, acc.push(r)),
        }
    }
}

/// The message that a buffer holds.
///
/// Fewer than twelve bytes are `Truncated`. Each section must hold as many
/// entries as the header counts, and the last entry must end the buffer:
/// bytes beyond it are `InvalidData`.
pub open spec fn decode_message(buf: Seq<u8>) -> Result<MessageView, DecodeError> {
    if buf.len() < HEADER_LEN {
        Err(DecodeError::Truncated)
    } else {
        match parse_questions_from(buf, HEADER_LEN as int, u16_at(buf, 4) as nat, Seq::empty()) {
            Err(e) => Err(e),
            Ok((questions, q_end)) => match parse_records_from(
                buf,
                q_end,
                u16_at(buf, 6) as nat,
                Seq::empty(),
            ) {
                Err(e) => Err(e),
                Ok((answers, an_end)) => match parse_records_from(
                    buf,
                    an_end,
                    u16_at(buf, 8) as nat,
                    Seq::empty(),
                ) {
                    Err(e) => Err(e),
                    Ok((authorities, ns_end)) => match parse_records_from(
                        buf,
                        ns_end,
                        u16_at(buf, 10) as nat,
                        Seq::empty(),
                    ) {
                        Err(e) => Err(e),
                        Ok((additionals, ar_end)) => if ar_end != buf.len() {
                            Err(DecodeError::InvalidData)
                        } else {
                            Ok(
                                MessageView {
                                    id: u16_at(buf, 0),
                                    flags: u16_at(buf, 2),
                                    questions,
                                    answers,
                                    authorities,
                                    additionals,
                                },
                            )
                        },
                    },
                },
            },
        }
    }
}

} // verus!
