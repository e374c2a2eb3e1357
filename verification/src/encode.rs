//! Encoding: from a structured message to the bytes that are sent.

use vstd::prelude::*;
use crate::error::EncodeError;
use crate::message::{
    questions_view, records_view, Message, Question, QuestionView, Record, RecordView,
};
use crate::name::{Name, MAX_LABEL_LEN};
use crate::wire::{
    encode_header, encode_label, encode_labels, encode_message, encode_name, encode_question,
    encode_questions, encode_record, encode_records, label_encodable, message_encodable,
    name_encodable, question_encodable, record_encodable, records_encodable, u16_bytes,
    u32_bytes,
};

verus! {

/// Writing one more label after `n` appends that label's bytes.
pub proof fn lemma_encode_labels_push(n: Seq<Seq<u8>>, l: Seq<u8>)
    ensures
        encode_labels(n.push(l)) == encode_labels(n) + encode_label(l),
    decreases n.len(),
{
    if n.len() == 0 {
        assert(n.push(l).drop_first() =~= Seq::<Seq<u8>>::empty());
        assert(encode_labels(n.push(l)) =~= encode_label(l) + encode_labels(Seq::empty()));
        assert(encode_labels(n.push(l)) =~= encode_labels(n) + encode_label(l));
    } else {
        assert(n.push(l).drop_first() =~= n.drop_first().push(l));
        lemma_encode_labels_push(n.drop_first(), l);
        assert(encode_labels(n.push(l)) =~= encode_labels(n) + encode_label(l));
    }
}

/// Writing one more question after `qs` appends that question's bytes.
pub proof fn lemma_encode_questions_push(qs: Seq<QuestionView>, q: QuestionView)
    ensures
        encode_questions(qs.push(q)) == encode_questions(qs) + encode_question(q),
    decreases qs.len(),
{
    if qs.len() == 0 {
        assert(qs.push(q).drop_first() =~= Seq::<QuestionView>::empty());
        assert(encode_questions(qs.push(q)) =~= encode_question(q) + encode_questions(
            Seq::empty(),
        ));
        assert(encode_questions(qs.push(q)) =~= encode_questions(qs) + encode_question(q));
    } else {
        assert(qs.push(q).drop_first() =~= qs.drop_first().push(q));
        lemma_encode_questions_push(qs.drop_first(), q);
        assert(encode_questions(qs.push(q)) =~= encode_questions(qs) + encode_question(q));
    }
}

/// Writing one more record after `rs` appends that record's bytes.
pub proof fn lemma_encode_records_push(rs: Seq<RecordView>, r: RecordView)
    ensures
        encode_records(rs.push(r)) == encode_records(rs) + encode_record(r),
    decreases rs.len(),
{
    if rs.len() == 0 {
        assert(rs.push(r).drop_first() =~= Seq::<RecordView>::empty());
        assert(encode_records(rs.push(r)) =~= encode_record(r) + encode_records(Seq::empty()));
        assert(encode_records(rs.push(r)) =~= encode_records(rs) + encode_record(r));
    } else {
        assert(rs.push(r).drop_first() =~= rs.drop_first().push(r));
        lemma_encode_records_push(rs.drop_first(), r);
        assert(encode_records(rs.push(r)) =~= encode_records(rs) + encode_record(r));
    }
}

/// Appends the two bytes of `v`, high byte first.
pub fn push_u16(out: &mut Vec<u8>, v: u16)
    ensures
        final(out)@ == old(out)@ + u16_bytes(v),
{
    out.push((v / 256) as u8);
    out.push((v % 256) as u8);
    assert(out@ =~= old(out)@ + u16_bytes(v));
}

/// Appends the four bytes of `v`, high byte first.
pub fn push_u32(out: &mut Vec<u8>, v: u32)
    ensures
        final(out)@ == old(out)@ + u32_bytes(v),
{
    out.push((v / 16777216) as u8);
    out.push(((v / 65536) % 256) as u8);
    out.push(((v / 256) % 256) as u8);
    out.push((v % 256) as u8);
    assert(out@ =~= old(out)@ + u32_bytes(v));
}

/// Appends `bytes`.
pub fn push_bytes(out: &mut Vec<u8>, bytes: &Vec<u8>)
    ensures
        final(out)@ == old(out)@ + bytes@,
{
    let mut k: usize = 0;
    while k < bytes.len()
        invariant
            k <= bytes.len(),
            out@ == old(out)@ + bytes@.take(k as int),
        decreases bytes.len() - k,
    {
        out.push(bytes[k]);
        assert(out@ =~= old(out)@ + bytes@.take(k + 1));
        k += 1;
    }
    assert(bytes@.take(bytes@.len() as int) =~= bytes@);
}

/// Appends the uncompressed form of `name`. Fails, leaving `out` of no use,
/// exactly when a label is empty or longer than sixty-three bytes.
pub fn push_name(out: &mut Vec<u8>, name: &Name) -> (r: Result<(), EncodeError>)
    ensures
        r is Ok <==> name_encodable(name@),
        r is Ok ==> final(out)@ == old(out)@ + encode_name(name@),
{
    let mut i: usize = 0;
    assert(name@.take(0) =~= Seq::<Seq<u8>>::empty());
    while i < name.labels.len()
        invariant
            i <= name.labels.len(),
            name@.len() == name.labels@.len(),
            forall|j: int| 0 <= j < i ==> label_encodable(#[trigger] name@[j]),
            out@ == old(out)@ + encode_labels(name@.take(i as int)),
        decreases name.labels.len() - i,
    {
        let label = &name.labels[i];
        if label.len() < 1 || label.len() > MAX_LABEL_LEN {
            assert(!label_encodable(name@[i as int]));
            return Err(EncodeError::TooLarge);
        }
        let ghost before = out@;
        out.push(label.len() as u8);
        push_bytes(out, label);
        proof {
            assert(out@ =~= before + encode_label(label@));
            lemma_encode_labels_push(name@.take(i as int), label@);
            assert(name@.take(i + 1) =~= name@.take(i as int).push(label@));
        }
        i += 1;
    }
    assert(name@.take(name@.len() as int) =~= name@);
    out.push(0);
    assert(out@ =~= old(out)@ + encode_name(name@));
    Ok(())
}

/// Appends one question.
pub fn push_question(out: &mut Vec<u8>, q: &Question) -> (r: Result<(), EncodeError>)
    ensures
        r is Ok <==> question_encodable(q@),
        r is Ok ==> final(out)@ == old(out)@ + encode_question(q@),
{
    match push_name(out, &q.name) {
        Ok(()) => {},
        Err(e) => {
            return Err(e);
        },
    }
    push_u16(out, q.qtype);
    push_u16(out, q.qclass);
    assert(out@ =~= old(out)@ + encode_question(q@));
    Ok(())
}

/// Appends one record. Fails exactly when its name cannot be written or its
/// data is longer than a sixteen-bit length can say.
pub fn push_record(out: &mut Vec<u8>, rec: &Record) -> (r: Result<(), EncodeError>)
    ensures
        r is Ok <==> record_encodable(rec@),
        r is Ok ==> final(out)@ == old(out)@ + encode_record(rec@),
{
    if rec.rdata.len() > 65535 {
        return Err(EncodeError::TooLarge);
    }
    match push_name(out, &rec.name) {
        Ok(()) => {},
        Err(e) => {
            return Err(e);
        },
    }
    push_u16(out, rec.rtype);
    push_u16(out, rec.class);
    push_u32(out, rec.ttl);
    push_u16(out, rec.rdata.len() as u16);
    push_bytes(out, &rec.rdata);
    assert(out@ =~= old(out)@ + encode_record(rec@));
    Ok(())
}

/// Appends a section of records.
pub fn push_records(out: &mut Vec<u8>, rs: &Vec<Record>) -> (r: Result<(), EncodeError>)
    ensures
        r is Ok <==> records_encodable(records_view(rs@)),
        r is Ok ==> final(out)@ == old(out)@ + encode_records(records_view(rs@)),
{
    if rs.len() > 65535 {
        return Err(EncodeError::TooLarge);
    }
    let ghost all = records_view(rs@);
    let mut i: usize = 0;
    assert(all.take(0) =~= Seq::<RecordView>::empty());
    while i < rs.len()
        invariant
            i <= rs.len(),
            all == records_view(rs@),
            forall|j: int| 0 <= j < i ==> record_encodable(#[trigger] all[j]),
            out@ == old(out)@ + encode_records(all.take(i as int)),
        decreases rs.len() - i,
    {
        let ghost before = out@;
        match push_record(out, &rs[i]) {
            Ok(()) => {},
            Err(e) => {
                assert(!record_encodable(all[i as int]));
                return Err(e);
            },
        }
        proof {
            lemma_encode_records_push(all.take(i as int), all[i as int]);
            assert(all.take(i + 1) =~= all.take(i as int).push(all[i as int]));
        }
        i += 1;
    }
    assert(all.take(all.len() as int) =~= all);
    Ok(())
}

/// Appends the question section.
pub fn push_questions(out: &mut Vec<u8>, qs: &Vec<Question>) -> (r: Result<(), EncodeError>)
    ensures
        r is Ok <==> {
            &&& qs@.len() <= u16::MAX
            &&& forall|i: int|
                0 <= i < qs@.len() ==> question_encodable(#[trigger] questions_view(qs@)[i])
        },
        r is Ok ==> final(out)@ == old(out)@ + encode_questions(questions_view(qs@)),
{
    if qs.len() > 65535 {
        return Err(EncodeError::TooLarge);
    }
    let ghost all = questions_view(qs@);
    let mut i: usize = 0;
    assert(all.take(0) =~= Seq::<QuestionView>::empty());
    while i < qs.len()
        invariant
            i <= qs.len(),
            all == questions_view(qs@),
            forall|j: int| 0 <= j < i ==> question_encodable(#[trigger] all[j]),
            out@ == old(out)@ + encode_questions(all.take(i as int)),
        decreases qs.len() - i,
    {
        match push_question(out, &qs[i]) {
            Ok(()) => {},
            Err(e) => {
                assert(!question_encodable(all[i as int]));
                return Err(e);
            },
        }
        proof {
            lemma_encode_questions_push(all.take(i as int), all[i as int]);
            assert(all.take(i + 1) =~= all.take(i as int).push(all[i as int]));
        }
        i += 1;
    }
    assert(all.take(all.len() as int) =~= all);
    Ok(())
}

/// Encodes a whole message with uncompressed names.
///
/// The header counts are taken from the sections themselves. Fails exactly
/// when the message is not [`message_encodable`]: a label is empty or longer
/// than sixty-three bytes, a record's data is longer than 65535 bytes, or a
/// section has more than 65535 entries.
pub fn encode(m: &Message) -> (r: Result<Vec<u8>, EncodeError>)
    ensures
        r is Ok <==> message_encodable(m@),
        r matches Ok(bytes) ==> bytes@ == encode_message(m@),
{
    if m.questions.len() > 65535 || m.answers.len() > 65535 || m.authorities.len() > 65535
        || m.additionals.len() > 65535 {
        return Err(EncodeError::TooLarge);
    }
    let mut out: Vec<u8> = Vec::new();
    push_u16(&mut out, m.id);
    push_u16(&mut out, m.flags);
    push_u16(&mut out, m.questions.len() as u16);
    push_u16(&mut out, m.answers.len() as u16);
    push_u16(&mut out, m.authorities.len() as u16);
    push_u16(&mut out, m.additionals.len() as u16);
    assert(out@ =~= encode_header(m@));
    match push_questions(&mut out, &m.questions) {
        Ok(()) => {},
        Err(e) => {
            return Err(e);
        },
    }
    match push_records(&mut out, &m.answers) {
        Ok(()) => {},
        Err(e) => {
            return Err(e);
        },
    }
    match push_records(&mut out, &m.authorities) {
        Ok(()) => {},
        Err(e) => {
            return Err(e);
        },
    }
    match push_records(&mut out, &m.additionals) {
        Ok(()) => {},
        Err(e) => {
            return Err(e);
        },
    }
    Ok(out)
}

} // verus!
