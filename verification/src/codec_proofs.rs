//! What holds of the wire format: decoding undoes encoding, short buffers
//! are truncated, and long pointer chains are refused.

use vstd::prelude::*;
use crate::error::DecodeError;
use crate::message::{MessageView, QuestionView, RecordView};
use crate::name::{label_wf, name_wf, MAX_LABELS};
use crate::wire::{
    decode_message, encode_header, encode_label, encode_message, encode_name, encode_question,
    encode_questions, encode_record, encode_records, message_encodable, message_wf, parse_name,
    parse_name_from, parse_question, parse_questions_from, parse_record, parse_records_from,
    pointer_target, question_encodable, record_encodable, record_wf, records_encodable, records_wf,
    u16_at, u16_bytes, u32_at, u32_bytes, HEADER_LEN, MAX_POINTER_HOPS,
};

verus! {

/// `bytes` stand in `buf` from `pos` on.
pub open spec fn holds_at(buf: Seq<u8>, pos: int, bytes: Seq<u8>) -> bool {
    &&& 0 <= pos
    &&& pos + bytes.len() <= buf.len()
    &&& buf.subrange(pos, pos + bytes.len()) == bytes
}

proof fn lemma_holds_at_split(buf: Seq<u8>, pos: int, a: Seq<u8>, b: Seq<u8>)
    requires
        holds_at(buf, pos, a + b),
    ensures
        holds_at(buf, pos, a),
        holds_at(buf, pos + a.len(), b),
{
    let whole = buf.subrange(pos, pos + (a + b).len());
    assert(buf.subrange(pos, pos + a.len()) =~= whole.subrange(0, a.len() as int));
    assert((a + b).subrange(0, a.len() as int) =~= a);
    assert(buf.subrange(pos + a.len(), pos + a.len() + b.len()) =~= whole.subrange(
        a.len() as int,
        (a + b).len() as int,
    ));
    assert((a + b).subrange(a.len() as int, (a + b).len() as int) =~= b);
}

proof fn lemma_u16_at(buf: Seq<u8>, pos: int, v: u16)
    requires
        holds_at(buf, pos, u16_bytes(v)),
    ensures
        u16_at(buf, pos) == v,
{
    let s = buf.subrange(pos, pos + 2);
    assert(s[0] == buf[pos] && s[1] == buf[pos + 1]);
    assert(u16_bytes(v)[0] == (v / 256) as u8 && u16_bytes(v)[1] == (v % 256) as u8);
}

proof fn lemma_u32_digits(v: u32)
    by (bit_vector)
    ensures
        v / 16777216 < 256,
        (v / 16777216) * 16777216 + ((v / 65536) % 256) * 65536 + ((v / 256) % 256) * 256 + v
            % 256 == v,
{
}

proof fn lemma_u32_at(buf: Seq<u8>, pos: int, v: u32)
    requires
        holds_at(buf, pos, u32_bytes(v)),
    ensures
        u32_at(buf, pos) == v,
{
    let s = buf.subrange(pos, pos + 4);
    assert(s[0] == buf[pos] && s[1] == buf[pos + 1] && s[2] == buf[pos + 2] && s[3] == buf[pos
        + 3]);
    let t = u32_bytes(v);
    assert(t[0] == (v / 16777216) as u8 && t[1] == ((v / 65536) % 256) as u8 && t[2] == ((v
        / 256) % 256) as u8 && t[3] == (v % 256) as u8);
    lemma_u32_digits(v);
}

/// An uncompressed well-formed name that stands at `pos` is read back whole,
/// after whatever labels were read before it.
proof fn lemma_parse_encoded_name(
    buf: Seq<u8>,
    pos: int,
    limit: int,
    acc: Seq<Seq<u8>>,
    end: int,
    n: Seq<Seq<u8>>,
)
    requires
        holds_at(buf, pos, encode_name(n)),
        acc.len() + n.len() <= MAX_LABELS,
        forall|i: int| 0 <= i < n.len() ==> label_wf(#[trigger] n[i]),
    ensures
        parse_name_from(buf, pos, limit, 0, acc, end) == Ok::<(Seq<Seq<u8>>, int), DecodeError>(
            (acc + n, pos + encode_name(n).len()),
        ),
    decreases n.len(),
{
    let enc = encode_name(n);
    let s = buf.subrange(pos, pos + enc.len());
    if n.len() == 0 {
        assert(enc =~= seq![0u8]);
        assert(s[0] == buf[pos]);
        assert(acc + n =~= acc);
    } else {
        let l = n[0];
        let rest = n.drop_first();
        assert(label_wf(l));
        assert(enc =~= encode_label(l) + encode_name(rest));
        lemma_holds_at_split(buf, pos, encode_label(l), encode_name(rest));
        assert(encode_label(l) =~= seq![l.len() as u8] + l);
        lemma_holds_at_split(buf, pos, seq![l.len() as u8], l);
        assert(buf.subrange(pos, pos + 1)[0] == buf[pos]);
        assert(buf[pos] == l.len() as u8);
        assert(buf.subrange(pos + 1, pos + 1 + l.len()) == l);
        assert forall|i: int| 0 <= i < rest.len() implies label_wf(#[trigger] rest[i]) by {
            assert(rest[i] == n[i + 1]);
        }
        lemma_parse_encoded_name(buf, pos + 1 + l.len(), limit, acc.push(l), end, rest);
        assert(acc.push(l) + rest =~= acc + n);
    }
}

/// An uncompressed well-formed name that stands at `pos` is read back as
/// it is, and the offset returned is the one just after its zero byte.
pub proof fn lemma_name_round_trip(buf: Seq<u8>, pos: int, n: Seq<Seq<u8>>)
    requires
        holds_at(buf, pos, encode_name(n)),
        name_wf(n),
    ensures
        parse_name(buf, pos) == Ok::<(Seq<Seq<u8>>, int), DecodeError>(
            (n, pos + encode_name(n).len()),
        ),
{
    lemma_parse_encoded_name(buf, pos, pos, Seq::empty(), 0, n);
    assert(Seq::<Seq<u8>>::empty() + n =~= n);
}

/// A well-formed question that stands at `pos` is read back.
pub proof fn lemma_parse_encoded_question(buf: Seq<u8>, pos: int, q: QuestionView)
    requires
        holds_at(buf, pos, encode_question(q)),
        name_wf(q.name),
    ensures
        parse_question(buf, pos) == Ok::<(QuestionView, int), DecodeError>(
            (q, pos + encode_question(q).len()),
        ),
{
    let name = encode_name(q.name);
    assert(encode_question(q) =~= name + (u16_bytes(q.qtype) + u16_bytes(q.qclass)));
    lemma_holds_at_split(buf, pos, name, u16_bytes(q.qtype) + u16_bytes(q.qclass));
    lemma_holds_at_split(buf, pos + name.len(), u16_bytes(q.qtype), u16_bytes(q.qclass));
    lemma_parse_encoded_name(buf, pos, pos, Seq::empty(), 0, q.name);
    assert(Seq::<Seq<u8>>::empty() + q.name =~= q.name);
    lemma_u16_at(buf, pos + name.len(), q.qtype);
    lemma_u16_at(buf, pos + name.len() + 2, q.qclass);
}

/// A run of well-formed questions that stands at `pos` is read back.
proof fn lemma_parse_encoded_questions(
    buf: Seq<u8>,
    pos: int,
    acc: Seq<QuestionView>,
    qs: Seq<QuestionView>,
)
    requires
        holds_at(buf, pos, encode_questions(qs)),
        forall|i: int| 0 <= i < qs.len() ==> name_wf((#[trigger] qs[i]).name),
    ensures
        parse_questions_from(buf, pos, qs.len(), acc) == Ok::<
            (Seq<QuestionView>, int),
            DecodeError,
        >((acc + qs, pos + encode_questions(qs).len())),
    decreases qs.len(),
{
    if qs.len() == 0 {
        assert(acc + qs =~= acc);
    } else {
        let q = qs[0];
        let rest = qs.drop_first();
        lemma_holds_at_split(buf, pos, encode_question(q), encode_questions(rest));
        lemma_parse_encoded_question(buf, pos, q);
        assert forall|i: int| 0 <= i < rest.len() implies name_wf((#[trigger] rest[i]).name) by {
            assert(rest[i] == qs[i + 1]);
        }
        lemma_parse_encoded_questions(buf, pos + encode_question(q).len(), acc.push(q), rest);
        assert(acc.push(q) + rest =~= acc + qs);
    }
}

/// A run of well-formed questions that stands at `pos` is read back as it
/// is, and the offset returned is the one just after the last of them.
pub proof fn lemma_questions_round_trip(buf: Seq<u8>, pos: int, qs: Seq<QuestionView>)
    requires
        holds_at(buf, pos, encode_questions(qs)),
        forall|i: int| 0 <= i < qs.len() ==> name_wf((#[trigger] qs[i]).name),
    ensures
        parse_questions_from(buf, pos, qs.len(), Seq::empty()) == Ok::<
            (Seq<QuestionView>, int),
            DecodeError,
        >((qs, pos + encode_questions(qs).len())),
{
    lemma_parse_encoded_questions(buf, pos, Seq::empty(), qs);
    assert(Seq::<QuestionView>::empty() + qs =~= qs);
}

/// A well-formed record that stands at `pos` is read back.
pub proof fn lemma_parse_encoded_record(buf: Seq<u8>, pos: int, r: RecordView)
    requires
        holds_at(buf, pos, encode_record(r)),
        record_wf(r),
    ensures
        parse_record(buf, pos) == Ok::<(RecordView, int), DecodeError>(
            (r, pos + encode_record(r).len()),
        ),
{
    let name = encode_name(r.name);
    let t = u16_bytes(r.rtype);
    let c = u16_bytes(r.class);
    let l = u32_bytes(r.ttl);
    let n = u16_bytes(r.rdata.len() as u16);
    assert(encode_record(r) =~= name + (t + (c + (l + (n + r.rdata)))));
    lemma_holds_at_split(buf, pos, name, t + (c + (l + (n + r.rdata))));
    let p = pos + name.len();
    lemma_holds_at_split(buf, p, t, c + (l + (n + r.rdata)));
    lemma_holds_at_split(buf, p + 2, c, l + (n + r.rdata));
    lemma_holds_at_split(buf, p + 4, l, n + r.rdata);
    lemma_holds_at_split(buf, p + 8, n, r.rdata);
    lemma_parse_encoded_name(buf, pos, pos, Seq::empty(), 0, r.name);
    assert(Seq::<Seq<u8>>::empty() + r.name =~= r.name);
    lemma_u16_at(buf, p, r.rtype);
    lemma_u16_at(buf, p + 2, r.class);
    lemma_u32_at(buf, p + 4, r.ttl);
    lemma_u16_at(buf, p + 8, r.rdata.len() as u16);
}

/// A run of well-formed records that stands at `pos` is read back.
proof fn lemma_parse_encoded_records(
    buf: Seq<u8>,
    pos: int,
    acc: Seq<RecordView>,
    rs: Seq<RecordView>,
)
    requires
        holds_at(buf, pos, encode_records(rs)),
        forall|i: int| 0 <= i < rs.len() ==> record_wf(#[trigger] rs[i]),
    ensures
        parse_records_from(buf, pos, rs.len(), acc) == Ok::<(Seq<RecordView>, int), DecodeError>(
            (acc + rs, pos + encode_records(rs).len()),
        ),
    decreases rs.len(),
{
    if rs.len() == 0 {
        assert(acc + rs =~= acc);
    } else {
        let r = rs[0];
        let rest = rs.drop_first();
        lemma_holds_at_split(buf, pos, encode_record(r), encode_records(rest));
        lemma_parse_encoded_record(buf, pos, r);
        assert forall|i: int| 0 <= i < rest.len() implies record_wf(#[trigger] rest[i]) by {
            assert(rest[i] == rs[i + 1]);
        }
        lemma_parse_encoded_records(buf, pos + encode_record(r).len(), acc.push(r), rest);
        assert(acc.push(r) + rest =~= acc + rs);
    }
}

proof fn lemma_header_fields(buf: Seq<u8>, m: MessageView)
    requires
        holds_at(buf, 0, encode_header(m)),
    ensures
        u16_at(buf, 0) == m.id,
        u16_at(buf, 2) == m.flags,
        u16_at(buf, 4) == m.questions.len() as u16,
        u16_at(buf, 6) == m.answers.len() as u16,
        u16_at(buf, 8) == m.authorities.len() as u16,
        u16_at(buf, 10) == m.additionals.len() as u16,
{
    let id = u16_bytes(m.id);
    let fl = u16_bytes(m.flags);
    let qd = u16_bytes(m.questions.len() as u16);
    let an = u16_bytes(m.answers.len() as u16);
    let ns = u16_bytes(m.authorities.len() as u16);
    let ar = u16_bytes(m.additionals.len() as u16);
    assert(encode_header(m) =~= id + (fl + (qd + (an + (ns + ar)))));
    lemma_holds_at_split(buf, 0, id, fl + (qd + (an + (ns + ar))));
    lemma_holds_at_split(buf, 2, fl, qd + (an + (ns + ar)));
    lemma_holds_at_split(buf, 4, qd, an + (ns + ar));
    lemma_holds_at_split(buf, 6, an, ns + ar);
    lemma_holds_at_split(buf, 8, ns, ar);
    lemma_u16_at(buf, 0, m.id);
    lemma_u16_at(buf, 2, m.flags);
    lemma_u16_at(buf, 4, m.questions.len() as u16);
    lemma_u16_at(buf, 6, m.answers.len() as u16);
    lemma_u16_at(buf, 8, m.authorities.len() as u16);
    lemma_u16_at(buf, 10, m.additionals.len() as u16);
}

proof fn lemma_sections_stand(m: MessageView)
    ensures
        ({
            let buf = encode_message(m);
            let q_end: int = 12int + encode_questions(m.questions).len();
            let an_end: int = q_end + encode_records(m.answers).len();
            let ns_end: int = an_end + encode_records(m.authorities).len();
            &&& holds_at(buf, 0, encode_header(m))
            &&& holds_at(buf, 12, encode_questions(m.questions))
            &&& holds_at(buf, q_end, encode_records(m.answers))
            &&& holds_at(buf, an_end, encode_records(m.authorities))
            &&& holds_at(buf, ns_end, encode_records(m.additionals))
            &&& buf.len() == ns_end + encode_records(m.additionals).len()
        }),
{
    let buf = encode_message(m);
    let h = encode_header(m);
    let q = encode_questions(m.questions);
    let a = encode_records(m.answers);
    let n = encode_records(m.authorities);
    let x = encode_records(m.additionals);
    assert(h.len() == 12);
    let q_end: int = 12int + q.len();
    let an_end: int = q_end + a.len();
    assert(buf =~= h + (q + (a + (n + x))));
    assert(buf.subrange(0, buf.len() as int) =~= buf);
    lemma_holds_at_split(buf, 0, h, q + (a + (n + x)));
    lemma_holds_at_split(buf, 12, q, a + (n + x));
    lemma_holds_at_split(buf, q_end, a, n + x);
    lemma_holds_at_split(buf, an_end, n, x);
}

/// Decoding undoes encoding: the wire form of a well-formed message, which
/// holds no compression pointer, decodes to that message.
pub proof fn lemma_decode_encode(m: MessageView)
    requires
        message_wf(m),
    ensures
        decode_message(encode_message(m)) == Ok::<MessageView, DecodeError>(m),
{
    let buf = encode_message(m);
    let q_end: int = 12int + encode_questions(m.questions).len();
    let an_end: int = q_end + encode_records(m.answers).len();
    let ns_end: int = an_end + encode_records(m.authorities).len();
    lemma_sections_stand(m);
    lemma_header_fields(buf, m);
    lemma_parse_encoded_questions(buf, 12, Seq::empty(), m.questions);
    assert(Seq::<QuestionView>::empty() + m.questions =~= m.questions);
    lemma_parse_encoded_records(buf, q_end, Seq::empty(), m.answers);
    assert(Seq::<RecordView>::empty() + m.answers =~= m.answers);
    lemma_parse_encoded_records(buf, an_end, Seq::empty(), m.authorities);
    assert(Seq::<RecordView>::empty() + m.authorities =~= m.authorities);
    lemma_parse_encoded_records(buf, ns_end, Seq::empty(), m.additionals);
    assert(Seq::<RecordView>::empty() + m.additionals =~= m.additionals);
}

/// A buffer shorter than the header is truncated, whatever it holds.
pub proof fn lemma_short_buffer_truncated(buf: Seq<u8>)
    requires
        buf.len() < HEADER_LEN,
    ensures
        decode_message(buf) == Err::<MessageView, DecodeError>(DecodeError::Truncated),
{
}

/// How many compression pointers the name at `pos` leads through, each one
/// to an offset below `limit` and below the one before it. Neither the
/// bytes of the labels nor any bound on their number is looked at.
pub open spec fn pointer_chain(buf: Seq<u8>, pos: int, limit: int) -> nat
    decreases limit, buf.len() - pos,
{
    if pos < 0 || pos >= buf.len() {
        0
    } else if buf[pos] == 0 {
        0
    } else if buf[pos] >= 192 {
        if pos + 1 >= buf.len() {
            0
        } else if pointer_target(buf[pos], buf[pos + 1]) >= limit {
            0
        } else {
            let target = pointer_target(buf[pos], buf[pos + 1]);
            1 + pointer_chain(buf, target, target)
        }
    } else if buf[pos] >= 64 {
        0
    } else if pos + 1 + buf[pos] > buf.len() {
        0
    } else {
        pointer_chain(buf, pos + 1 + buf[pos], limit)
    }
}

proof fn lemma_chain_refused(
    buf: Seq<u8>,
    pos: int,
    limit: int,
    hops: nat,
    acc: Seq<Seq<u8>>,
    end: int,
)
    requires
        hops <= MAX_POINTER_HOPS,
        hops + pointer_chain(buf, pos, limit) > MAX_POINTER_HOPS,
    ensures
        parse_name_from(buf, pos, limit, hops, acc, end) == Err::<
            (Seq<Seq<u8>>, int),
            DecodeError,
        >(DecodeError::InvalidData),
    decreases limit, buf.len() - pos,
{
    if pos < 0 || pos >= buf.len() {
    } else if buf[pos] == 0 {
    } else if buf[pos] >= 192 {
        if pos + 1 < buf.len() && pointer_target(buf[pos], buf[pos + 1]) < limit && hops
            < MAX_POINTER_HOPS {
            let target = pointer_target(buf[pos], buf[pos + 1]);
            lemma_chain_refused(
                buf,
                target,
                target,
                hops + 1,
                acc,
                if hops == 0 {
                    pos + 2
                } else {
                    end
                },
            );
        }
    } else if buf[pos] >= 64 {
    } else {
        let n = buf[pos] as int;
        if pos + 1 + n <= buf.len() && label_wf(buf.subrange(pos + 1, pos + 1 + n)) && acc.len()
            < MAX_LABELS {
            lemma_chain_refused(
                buf,
                pos + 1 + n,
                limit,
                hops,
                acc.push(buf.subrange(pos + 1, pos + 1 + n)),
                end,
            );
        }
    }
}

/// A pointer that does not name an earlier offset is refused as
/// `InvalidData`, wherever in the name it stands: at its start, after
/// labels, or where another pointer led.
pub proof fn lemma_forward_pointer_invalid(
    buf: Seq<u8>,
    pos: int,
    limit: int,
    hops: nat,
    acc: Seq<Seq<u8>>,
    end: int,
)
    requires
        0 <= pos,
        pos + 1 < buf.len(),
        buf[pos] >= 192,
        pointer_target(buf[pos], buf[pos + 1]) >= limit,
    ensures
        parse_name_from(buf, pos, limit, hops, acc, end) == Err::<
            (Seq<Seq<u8>>, int),
            DecodeError,
        >(DecodeError::InvalidData),
{
}

/// A name that leads through more than [`MAX_POINTER_HOPS`] pointers is
/// refused as `InvalidData`.
pub proof fn lemma_long_pointer_chain_invalid(buf: Seq<u8>, start: int)
    requires
        pointer_chain(buf, start, start) > MAX_POINTER_HOPS,
    ensures
        parse_name(buf, start) == Err::<(Seq<Seq<u8>>, int), DecodeError>(
            DecodeError::InvalidData,
        ),
{
    lemma_chain_refused(buf, start, start, 0, Seq::empty(), 0);
}

/// A well-formed message has a wire form.
pub proof fn lemma_wf_encodable(m: MessageView)
    requires
        message_wf(m),
    ensures
        message_encodable(m),
{
    assert forall|i: int| 0 <= i < m.questions.len() implies question_encodable(
        #[trigger] m.questions[i],
    ) by {
        assert(name_wf(m.questions[i].name));
    }
    lemma_records_wf_encodable(m.answers);
    lemma_records_wf_encodable(m.authorities);
    lemma_records_wf_encodable(m.additionals);
}

proof fn lemma_records_wf_encodable(rs: Seq<RecordView>)
    requires
        records_wf(rs),
    ensures
        records_encodable(rs),
{
    assert forall|i: int| 0 <= i < rs.len() implies record_encodable(
        #[trigger] rs[i],
    ) by {
        assert(record_wf(rs[i]));
    }
}

proof fn lemma_parsed_name_wf(
    buf: Seq<u8>,
    pos: int,
    limit: int,
    hops: nat,
    acc: Seq<Seq<u8>>,
    end: int,
)
    requires
        name_wf(acc),
    ensures
        parse_name_from(buf, pos, limit, hops, acc, end) matches Ok(v) ==> name_wf(v.0) && if hops
            == 0 {
            0 <= pos < v.1 <= buf.len()
        } else {
            v.1 == end
        },
    decreases limit, buf.len() - pos,
{
    if pos < 0 || pos >= buf.len() {
    } else if buf[pos] == 0 {
    } else if buf[pos] >= 192 {
        if pos + 1 < buf.len() && pointer_target(buf[pos], buf[pos + 1]) < limit && hops
            < MAX_POINTER_HOPS {
            let target = pointer_target(buf[pos], buf[pos + 1]);
            lemma_parsed_name_wf(
                buf,
                target,
                target,
                hops + 1,
                acc,
                if hops == 0 {
                    pos + 2
                } else {
                    end
                },
            );
        }
    } else if buf[pos] >= 64 {
    } else {
        let n = buf[pos] as int;
        let label = buf.subrange(pos + 1, pos + 1 + n);
        if pos + 1 + n <= buf.len() && label_wf(label) && acc.len() < MAX_LABELS {
            assert forall|i: int| 0 <= i < acc.push(label).len() implies label_wf(
                #[trigger] acc.push(label)[i],
            ) by {
                if i < acc.len() {
                    assert(acc.push(label)[i] == acc[i]);
                }
            }
            lemma_parsed_name_wf(buf, pos + 1 + n, limit, hops, acc.push(label), end);
        }
    }
}

proof fn lemma_parsed_questions_wf(buf: Seq<u8>, pos: int, count: nat, acc: Seq<QuestionView>)
    requires
        forall|i: int| 0 <= i < acc.len() ==> name_wf((#[trigger] acc[i]).name),
    ensures
        parse_questions_from(buf, pos, count, acc) matches Ok(v) ==> v.0.len() == acc.len() + count
            && forall|i: int| 0 <= i < v.0.len() ==> name_wf((#[trigger] v.0[i]).name),
    decreases count,
{
    if count > 0 {
        lemma_parsed_name_wf(buf, pos, pos, 0, Seq::empty(), 0);
        match parse_question(buf, pos) {
            Err(_) => {},
            Ok((q, next)) => {
                assert forall|i: int| 0 <= i < acc.push(q).len() implies name_wf(
                    (#[trigger] acc.push(q)[i]).name,
                ) by {
                    if i < acc.len() {
                        assert(acc.push(q)[i] == acc[i]);
                    }
                }
                lemma_parsed_questions_wf(buf, next, (count - 1) as nat, acc.push(q));
            },
        }
    }
}

proof fn lemma_parsed_records_wf(buf: Seq<u8>, pos: int, count: nat, acc: Seq<RecordView>)
    requires
        forall|i: int| 0 <= i < acc.len() ==> record_wf(#[trigger] acc[i]),
    ensures
        parse_records_from(buf, pos, count, acc) matches Ok(v) ==> v.0.len() == acc.len() + count
            && forall|i: int| 0 <= i < v.0.len() ==> record_wf(#[trigger] v.0[i]),
    decreases count,
{
    if count > 0 {
        lemma_parsed_name_wf(buf, pos, pos, 0, Seq::empty(), 0);
        match parse_record(buf, pos) {
            Err(_) => {},
            Ok((r, next)) => {
                let parsed = parse_name(buf, pos);
                assert(parsed is Ok);
                let name_end = parsed->Ok_0.1;
                assert(r.name == parsed->Ok_0.0);
                assert(name_wf(r.name));
                assert(r.rdata.len() == u16_at(buf, name_end + 8));
                assert(record_wf(r));
                assert forall|i: int| 0 <= i < acc.push(r).len() implies record_wf(
                    #[trigger] acc.push(r)[i],
                ) by {
                    if i < acc.len() {
                        assert(acc.push(r)[i] == acc[i]);
                    }
                }
                lemma_parsed_records_wf(buf, next, (count - 1) as nat, acc.push(r));
            },
        }
    }
}

/// Whatever decodes is well formed, so it can be encoded and decoded again.
pub proof fn lemma_decoded_is_wf(buf: Seq<u8>)
    ensures
        decode_message(buf) matches Ok(m) ==> message_wf(m),
{
    if buf.len() >= HEADER_LEN {
        lemma_parsed_questions_wf(buf, HEADER_LEN as int, u16_at(buf, 4) as nat, Seq::empty());
        match parse_questions_from(buf, HEADER_LEN as int, u16_at(buf, 4) as nat, Seq::empty()) {
            Err(_) => {},
            Ok((_, q_end)) => {
                lemma_parsed_records_wf(buf, q_end, u16_at(buf, 6) as nat, Seq::empty());
                match parse_records_from(buf, q_end, u16_at(buf, 6) as nat, Seq::empty()) {
                    Err(_) => {},
                    Ok((_, an_end)) => {
                        lemma_parsed_records_wf(buf, an_end, u16_at(buf, 8) as nat, Seq::empty());
                        match parse_records_from(buf, an_end, u16_at(buf, 8) as nat, Seq::empty()) {
                            Err(_) => {},
                            Ok((_, ns_end)) => {
                                lemma_parsed_records_wf(
                                    buf,
                                    ns_end,
                                    u16_at(buf, 10) as nat,
                                    Seq::empty(),
                                );
                            },
                        }
                    },
                }
            },
        }
    }
}

} // verus!
