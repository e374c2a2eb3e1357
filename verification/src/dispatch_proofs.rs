//! What holds of every reply the server sends.

use vstd::prelude::*;
use crate::cache::{cached_answer, expiry_of, with_ttl, CacheRecordView};
use crate::cache_proofs::lemma_put_then_get;
use crate::codec_proofs::{lemma_decode_encode, lemma_decoded_is_wf};
use crate::dns_server::{
    dispatch, error_message, error_reply, reply_flags, reply_message,
    resolution_reply, sendable, DispatchView,
};
use crate::error::DecodeError;
use crate::message::{
    flags_wf, lemma_unpack_pack, unpack_flags, Flags, MessageView, QuestionView, RecordView,
    RCODE_FORMERR, RCODE_NOERROR, RCODE_NXDOMAIN, RCODE_SERVFAIL,
};
use crate::message::CLASS_IN;
use crate::resolver::{
    cache_after_reply, local_lookup, min_ttl, rcode_in, upstream_resolution, LookupView, Mode,
    ResolutionView, UpstreamError,
};
use crate::store::matching;
use crate::wire::{decode_message, encode_message, message_wf, records_wf, u16_at};

verus! {

/// The result code that tells an outcome.
pub open spec fn outcome_rcode(res: ResolutionView) -> u8 {
    match res {
        ResolutionView::Found(_) => RCODE_NOERROR,
        ResolutionView::Cached(_) => RCODE_NOERROR,
        ResolutionView::Forwarded(_) => RCODE_NOERROR,
        ResolutionView::NotFound => RCODE_NXDOMAIN,
        ResolutionView::Failed => RCODE_SERVFAIL,
        ResolutionView::Unsupported => RCODE_FORMERR,
    }
}

/// `bytes` are a well-formed response under the transaction id `id`.
pub open spec fn is_response(bytes: Seq<u8>, id: u16) -> bool {
    decode_message(bytes) matches Ok(m) && m.id == id && unpack_flags(m.flags).qr
}

/// The result code of the message that `bytes` hold.
pub open spec fn rcode_of(bytes: Seq<u8>) -> u8 {
    match decode_message(bytes) {
        Ok(m) => unpack_flags(m.flags).rcode,
        Err(_) => 0,
    }
}

/// The flags of a reply carry what they were built from.
pub proof fn lemma_reply_flags(query_flags: u16, aa: bool, ra: bool, rcode: u8)
    requires
        rcode < 16,
    ensures
        unpack_flags(reply_flags(query_flags, aa, ra, rcode)) == (Flags {
            qr: true,
            opcode: unpack_flags(query_flags).opcode,
            aa,
            tc: false,
            rd: unpack_flags(query_flags).rd,
            ra,
            z: 0,
            rcode,
        }),
{
    let f = Flags {
        qr: true,
        opcode: unpack_flags(query_flags).opcode,
        aa,
        tc: false,
        rd: unpack_flags(query_flags).rd,
        ra,
        z: 0,
        rcode,
    };
    assert(flags_wf(f));
    lemma_unpack_pack(f);
}

/// The bare reply decodes to a response that says the result code and nothing else.
pub proof fn lemma_error_reply_decodes(id: u16, rcode: u8)
    requires
        rcode < 16,
    ensures
        decode_message(error_reply(id, rcode)) == Ok::<MessageView, DecodeError>(
            error_message(id, rcode),
        ),
        is_response(error_reply(id, rcode), id),
        rcode_of(error_reply(id, rcode)) == rcode,
{
    let f = Flags {
        qr: true,
        opcode: 0,
        aa: false,
        tc: false,
        rd: false,
        ra: false,
        z: 0,
        rcode,
    };
    assert(flags_wf(f));
    lemma_unpack_pack(f);
    lemma_decode_encode(error_message(id, rcode));
}

/// What is sent for a reply decodes to that reply if it is well formed,
/// and to the bare SERVFAIL reply if it is not.
pub proof fn lemma_sendable_decodes(
    id: u16,
    query_flags: u16,
    question: QuestionView,
    answers: Seq<RecordView>,
    aa: bool,
    ra: bool,
    rcode: u8,
)
    requires
        rcode < 16,
    ensures
        ({
            let m = reply_message(id, query_flags, question, answers, aa, ra, rcode);
            &&& is_response(sendable(m), id)
            &&& message_wf(m) ==> decode_message(sendable(m)) == Ok::<MessageView, DecodeError>(m)
            &&& rcode_of(sendable(m)) == if message_wf(m) {
                rcode
            } else {
                RCODE_SERVFAIL
            }
        }),
{
    let m = reply_message(id, query_flags, question, answers, aa, ra, rcode);
    if message_wf(m) {
        lemma_decode_encode(m);
        lemma_reply_flags(query_flags, aa, ra, rcode);
    } else {
        lemma_error_reply_decodes(id, RCODE_SERVFAIL);
    }
}

/// Whatever the outcome, what is sent for it is a well-formed response
/// under the query's transaction id. Its result code tells the outcome:
/// NOERROR for an answer, NXDOMAIN for a name that was not found, SERVFAIL
/// for a failure, FORMERR for an unsupported question; SERVFAIL also where
/// the records to send have no well-formed wire form.
pub proof fn lemma_resolution_reply_is_response(
    id: u16,
    query_flags: u16,
    question: QuestionView,
    res: ResolutionView,
    ra: bool,
)
    ensures
        is_response(resolution_reply(id, query_flags, question, res, ra), id),
        rcode_of(resolution_reply(id, query_flags, question, res, ra)) == outcome_rcode(res)
            || rcode_of(resolution_reply(id, query_flags, question, res, ra)) == RCODE_SERVFAIL,
{
    match res {
        ResolutionView::Found(rs) => {
            lemma_sendable_decodes(id, query_flags, question, rs, true, ra, RCODE_NOERROR);
        },
        ResolutionView::Cached(rs) => {
            lemma_sendable_decodes(id, query_flags, question, rs, false, ra, RCODE_NOERROR);
        },
        ResolutionView::Forwarded(rs) => {
            lemma_sendable_decodes(id, query_flags, question, rs, false, ra, RCODE_NOERROR);
        },
        ResolutionView::NotFound => {
            lemma_sendable_decodes(
                id,
                query_flags,
                question,
                Seq::empty(),
                false,
                ra,
                RCODE_NXDOMAIN,
            );
        },
        ResolutionView::Failed => {
            lemma_sendable_decodes(
                id,
                query_flags,
                question,
                Seq::empty(),
                false,
                ra,
                RCODE_SERVFAIL,
            );
        },
        ResolutionView::Unsupported => {
            lemma_error_reply_decodes(id, RCODE_FORMERR);
        },
    }
}

/// Whatever a datagram holds, a reply to it is a well-formed response
/// under the transaction id that its first two bytes give; a datagram that
/// does not decode is told FORMERR.
pub proof fn lemma_every_reply_is_response(
    store: Seq<RecordView>,
    cache: Seq<CacheRecordView>,
    mode: Mode,
    pkt: Seq<u8>,
    now: u64,
)
    ensures
        dispatch(store, cache, mode, pkt, now) matches DispatchView::Reply(bytes) ==> is_response(
            bytes,
            u16_at(pkt, 0),
        ),
        dispatch(store, cache, mode, pkt, now) is Drop <==> pkt.len() < 2,
        pkt.len() >= 2 && decode_message(pkt) is Err ==> (dispatch(store, cache, mode, pkt, now)
            matches DispatchView::Reply(bytes) && rcode_of(bytes) == RCODE_FORMERR),
{
    if pkt.len() >= 2 {
        match decode_message(pkt) {
            Err(_) => {
                lemma_error_reply_decodes(u16_at(pkt, 0), RCODE_FORMERR);
            },
            Ok(m) => {
                assert(m.id == u16_at(pkt, 0));
                if m.questions.len() != 1 {
                    lemma_error_reply_decodes(m.id, RCODE_FORMERR);
                } else {
                    match local_lookup(store, cache, mode, m.questions[0], now) {
                        LookupView::Resolved(res) => {
                            lemma_resolution_reply_is_response(
                                m.id,
                                m.flags,
                                m.questions[0],
                                res,
                                mode == Mode::Forwarder,
                            );
                        },
                        LookupView::AskUpstream => {},
                    }
                }
            },
        }
    }
}

/// `pkt` is a query with the one question `q`, of the Internet class.
pub open spec fn asks(pkt: Seq<u8>, q: QuestionView) -> bool {
    decode_message(pkt) matches Ok(m) && m.questions == seq![q] && q.qclass == CLASS_IN
}

proof fn lemma_question_reply_wf(
    pkt: Seq<u8>,
    q: QuestionView,
    answers: Seq<RecordView>,
    aa: bool,
    ra: bool,
    rcode: u8,
)
    requires
        asks(pkt, q),
        records_wf(answers),
    ensures
        message_wf(
            reply_message(
                decode_message(pkt)->Ok_0.id,
                decode_message(pkt)->Ok_0.flags,
                q,
                answers,
                aa,
                ra,
                rcode,
            ),
        ),
{
    lemma_decoded_is_wf(pkt);
    let m = decode_message(pkt)->Ok_0;
    assert(m.questions[0] == q);
}

/// A query for a name and type that the record store holds is answered
/// with exactly the stored records, in their order, marked authoritative,
/// with result code NOERROR, whatever the cache holds and in either mode.
/// (Records that have no well-formed wire form are left aside here.)
pub proof fn lemma_stored_name_is_answered(
    store: Seq<RecordView>,
    cache: Seq<CacheRecordView>,
    mode: Mode,
    pkt: Seq<u8>,
    q: QuestionView,
    now: u64,
)
    requires
        asks(pkt, q),
        matching(store, q.name, q.qtype).len() > 0,
        records_wf(matching(store, q.name, q.qtype)),
    ensures
        ({
            let m = decode_message(pkt)->Ok_0;
            let reply = reply_message(
                m.id,
                m.flags,
                q,
                matching(store, q.name, q.qtype),
                true,
                mode == Mode::Forwarder,
                RCODE_NOERROR,
            );
            &&& dispatch(store, cache, mode, pkt, now) == DispatchView::Reply(encode_message(reply))
            &&& decode_message(encode_message(reply)) == Ok::<MessageView, DecodeError>(reply)
            &&& unpack_flags(reply.flags).aa
            &&& unpack_flags(reply.flags).rcode == RCODE_NOERROR
        }),
{
    let m = decode_message(pkt)->Ok_0;
    let ra = mode == Mode::Forwarder;
    let answers = matching(store, q.name, q.qtype);
    assert(m.questions[0] == q);
    lemma_question_reply_wf(pkt, q, answers, true, ra, RCODE_NOERROR);
    lemma_sendable_decodes(m.id, m.flags, q, answers, true, ra, RCODE_NOERROR);
    lemma_reply_flags(m.flags, true, ra, RCODE_NOERROR);
}

/// In authoritative mode, a query for a name and type that neither the
/// record store nor the cache holds is told NXDOMAIN, with the question
/// and no records.
pub proof fn lemma_absent_name_is_nxdomain(
    store: Seq<RecordView>,
    cache: Seq<CacheRecordView>,
    pkt: Seq<u8>,
    q: QuestionView,
    now: u64,
)
    requires
        asks(pkt, q),
        matching(store, q.name, q.qtype).len() == 0,
        cached_answer(cache, q.name, q.qtype, now) is None,
    ensures
        ({
            let m = decode_message(pkt)->Ok_0;
            let reply = reply_message(
                m.id,
                m.flags,
                q,
                Seq::empty(),
                false,
                false,
                RCODE_NXDOMAIN,
            );
            &&& dispatch(store, cache, Mode::Authoritative, pkt, now) == DispatchView::Reply(
                encode_message(reply),
            )
            &&& decode_message(encode_message(reply)) == Ok::<MessageView, DecodeError>(reply)
            &&& unpack_flags(reply.flags).rcode == RCODE_NXDOMAIN
        }),
{
    let m = decode_message(pkt)->Ok_0;
    assert(m.questions[0] == q);
    lemma_question_reply_wf(pkt, q, Seq::empty(), false, false, RCODE_NXDOMAIN);
    lemma_sendable_decodes(m.id, m.flags, q, Seq::empty(), false, false, RCODE_NXDOMAIN);
    lemma_reply_flags(m.flags, false, false, RCODE_NXDOMAIN);
}

/// In forwarder mode, a query for a name and type that neither the record
/// store nor the cache holds is to be asked upstream.
pub proof fn lemma_absent_name_is_forwarded(
    store: Seq<RecordView>,
    cache: Seq<CacheRecordView>,
    pkt: Seq<u8>,
    q: QuestionView,
    now: u64,
)
    requires
        asks(pkt, q),
        matching(store, q.name, q.qtype).len() == 0,
        cached_answer(cache, q.name, q.qtype, now) is None,
    ensures
        dispatch(store, cache, Mode::Forwarder, pkt, now) is Forward,
{
    let m = decode_message(pkt)->Ok_0;
    assert(m.questions[0] == q);
}

/// Once the upstream reply that answers a question was taken at `now`, its
/// answers stand in the cache until the shortest of their lifetimes has passed:
/// before that instant the question is resolved from the cache, with the
/// lifetime left; from that instant on it is as if nothing had been
/// cached. (The record store must not hold the name, or it would answer;
/// the cache must be able to hold an entry.)
pub proof fn lemma_forwarded_answer_is_cached(
    store: Seq<RecordView>,
    cache: Seq<CacheRecordView>,
    capacity: nat,
    mode: Mode,
    q: QuestionView,
    reply: MessageView,
    now: u64,
    at: u64,
)
    requires
        capacity > 0,
        q.qclass == CLASS_IN,
        matching(store, q.name, q.qtype).len() == 0,
        rcode_in(reply) == RCODE_NOERROR,
        min_ttl(reply.answers) > 0,
    ensures
        ({
            let after = cache_after_reply(
                cache,
                capacity,
                q,
                Ok::<MessageView, UpstreamError>(reply),
                now,
            );
            let expiry = expiry_of(now, min_ttl(reply.answers) as i64);
            local_lookup(store, after, mode, q, at) == if at < expiry {
                LookupView::Resolved(
                    ResolutionView::Cached(
                        with_ttl(
                            reply.answers,
                            if expiry - at > u32::MAX {
                                u32::MAX
                            } else {
                                (expiry - at) as u32
                            },
                        ),
                    ),
                )
            } else if mode == Mode::Authoritative {
                LookupView::Resolved(ResolutionView::NotFound)
            } else {
                LookupView::AskUpstream
            }
        }),
{
    lemma_put_then_get(
        cache,
        q.name,
        q.qtype,
        reply.answers,
        min_ttl(reply.answers) as i64,
        now,
        capacity,
        at,
    );
}

/// An upstream reply that does not answer is never taken for an empty
/// answer: NXDOMAIN is told as a name that was not found, any other
/// result code but NOERROR as a failure, and the cache stays as it was.
pub proof fn lemma_upstream_refusal_is_told(
    cache: Seq<CacheRecordView>,
    capacity: nat,
    q: QuestionView,
    reply: MessageView,
    now: u64,
)
    requires
        rcode_in(reply) != RCODE_NOERROR,
    ensures
        upstream_resolution(Ok::<MessageView, UpstreamError>(reply)) == if rcode_in(reply)
            == RCODE_NXDOMAIN {
            ResolutionView::NotFound
        } else {
            ResolutionView::Failed
        },
        cache_after_reply(cache, capacity, q, Ok::<MessageView, UpstreamError>(reply), now)
            == cache,
{
}

} // verus!
