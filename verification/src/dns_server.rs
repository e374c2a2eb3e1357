//! The dispatcher: from a received datagram to the bytes that answer it.
//!
//! A datagram is decoded, its question resolved and the outcome encoded.
//! Whatever the datagram holds, the server replies with a well-formed
//! message or, where not even a transaction id can be read, not at all.

use vstd::prelude::*;
use crate::cache::{drop_expired, CacheRecordView, DnsCache};
use crate::codec_proofs::lemma_wf_encodable;
use crate::config::Config;
use crate::decode::{decode, read_u16};
use crate::encode::encode;
use crate::message::{
    pack_flags, records_view, unpack_flags, Flags, Message, MessageView, Question,
    QuestionView, Record, RecordView, RCODE_FORMERR, RCODE_NOERROR, RCODE_NXDOMAIN,
    RCODE_SERVFAIL,
};
use crate::resolver::{
    cache_after_reply, local_lookup, reply_view, upstream_resolution, Lookup, LookupView, Mode,
    Resolution, ResolutionView, Resolver, UpstreamError,
};
use crate::store::{entries_records, RecordStore, ZoneEntry};
use crate::wire::{decode_message, encode_message, message_wf, u16_at};

verus! {

/// Entries the answer cache holds at most unless told otherwise.
pub const DEFAULT_CACHE_ENTRIES: usize = 1024;

/// The flags of a reply to a query with flags `query_flags`: a response
/// with the query's opcode and recursion-desired bit, not truncated, with
/// the given authoritative-answer bit, recursion-available bit and result code.
pub open spec fn reply_flags(query_flags: u16, aa: bool, ra: bool, rcode: u8) -> u16 {
    pack_flags(
        Flags {
            qr: true,
            opcode: unpack_flags(query_flags).opcode,
            aa,
            tc: false,
            rd: unpack_flags(query_flags).rd,
            ra,
            z: 0,
            rcode,
        },
    )
}

/// The flags of a reply that says no more than a result code.
pub open spec fn error_flags(rcode: u8) -> u16 {
    pack_flags(
        Flags { qr: true, opcode: 0, aa: false, tc: false, rd: false, ra: false, z: 0, rcode },
    )
}

/// The message that says no more than a result code: a header with the
/// transaction id `id` and empty sections.
pub open spec fn error_message(id: u16, rcode: u8) -> MessageView {
    MessageView {
        id,
        flags: error_flags(rcode),
        questions: Seq::empty(),
        answers: Seq::empty(),
        authorities: Seq::empty(),
        additionals: Seq::empty(),
    }
}

/// The twelve bytes of [`error_message`].
pub open spec fn error_reply(id: u16, rcode: u8) -> Seq<u8> {
    encode_message(error_message(id, rcode))
}

/// The reply to the question `question` of a query with id `id` and flags
/// `query_flags`: the question again, then `answers`.
pub open spec fn reply_message(
    id: u16,
    query_flags: u16,
    question: QuestionView,
    answers: Seq<RecordView>,
    aa: bool,
    ra: bool,
    rcode: u8,
) -> MessageView {
    MessageView {
        id,
        flags: reply_flags(query_flags, aa, ra, rcode),
        questions: seq![question],
        answers,
        authorities: Seq::empty(),
        additionals: Seq::empty(),
    }
}

/// The bytes sent for `m`: its wire form if it is well formed, else the
/// reply that says no more than that the server failed.
pub open spec fn sendable(m: MessageView) -> Seq<u8> {
    if message_wf(m) {
        encode_message(m)
    } else {
        error_reply(m.id, RCODE_SERVFAIL)
    }
}

/// The bytes that tell the outcome `res` of resolving `question`.
///
/// An answer is sent with result code NOERROR, authoritative if it came
/// from the record store. A name that was not found gives NXDOMAIN, a
/// failure SERVFAIL, each with the question and no records. An unsupported
/// question gives the bare FORMERR reply.
pub open spec fn resolution_reply(
    id: u16,
    query_flags: u16,
    question: QuestionView,
    res: ResolutionView,
    ra: bool,
) -> Seq<u8> {
    match res {
        ResolutionView::Found(rs) => sendable(
            reply_message(id, query_flags, question, rs, true, ra, RCODE_NOERROR),
        ),
        ResolutionView::Cached(rs) => sendable(
            reply_message(id, query_flags, question, rs, false, ra, RCODE_NOERROR),
        ),
        ResolutionView::Forwarded(rs) => sendable(
            reply_message(id, query_flags, question, rs, false, ra, RCODE_NOERROR),
        ),
        ResolutionView::NotFound => sendable(
            reply_message(id, query_flags, question, Seq::empty(), false, ra, RCODE_NXDOMAIN),
        ),
        ResolutionView::Failed => sendable(
            reply_message(id, query_flags, question, Seq::empty(), false, ra, RCODE_SERVFAIL),
        ),
        ResolutionView::Unsupported => error_reply(id, RCODE_FORMERR),
    }
}

/// A query whose question is being asked upstream: what the reply to it will need.
#[derive(Debug, PartialEq, Eq)]
pub struct Pending {
    pub id: u16,
    pub flags: u16,
    pub question: Question,
}

/// Mathematical view of a [`Pending`].
pub ghost struct PendingView {
    pub id: u16,
    pub flags: u16,
    pub question: QuestionView,
}

impl View for Pending {
    type V = PendingView;

    open spec fn view(&self) -> PendingView {
        PendingView { id: self.id, flags: self.flags, question: self.question@ }
    }
}

/// What is to be done about a received datagram.
#[derive(Debug, PartialEq, Eq)]
pub enum Dispatch {
    /// Send these bytes back.
    Reply(Vec<u8>),
    /// Send nothing: the datagram is too short to hold a transaction id.
    Drop,
    /// Ask the question upstream, then hand the reply to
    /// [`DnsServer::handle_upstream`].
    Forward(Pending),
}

/// Mathematical view of a [`Dispatch`].
pub ghost enum DispatchView {
    Reply(Seq<u8>),
    Drop,
    Forward(PendingView),
}

impl View for Dispatch {
    type V = DispatchView;

    open spec fn view(&self) -> DispatchView {
        match self {
            Dispatch::Reply(b) => DispatchView::Reply(b@),
            Dispatch::Drop => DispatchView::Drop,
            Dispatch::Forward(p) => DispatchView::Forward(p@),
        }
    }
}

/// What a server with the records `store`, the cache `cache` and the mode
/// `mode` does about the datagram `pkt` at `now`.
///
/// Fewer than two bytes are dropped. A datagram that does not decode, or
/// that holds no question or more than one, gets the bare FORMERR reply
/// under its transaction id. Otherwise the one question is looked up: the
/// outcome is replied, or the question is to be asked upstream.
pub open spec fn dispatch(
    store: Seq<RecordView>,
    cache: Seq<CacheRecordView>,
    mode: Mode,
    pkt: Seq<u8>,
    now: u64,
) -> DispatchView {
    if pkt.len() < 2 {
        DispatchView::Drop
    } else {
        match decode_message(pkt) {
            Err(_) => DispatchView::Reply(error_reply(u16_at(pkt, 0), RCODE_FORMERR)),
            Ok(m) => if m.questions.len() != 1 {
                DispatchView::Reply(error_reply(m.id, RCODE_FORMERR))
            } else {
                match local_lookup(store, cache, mode, m.questions[0], now) {
                    LookupView::Resolved(res) => DispatchView::Reply(
                        resolution_reply(
                            m.id,
                            m.flags,
                            m.questions[0],
                            res,
                            mode == Mode::Forwarder,
                        ),
                    ),
                    LookupView::AskUpstream => DispatchView::Forward(
                        PendingView { id: m.id, flags: m.flags, question: m.questions[0] },
                    ),
                }
            },
        }
    }
}

/// Builds the reply that says no more than a result code.
pub fn error_reply_bytes(id: u16, rcode: u8) -> (bytes: Vec<u8>)
    ensures
        bytes@ == error_reply(id, rcode),
{
    let flags = Flags {
        qr: true,
        opcode: 0,
        aa: false,
        tc: false,
        rd: false,
        ra: false,
        z: 0,
        rcode,
    };
    let m = Message {
        id,
        flags: flags.to_bits(),
        questions: Vec::new(),
        answers: Vec::new(),
        authorities: Vec::new(),
        additionals: Vec::new(),
    };
    assert(m@.questions =~= Seq::empty() && m@.answers =~= Seq::empty() && m@.authorities
        =~= Seq::empty() && m@.additionals =~= Seq::empty());
    assert(m@ == error_message(id, rcode));
    match encode(&m) {
        Ok(bytes) => bytes,
        Err(_) => Vec::new(),
    }
}

/// Encodes `m` if it is well formed; sends the SERVFAIL reply in its place if not.
pub fn send(m: &Message) -> (bytes: Vec<u8>)
    ensures
        bytes@ == sendable(m@),
{
    if !m.is_well_formed() {
        return error_reply_bytes(m.id, RCODE_SERVFAIL);
    }
    proof {
        lemma_wf_encodable(m@);
    }
    match encode(m) {
        Ok(bytes) => bytes,
        Err(_) => error_reply_bytes(m.id, RCODE_SERVFAIL),
    }
}

/// Builds the reply to one question.
fn build_reply(
    id: u16,
    query_flags: u16,
    question: Question,
    answers: Vec<Record>,
    aa: bool,
    ra: bool,
    rcode: u8,
) -> (m: Message)
    ensures
        m@ == reply_message(id, query_flags, question@, records_view(answers@), aa, ra, rcode),
{
    let q = Flags::from_bits(query_flags);
    let flags = Flags { qr: true, opcode: q.opcode, aa, tc: false, rd: q.rd, ra, z: 0, rcode };
    let mut questions: Vec<Question> = Vec::new();
    questions.push(question);
    let m = Message {
        id,
        flags: flags.to_bits(),
        questions,
        answers,
        authorities: Vec::new(),
        additionals: Vec::new(),
    };
    assert(m@.questions =~= seq![question@]);
    assert(m@.authorities =~= Seq::empty() && m@.additionals =~= Seq::empty());
    m
}

/// Encodes the outcome of resolving `question`.
pub fn reply_to(id: u16, query_flags: u16, question: Question, res: Resolution, ra: bool) -> (bytes:
    Vec<u8>)
    ensures
        bytes@ == resolution_reply(id, query_flags, question@, res@, ra),
{
    match res {
        Resolution::Found(rs) => send(
            &build_reply(id, query_flags, question, rs, true, ra, RCODE_NOERROR),
        ),
        Resolution::Cached(rs) => send(
            &build_reply(id, query_flags, question, rs, false, ra, RCODE_NOERROR),
        ),
        Resolution::Forwarded(rs) => send(
            &build_reply(id, query_flags, question, rs, false, ra, RCODE_NOERROR),
        ),
        Resolution::NotFound => {
            let none: Vec<Record> = Vec::new();
            assert(records_view(none@) =~= Seq::empty());
            send(&build_reply(id, query_flags, question, none, false, ra, RCODE_NXDOMAIN))
        },
        Resolution::Failed => {
            let none: Vec<Record> = Vec::new();
            assert(records_view(none@) =~= Seq::empty());
            send(&build_reply(id, query_flags, question, none, false, ra, RCODE_SERVFAIL))
        },
        Resolution::Unsupported => error_reply_bytes(id, RCODE_FORMERR),
    }
}

/// The server: a resolution engine behind the wire codec.
pub struct DnsServer {
    resolver: Resolver,
}

impl DnsServer {
    /// The records the server is authoritative for.
    pub closed spec fn store_view(&self) -> Seq<RecordView> {
        self.resolver.store_view()
    }

    /// The entries of the answer cache.
    pub closed spec fn cache_view(&self) -> Seq<CacheRecordView> {
        self.resolver.cache_view()
    }

    /// The most entries the answer cache may hold.
    pub closed spec fn cache_capacity(&self) -> nat {
        self.resolver.cache_capacity()
    }

    /// Whether questions are passed on.
    pub closed spec fn mode(&self) -> Mode {
        self.resolver.mode()
    }

    /// The answer cache is within its bound, with one entry at most for a name and type.
    pub closed spec fn wf(&self) -> bool {
        self.resolver.wf()
    }

    /// A server in the mode that `config` names, without records and with
    /// an empty cache for [`DEFAULT_CACHE_ENTRIES`] entries.
    pub fn new(config: Config) -> (s: DnsServer)
        ensures
            s.wf(),
            s.mode() == config.mode,
            s.store_view() == Seq::<RecordView>::empty(),
            s.cache_view() == Seq::<CacheRecordView>::empty(),
            s.cache_capacity() == DEFAULT_CACHE_ENTRIES,
    {
        DnsServer::with_cache(config.mode, DEFAULT_CACHE_ENTRIES)
    }

    /// A server in mode `mode`, without records and with an empty cache
    /// for `max_entries` entries.
    pub fn with_cache(mode: Mode, max_entries: usize) -> (s: DnsServer)
        ensures
            s.wf(),
            s.mode() == mode,
            s.store_view() == Seq::<RecordView>::empty(),
            s.cache_view() == Seq::<CacheRecordView>::empty(),
            s.cache_capacity() == max_entries,
    {
        DnsServer { resolver: Resolver::new(RecordStore::new(), DnsCache::new(max_entries), mode) }
    }

    /// Replaces the authoritative records by those of `entries`.
    pub fn load(&mut self, entries: Vec<ZoneEntry>)
        requires
            old(self).wf(),
        ensures
            final(self).wf(),
            final(self).store_view() == entries_records(entries@),
            final(self).cache_view() == old(self).cache_view(),
            final(self).cache_capacity() == old(self).cache_capacity(),
            final(self).mode() == old(self).mode(),
    {
        self.resolver.load(entries);
    }

    /// Removes the cache entries whose expiry has come at `now`.
    pub fn evict(&mut self, now: u64)
        requires
            old(self).wf(),
        ensures
            final(self).wf(),
            final(self).store_view() == old(self).store_view(),
            final(self).cache_view() == drop_expired(old(self).cache_view(), now),
            final(self).cache_capacity() == old(self).cache_capacity(),
            final(self).mode() == old(self).mode(),
    {
        self.resolver.evict(now);
    }

    /// Decides what is to be done about the datagram `pkt`, received at
    /// `now`: exactly what [`dispatch`] says. Nothing is changed.
    pub fn handle_request(&self, pkt: &[u8], now: u64) -> (d: Dispatch)
        ensures
            d@ == dispatch(self.store_view(), self.cache_view(), self.mode(), pkt@, now),
    {
        if pkt.len() < 2 {
            return Dispatch::Drop;
        }
        let mut m = match decode(pkt) {
            Ok(m) => m,
            Err(_) => {
                let id: u16 = read_u16(pkt, 0);
                return Dispatch::Reply(error_reply_bytes(id, RCODE_FORMERR));
            },
        };
        if m.questions.len() != 1 {
            return Dispatch::Reply(error_reply_bytes(m.id, RCODE_FORMERR));
        }
        let ghost whole = m@;
        let question = m.questions.remove(0);
        assert(question@ == whole.questions[0]);
        let ra: bool = match self.resolver.get_mode() {
            Mode::Forwarder => true,
            Mode::Authoritative => false,
        };
        match self.resolver.resolve(&question, now) {
            Lookup::Resolved(res) => Dispatch::Reply(reply_to(m.id, m.flags, question, res, ra)),
            Lookup::AskUpstream => Dispatch::Forward(
                Pending { id: m.id, flags: m.flags, question },
            ),
        }
    }

    /// Takes the upstream reply to a forwarded question and builds the
    /// reply to the query that asked it.
    ///
    /// The answers of a reply are cached under the shortest of their
    /// lifetimes and sent with result code NOERROR; a failure is told as
    /// SERVFAIL and leaves the cache as it was.
    pub fn handle_upstream(
        &mut self,
        pending: Pending,
        reply: Result<Message, UpstreamError>,
        now: u64,
    ) -> (bytes: Vec<u8>)
        requires
            old(self).wf(),
        ensures
            final(self).wf(),
            final(self).store_view() == old(self).store_view(),
            final(self).cache_capacity() == old(self).cache_capacity(),
            final(self).mode() == old(self).mode(),
            final(self).cache_view() == cache_after_reply(
                old(self).cache_view(),
                old(self).cache_capacity(),
                pending@.question,
                reply_view(reply),
                now,
            ),
            bytes@ == resolution_reply(
                pending@.id,
                pending@.flags,
                pending@.question,
                upstream_resolution(reply_view(reply)),
                old(self).mode() == Mode::Forwarder,
            ),
    {
        let ra: bool = match self.resolver.get_mode() {
            Mode::Forwarder => true,
            Mode::Authoritative => false,
        };
        let res = self.resolver.accept_upstream(&pending.question, reply, now);
        reply_to(pending.id, pending.flags, pending.question, res, ra)
    }
}

} // verus!
