//! The resolution engine: where the answer to a question comes from.
//!
//! A question is looked up in the record store, then in the answer cache.
//! What neither holds is, in forwarder mode, for an upstream resolver to
//! answer. The engine does not talk to that resolver itself: it says that
//! the question is to be asked, and takes the reply when it has come.

use vstd::prelude::*;
use crate::cache::{after_put, cached_answer, drop_expired, CacheRecordView, DnsCache};
use crate::error::ResolutionError;
use crate::message::{
    clone_records, records_view, unpack_flags, Flags, Message, MessageView, Question,
    QuestionView, Record, RecordView, CLASS_IN, RCODE_NOERROR, RCODE_NXDOMAIN,
};
use crate::store::{entries_records, matching, RecordStore, ZoneEntry};

verus! {

/// Whether questions that the server cannot answer itself are passed on.
#[derive(Clone, Copy, Debug, PartialEq, Eq)]
pub enum Mode {
    /// Only the server's own data answers; nothing is asked upstream.
    Authoritative,
    /// What the server does not hold is asked upstream.
    Forwarder,
}

/// Why an upstream resolver gave no reply.
#[derive(Clone, Copy, Debug, PartialEq, Eq)]
pub enum UpstreamError {
    /// No reply came within the deadline.
    Timeout,
    /// The reply could not be sent for or received.
    Transport,
}

/// How a question was resolved.
#[derive(Debug, PartialEq, Eq)]
pub enum Resolution {
    /// The record store holds these records for it: an authoritative answer.
    Found(Vec<Record>),
    /// The answer cache holds these records for it, with the lifetime left.
    Cached(Vec<Record>),
    /// The upstream resolver answered with these records.
    Forwarded(Vec<Record>),
    /// Nothing is held for it and nobody else can be asked.
    NotFound,
    /// The upstream resolver failed or did not reply in time.
    Failed,
    /// The question is of a class other than the Internet class.
    Unsupported,
}

/// Mathematical view of a [`Resolution`].
pub ghost enum ResolutionView {
    Found(Seq<RecordView>),
    Cached(Seq<RecordView>),
    Forwarded(Seq<RecordView>),
    NotFound,
    Failed,
    Unsupported,
}

impl View for Resolution {
    type V = ResolutionView;

    open spec fn view(&self) -> ResolutionView {
        match self {
            Resolution::Found(rs) => ResolutionView::Found(records_view(rs@)),
            Resolution::Cached(rs) => ResolutionView::Cached(records_view(rs@)),
            Resolution::Forwarded(rs) => ResolutionView::Forwarded(records_view(rs@)),
            Resolution::NotFound => ResolutionView::NotFound,
            Resolution::Failed => ResolutionView::Failed,
            Resolution::Unsupported => ResolutionView::Unsupported,
        }
    }
}

impl Resolution {
    /// The records of an answer, or the error that stands for the outcome.
    pub fn into_result(self) -> (r: Result<Vec<Record>, ResolutionError>)
        ensures
            match self {
                Resolution::Found(rs) => r == Ok::<Vec<Record>, ResolutionError>(rs),
                Resolution::Cached(rs) => r == Ok::<Vec<Record>, ResolutionError>(rs),
                Resolution::Forwarded(rs) => r == Ok::<Vec<Record>, ResolutionError>(rs),
                Resolution::NotFound => r == Err::<Vec<Record>, ResolutionError>(
                    ResolutionError::NameError,
                ),
                Resolution::Failed => r == Err::<Vec<Record>, ResolutionError>(
                    ResolutionError::ServerFailure,
                ),
                Resolution::Unsupported => r == Err::<Vec<Record>, ResolutionError>(
                    ResolutionError::Unsupported,
                ),
            },
    {
        match self {
            Resolution::Found(rs) => Ok(rs),
            Resolution::Cached(rs) => Ok(rs),
            Resolution::Forwarded(rs) => Ok(rs),
            Resolution::NotFound => Err(ResolutionError::NameError),
            Resolution::Failed => Err(ResolutionError::ServerFailure),
            Resolution::Unsupported => Err(ResolutionError::Unsupported),
        }
    }
}

/// What the server's own data says of a question.
#[derive(Debug, PartialEq, Eq)]
pub enum Lookup {
    /// The question is resolved.
    Resolved(Resolution),
    /// The question is to be asked upstream.
    AskUpstream,
}

/// Mathematical view of a [`Lookup`].
pub ghost enum LookupView {
    Resolved(ResolutionView),
    AskUpstream,
}

impl View for Lookup {
    type V = LookupView;

    open spec fn view(&self) -> LookupView {
        match self {
            Lookup::Resolved(r) => LookupView::Resolved(r@),
            Lookup::AskUpstream => LookupView::AskUpstream,
        }
    }
}

/// What the store `store` and the cache `cache` say of `q` at `now`.
///
/// A question outside the Internet class is unsupported. Records in the
/// store answer before the cache is looked at; a live cache entry answers
/// next. Otherwise the name is not found in authoritative mode, and the
/// question is to be asked upstream in forwarder mode.
pub open spec fn local_lookup(
    store: Seq<RecordView>,
    cache: Seq<CacheRecordView>,
    mode: Mode,
    q: QuestionView,
    now: u64,
) -> LookupView {
    if q.qclass != CLASS_IN {
        LookupView::Resolved(ResolutionView::Unsupported)
    } else if matching(store, q.name, q.qtype).len() > 0 {
        LookupView::Resolved(ResolutionView::Found(matching(store, q.name, q.qtype)))
    } else {
        match cached_answer(cache, q.name, q.qtype, now) {
            Some(rs) => LookupView::Resolved(ResolutionView::Cached(rs)),
            None => if mode == Mode::Authoritative {
                LookupView::Resolved(ResolutionView::NotFound)
            } else {
                LookupView::AskUpstream
            },
        }
    }
}

/// The shortest lifetime among `rs`; zero if there are none.
pub open spec fn min_ttl(rs: Seq<RecordView>) -> u32
    decreases rs.len(),
{
    if rs.len() == 0 {
        0
    } else if rs.len() == 1 {
        rs[0].ttl
    } else if rs.last().ttl < min_ttl(rs.drop_last()) {
        rs.last().ttl
    } else {
        min_ttl(rs.drop_last())
    }
}

/// No record of `rs` has a shorter lifetime than [`min_ttl`] says, and one has that lifetime.
pub proof fn lemma_min_ttl(rs: Seq<RecordView>)
    requires
        rs.len() > 0,
    ensures
        forall|i: int| 0 <= i < rs.len() ==> min_ttl(rs) <= (#[trigger] rs[i]).ttl,
        exists|i: int| 0 <= i < rs.len() && (#[trigger] rs[i]).ttl == min_ttl(rs),
    decreases rs.len(),
{
    if rs.len() > 1 {
        let init = rs.drop_last();
        lemma_min_ttl(init);
        assert forall|i: int| 0 <= i < rs.len() implies min_ttl(rs) <= (#[trigger] rs[i]).ttl by {
            if i < init.len() {
                assert(init[i] == rs[i]);
            }
        }
        let k = choose|i: int| 0 <= i < init.len() && (#[trigger] init[i]).ttl == min_ttl(init);
        assert(init[k] == rs[k]);
        if rs.last().ttl < min_ttl(init) {
            assert(rs[rs.len() - 1].ttl == min_ttl(rs));
        } else {
            assert(rs[k].ttl == min_ttl(rs));
        }
    } else {
        assert(rs[0].ttl == min_ttl(rs));
    }
}

/// Executable form of [`min_ttl`].
pub fn shortest_ttl(rs: &Vec<Record>) -> (t: u32)
    ensures
        t == min_ttl(records_view(rs@)),
{
    if rs.len() == 0 {
        return 0;
    }
    let ghost view = records_view(rs@);
    let mut t: u32 = rs[0].ttl;
    let mut i: usize = 1;
    assert(view.take(1).len() == 1);
    assert(view.take(1)[0] == view[0]);
    while i < rs.len()
        invariant
            1 <= i <= rs.len(),
            view == records_view(rs@),
            t == min_ttl(view.take(i as int)),
        decreases rs.len() - i,
    {
        proof {
            assert(view.take(i + 1).drop_last() =~= view.take(i as int));
            assert(view.take(i + 1).last() == view[i as int]);
        }
        if rs[i].ttl < t {
            t = rs[i].ttl;
        }
        i += 1;
    }
    assert(view.take(i as int) =~= view);
    t
}

/// The result code that a message carries in its flags.
pub open spec fn rcode_in(m: MessageView) -> u8 {
    unpack_flags(m.flags).rcode
}

/// The cache after the reply `reply` to the question `q` was taken at `now`.
///
/// Only a reply with result code NOERROR is cached: its answers are put
/// for the question's name and type with the shortest of their lifetimes,
/// so a reply without answers, or with one of lifetime zero, stores
/// nothing. A reply with another result code, and a failure to get one,
/// leave the cache as it was.
pub open spec fn cache_after_reply(
    cache: Seq<CacheRecordView>,
    capacity: nat,
    q: QuestionView,
    reply: Result<MessageView, UpstreamError>,
    now: u64,
) -> Seq<CacheRecordView> {
    match reply {
        Ok(m) => if rcode_in(m) == RCODE_NOERROR {
            after_put(cache, q.name, q.qtype, m.answers, min_ttl(m.answers) as i64, now, capacity)
        } else {
            cache
        },
        Err(_) => cache,
    }
}

/// How a question asked upstream is resolved by the reply.
///
/// A reply with result code NOERROR answers it with the reply's answers,
/// be they none. A reply with result code NXDOMAIN says that the name
/// does not exist. Any other result code, and a failure to get a reply,
/// is a failure.
pub open spec fn upstream_resolution(reply: Result<MessageView, UpstreamError>) -> ResolutionView {
    match reply {
        Ok(m) => if rcode_in(m) == RCODE_NOERROR {
            ResolutionView::Forwarded(m.answers)
        } else if rcode_in(m) == RCODE_NXDOMAIN {
            ResolutionView::NotFound
        } else {
            ResolutionView::Failed
        },
        Err(_) => ResolutionView::Failed,
    }
}

/// The view of a reply or of the failure in its place.
pub open spec fn reply_view(reply: Result<Message, UpstreamError>) -> Result<
    MessageView,
    UpstreamError,
> {
    match reply {
        Ok(m) => Ok(m@),
        Err(e) => Err(e),
    }
}

/// The resolution engine. It owns the record store and the answer cache.
pub struct Resolver {
    store: RecordStore,
    cache: DnsCache,
    mode: Mode,
}

impl Resolver {
    /// The records of the store.
    pub closed spec fn store_view(&self) -> Seq<RecordView> {
        self.store@
    }

    /// The entries of the cache.
    pub closed spec fn cache_view(&self) -> Seq<CacheRecordView> {
        self.cache@
    }

    /// The most entries the cache may hold.
    pub closed spec fn cache_capacity(&self) -> nat {
        self.cache.capacity()
    }

    /// The mode the engine was made with.
    pub closed spec fn mode(&self) -> Mode {
        self.mode
    }

    /// The cache is within its bound, with one entry at most for a name and type.
    pub closed spec fn wf(&self) -> bool {
        self.cache.wf()
    }

    /// An engine over `store` and `cache`. The mode is fixed from here on.
    pub fn new(store: RecordStore, cache: DnsCache, mode: Mode) -> (r: Resolver)
        requires
            cache.wf(),
        ensures
            r.wf(),
            r.store_view() == store@,
            r.cache_view() == cache@,
            r.cache_capacity() == cache.capacity(),
            r.mode() == mode,
    {
        Resolver { store, cache, mode }
    }

    /// The mode the engine was made with.
    pub fn get_mode(&self) -> (m: Mode)
        ensures
            m == self.mode(),
    {
        self.mode
    }

    /// Replaces the record store's contents by the records of `entries`.
    pub fn load(&mut self, entries: Vec<ZoneEntry>)
        requires
            old(self).wf(),
        ensures
            final(self).wf(),
            final(self).store_view() == entries_records(entries@),
            final(self).cache_view() == old(self).cache_view(),
            final(self).cache_capacity() == old(self).cache_capacity(),
            final(self).mode() == old(self).mode(),
    {
        self.store.load(entries);
    }

    /// Removes the cache entries whose expiry has come at `now`.
    pub fn evict(&mut self, now: u64)
        requires
            old(self).wf(),
        ensures
            final(self).wf(),
            final(self).store_view() == old(self).store_view(),
            final(self).cache_view() == drop_expired(old(self).cache_view(), now),
            final(self).cache_capacity() == old(self).cache_capacity(),
            final(self).mode() == old(self).mode(),
    {
        self.cache.evict(now);
    }

    /// Resolves `q` at `now` from the store and the cache, or says that it
    /// is to be asked upstream. Nothing is changed.
    pub fn resolve(&self, q: &Question, now: u64) -> (r: Lookup)
        ensures
            r@ == local_lookup(self.store_view(), self.cache_view(), self.mode(), q@, now),
    {
        if q.qclass != CLASS_IN {
            return Lookup::Resolved(Resolution::Unsupported);
        }
        let found = self.store.lookup(&q.name, q.qtype);
        if found.len() > 0 {
            return Lookup::Resolved(Resolution::Found(found));
        }
        match self.cache.get(&q.name, q.qtype, now) {
            Some(rs) => Lookup::Resolved(Resolution::Cached(rs)),
            None => match self.mode {
                Mode::Authoritative => Lookup::Resolved(Resolution::NotFound),
                Mode::Forwarder => Lookup::AskUpstream,
            },
        }
    }

    /// Takes the upstream reply to `q`.
    ///
    /// The answers of a reply with result code NOERROR are cached under the
    /// shortest of their lifetimes and then returned. A reply with result
    /// code NXDOMAIN resolves the question as not found, any other reply
    /// and a failure to get one as failed; none of these is cached.
    pub fn accept_upstream(
        &mut self,
        q: &Question,
        reply: Result<Message, UpstreamError>,
        now: u64,
    ) -> (r: Resolution)
        requires
            old(self).wf(),
        ensures
            final(self).wf(),
            final(self).store_view() == old(self).store_view(),
            final(self).cache_capacity() == old(self).cache_capacity(),
            final(self).mode() == old(self).mode(),
            r@ == upstream_resolution(reply_view(reply)),
            final(self).cache_view() == cache_after_reply(
                old(self).cache_view(),
                old(self).cache_capacity(),
                q@,
                reply_view(reply),
                now,
            ),
    {
        match reply {
            Err(_) => Resolution::Failed,
            Ok(m) => {
                let rcode: u8 = Flags::from_bits(m.flags).rcode;
                if rcode == RCODE_NOERROR {
                    let ttl: u32 = shortest_ttl(&m.answers);
                    let stored = clone_records(&m.answers);
                    self.cache.put(&q.name, q.qtype, stored, ttl as i64, now);
                    Resolution::Forwarded(m.answers)
                } else if rcode == RCODE_NXDOMAIN {
                    Resolution::NotFound
                } else {
                    Resolution::Failed
                }
            },
        }
    }
}

} // verus!
