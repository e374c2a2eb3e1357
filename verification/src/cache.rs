//! The answer cache: resolved answers, each kept until its lifetime ends,
//! in bounded memory.

use vstd::prelude::*;
use crate::cache_proofs::{lemma_evict_unique, lemma_put_unique};
use crate::message::{records_view, Record, RecordView};
use crate::name::{canonical, same_name, Name};

verus! {

/// One cached answer: the records for a name and type, the instant at which
/// they stop being valid and the instant at which they were stored.
/// Instants are seconds on the caller's clock.
#[derive(Debug, PartialEq, Eq)]
pub struct CacheRecord {
    pub name: Name,
    pub qtype: u16,
    pub records: Vec<Record>,
    pub expiry: u64,
    pub inserted: u64,
}

/// Mathematical view of a [`CacheRecord`].
pub ghost struct CacheRecordView {
    pub name: Seq<Seq<u8>>,
    pub qtype: u16,
    pub records: Seq<RecordView>,
    pub expiry: u64,
    pub inserted: u64,
}

impl View for CacheRecord {
    type V = CacheRecordView;

    open spec fn view(&self) -> CacheRecordView {
        CacheRecordView {
            name: self.name@,
            qtype: self.qtype,
            records: records_view(self.records@),
            expiry: self.expiry,
            inserted: self.inserted,
        }
    }
}

/// The views of a run of entries.
pub open spec fn entries_view(s: Seq<CacheRecord>) -> Seq<CacheRecordView> {
    Seq::new(s.len(), |i: int| s[i]@)
}

/// Whether `e` is the entry for `name` and `qtype`.
pub open spec fn has_key(e: CacheRecordView, name: Seq<Seq<u8>>, qtype: u16) -> bool {
    same_name(e.name, name) && e.qtype == qtype
}

/// An entry is valid strictly before its expiry.
pub open spec fn is_live(e: CacheRecordView, now: u64) -> bool {
    now < e.expiry
}

/// The seconds an entry has left at `now`, as far as a record's lifetime can say.
pub open spec fn remaining(e: CacheRecordView, now: u64) -> u32 {
    if e.expiry - now > u32::MAX {
        u32::MAX
    } else if e.expiry - now < 0 {
        0
    } else {
        (e.expiry - now) as u32
    }
}

/// The records `rs`, each with the lifetime `ttl`.
pub open spec fn with_ttl(rs: Seq<RecordView>, ttl: u32) -> Seq<RecordView> {
    Seq::new(
        rs.len(),
        |i: int|
            RecordView {
                name: rs[i].name,
                rtype: rs[i].rtype,
                class: rs[i].class,
                ttl,
                rdata: rs[i].rdata,
            },
    )
}

/// The first entry for `name` and `qtype`, if there is one.
pub open spec fn entry_for(s: Seq<CacheRecordView>, name: Seq<Seq<u8>>, qtype: u16) -> Option<
    CacheRecordView,
>
    decreases s.len(),
{
    if s.len() == 0 {
        None
    } else if has_key(s[0], name, qtype) {
        Some(s[0])
    } else {
        entry_for(s.drop_first(), name, qtype)
    }
}

/// What the cache answers at `now`: the records of the entry for `name` and
/// `qtype` with the lifetime it has left, or nothing if there is no entry or
/// its expiry has come.
pub open spec fn cached_answer(
    s: Seq<CacheRecordView>,
    name: Seq<Seq<u8>>,
    qtype: u16,
    now: u64,
) -> Option<Seq<RecordView>> {
    match entry_for(s, name, qtype) {
        Some(e) => if is_live(e, now) {
            Some(with_ttl(e.records, remaining(e, now)))
        } else {
            None
        },
        None => None,
    }
}

/// No two entries are for the same name and type.
pub open spec fn unique_keys(s: Seq<CacheRecordView>) -> bool {
    forall|i: int, j: int|
        0 <= i < j < s.len() ==> !has_key(#[trigger] s[i], (#[trigger] s[j]).name, s[j].qtype)
}

pub proof fn lemma_entry_for_none(s: Seq<CacheRecordView>, name: Seq<Seq<u8>>, qtype: u16)
    requires
        forall|i: int| 0 <= i < s.len() ==> !has_key(#[trigger] s[i], name, qtype),
    ensures
        entry_for(s, name, qtype) is None,
    decreases s.len(),
{
    if s.len() > 0 {
        assert forall|i: int| 0 <= i < s.drop_first().len() implies !has_key(
            #[trigger] s.drop_first()[i],
            name,
            qtype,
        ) by {
            assert(s.drop_first()[i] == s[i + 1]);
        }
        lemma_entry_for_none(s.drop_first(), name, qtype);
    }
}

pub proof fn lemma_entry_for_first(s: Seq<CacheRecordView>, name: Seq<Seq<u8>>, qtype: u16, k: int)
    requires
        0 <= k < s.len(),
        has_key(s[k], name, qtype),
        forall|i: int| 0 <= i < k ==> !has_key(#[trigger] s[i], name, qtype),
    ensures
        entry_for(s, name, qtype) == Some(s[k]),
    decreases s.len(),
{
    if k > 0 {
        assert forall|i: int| 0 <= i < k - 1 implies !has_key(
            #[trigger] s.drop_first()[i],
            name,
            qtype,
        ) by {
            assert(s.drop_first()[i] == s[i + 1]);
        }
        assert(s.drop_first()[k - 1] == s[k]);
        lemma_entry_for_first(s.drop_first(), name, qtype, k - 1);
    }
}

/// Which entries leave when the cache is swept.
pub ghost enum Leaving {
    /// Those for this name and type.
    Key(Seq<Seq<u8>>, u16),
    /// Those whose expiry has come at this instant.
    Expired(u64),
}

/// Whether `e` leaves under `rule`.
pub open spec fn leaves(rule: Leaving, e: CacheRecordView) -> bool {
    match rule {
        Leaving::Key(name, qtype) => has_key(e, name, qtype),
        Leaving::Expired(now) => !is_live(e, now),
    }
}

/// The entries of `s` that do not leave under `rule`, in their order.
pub open spec fn staying(s: Seq<CacheRecordView>, rule: Leaving) -> Seq<CacheRecordView>
    decreases s.len(),
{
    if s.len() == 0 {
        Seq::empty()
    } else if leaves(rule, s.last()) {
        staying(s.drop_last(), rule)
    } else {
        staying(s.drop_last(), rule).push(s.last())
    }
}

/// The entries of `s` other than those for `name` and `qtype`, in their order.
pub open spec fn without_key(s: Seq<CacheRecordView>, name: Seq<Seq<u8>>, qtype: u16) -> Seq<
    CacheRecordView,
> {
    staying(s, Leaving::Key(name, qtype))
}

/// The entries of `s` that are still valid at `now`, in their order.
pub open spec fn drop_expired(s: Seq<CacheRecordView>, now: u64) -> Seq<CacheRecordView> {
    staying(s, Leaving::Expired(now))
}

/// The index of the entry that expires soonest, the first of them where
/// several expire together.
pub open spec fn soonest(s: Seq<CacheRecordView>) -> int
    decreases s.len(),
{
    if s.len() <= 1 {
        0
    } else {
        let j = soonest(s.drop_last());
        if s.last().expiry < s[j].expiry {
            s.len() - 1
        } else {
            j
        }
    }
}

/// `s` after the soonest-expiring entry was taken out `k` times over.
pub open spec fn drop_soonest(s: Seq<CacheRecordView>, k: nat) -> Seq<CacheRecordView>
    decreases k,
{
    if k == 0 || s.len() == 0 {
        s
    } else {
        drop_soonest(s.remove(soonest(s)), (k - 1) as nat)
    }
}

/// `s` cut down to `n` entries by taking out those that expire soonest.
pub open spec fn trim(s: Seq<CacheRecordView>, n: nat) -> Seq<CacheRecordView> {
    if s.len() <= n {
        s
    } else {
        drop_soonest(s, (s.len() - n) as nat)
    }
}

/// `s` with room for one more entry under `capacity`: unchanged if there is
/// room; else without its expired entries and, if that is not enough, cut
/// down by taking out those that expire soonest.
pub open spec fn make_room(s: Seq<CacheRecordView>, now: u64, capacity: nat) -> Seq<
    CacheRecordView,
>
    recommends
        capacity > 0,
{
    if s.len() < capacity {
        s
    } else {
        trim(drop_expired(s, now), (capacity - 1) as nat)
    }
}

/// The instant `ttl` seconds after `now`, or the last instant there is.
pub open spec fn expiry_of(now: u64, ttl: i64) -> u64 {
    if now + ttl > u64::MAX {
        u64::MAX
    } else if now + ttl < 0 {
        0
    } else {
        (now + ttl) as u64
    }
}

/// The entries after `records` were put for `name` and `qtype` at `now`.
///
/// The old entry for them leaves in any case. With a lifetime of zero or
/// less, or in a cache made for no entries, nothing comes in its place.
/// Otherwise room is made and the new entry is added with expiry
/// `now + ttl`.
pub open spec fn after_put(
    s: Seq<CacheRecordView>,
    name: Seq<Seq<u8>>,
    qtype: u16,
    records: Seq<RecordView>,
    ttl: i64,
    now: u64,
    capacity: nat,
) -> Seq<CacheRecordView> {
    let rest = without_key(s, name, qtype);
    if ttl <= 0 || capacity == 0 {
        rest
    } else {
        make_room(rest, now, capacity).push(
            CacheRecordView {
                name: canonical(name),
                qtype,
                records,
                expiry: expiry_of(now, ttl),
                inserted: now,
            },
        )
    }
}

/// A sweep leaves no more entries than there were.
pub proof fn lemma_staying_len(s: Seq<CacheRecordView>, rule: Leaving)
    ensures
        staying(s, rule).len() <= s.len(),
    decreases s.len(),
{
    if s.len() > 0 {
        lemma_staying_len(s.drop_last(), rule);
    }
}

pub proof fn lemma_soonest_in_range(s: Seq<CacheRecordView>)
    requires
        s.len() > 0,
    ensures
        0 <= soonest(s) < s.len(),
    decreases s.len(),
{
    if s.len() > 1 {
        lemma_soonest_in_range(s.drop_last());
    }
}

pub proof fn lemma_drop_soonest_len(s: Seq<CacheRecordView>, k: nat)
    requires
        k <= s.len(),
    ensures
        drop_soonest(s, k).len() == s.len() - k,
    decreases k,
{
    if k > 0 && s.len() > 0 {
        lemma_soonest_in_range(s);
        lemma_drop_soonest_len(s.remove(soonest(s)), (k - 1) as nat);
    }
}

pub proof fn lemma_trim_step(s: Seq<CacheRecordView>, n: nat)
    requires
        s.len() > n,
    ensures
        trim(s, n) == trim(s.remove(soonest(s)), n),
{
    lemma_soonest_in_range(s);
    let t = s.remove(soonest(s));
    assert(t.len() == s.len() - 1);
    assert(drop_soonest(s, (s.len() - n) as nat) == drop_soonest(t, (s.len() - n - 1) as nat));
    if t.len() <= n {
        assert(drop_soonest(t, 0) == t);
    }
}

/// Which entries a sweep takes out.
enum Sweep<'a> {
    /// Those for this name and type.
    Key(&'a Name, u16),
    /// Those whose expiry has come at this instant.
    Expired(u64),
}

impl<'a> View for Sweep<'a> {
    type V = Leaving;

    closed spec fn view(&self) -> Leaving {
        match self {
            Sweep::Key(name, qtype) => Leaving::Key(name@, *qtype),
            Sweep::Expired(now) => Leaving::Expired(*now),
        }
    }
}

/// Whether the sweep takes `e` out.
fn swept(rule: &Sweep, e: &CacheRecord) -> (out: bool)
    ensures
        out == leaves(rule@, e@),
{
    match rule {
        Sweep::Key(name, qtype) => e.qtype == *qtype && e.name.matches(name),
        Sweep::Expired(now) => e.expiry <= *now,
    }
}

/// Takes out every entry that leaves under `rule` and keeps the others in their order.
fn sweep(entries: &mut Vec<CacheRecord>, rule: &Sweep)
    ensures
        entries_view(final(entries)@) == staying(entries_view(old(entries)@), rule@),
{
    let ghost orig = entries_view(entries@);
    let ghost mut k: int = 0;
    let mut i: usize = 0;
    assert(entries_view(entries@).take(0) =~= staying(orig.take(0), rule@));
    assert(entries_view(entries@).skip(0) =~= orig.skip(0));
    while i < entries.len()
        invariant
            i <= entries@.len(),
            0 <= k <= orig.len(),
            entries@.len() - i == orig.len() - k,
            entries_view(entries@).take(i as int) == staying(orig.take(k), rule@),
            entries_view(entries@).skip(i as int) == orig.skip(k),
        decreases entries@.len() - i,
    {
        let ghost cur = entries_view(entries@);
        proof {
            assert(cur.skip(i as int)[0] == orig.skip(k)[0]);
            assert(cur[i as int] == orig[k]);
            assert(orig.take(k + 1).drop_last() =~= orig.take(k));
            assert(orig.take(k + 1).last() == orig[k]);
        }
        if swept(rule, &entries[i]) {
            entries.remove(i);
            proof {
                let next = entries_view(entries@);
                assert(next =~= cur.remove(i as int));
                assert(next.take(i as int) =~= cur.take(i as int));
                assert(next.skip(i as int) =~= cur.skip(i as int).skip(1));
                assert(orig.skip(k + 1) =~= orig.skip(k).skip(1));
                k = k + 1;
            }
        } else {
            proof {
                assert(cur.take(i + 1) =~= cur.take(i as int).push(cur[i as int]));
                assert(cur.skip(i + 1) =~= cur.skip(i as int).skip(1));
                assert(orig.skip(k + 1) =~= orig.skip(k).skip(1));
                k = k + 1;
            }
            i += 1;
        }
    }
    proof {
        let fin = entries_view(entries@);
        assert(fin.take(i as int) =~= fin);
        assert(orig.take(k) =~= orig);
    }
}

/// Takes out the entry that expires soonest.
fn remove_soonest(entries: &mut Vec<CacheRecord>)
    requires
        old(entries)@.len() > 0,
    ensures
        entries_view(final(entries)@) == entries_view(old(entries)@).remove(
            soonest(entries_view(old(entries)@)),
        ),
        final(entries)@.len() == old(entries)@.len() - 1,
{
    let ghost view = entries_view(entries@);
    let mut best: usize = 0;
    let mut i: usize = 1;
    assert(view.take(1).len() == 1);
    while i < entries.len()
        invariant
            1 <= i <= entries@.len(),
            view == entries_view(entries@),
            best < i,
            best == soonest(view.take(i as int)),
        decreases entries@.len() - i,
    {
        proof {
            assert(view.take(i + 1).drop_last() =~= view.take(i as int));
            assert(view.take(i + 1).last() == view[i as int]);
            assert(view.take(i + 1)[best as int] == view[best as int]);
        }
        if entries[i].expiry < entries[best].expiry {
            best = i;
        }
        i += 1;
    }
    assert(view.take(i as int) =~= view);
    entries.remove(best);
    assert(entries_view(entries@) =~= view.remove(best as int));
}

/// Copies `rs`, giving each record the lifetime `ttl`.
pub fn records_with_ttl(rs: &Vec<Record>, ttl: u32) -> (out: Vec<Record>)
    ensures
        records_view(out@) == with_ttl(records_view(rs@), ttl),
{
    let mut out: Vec<Record> = Vec::new();
    let mut i: usize = 0;
    while i < rs.len()
        invariant
            i <= rs.len(),
            out@.len() == i,
            forall|j: int|
                0 <= j < i ==> (#[trigger] out@[j])@ == with_ttl(records_view(rs@), ttl)[j],
        decreases rs.len() - i,
    {
        let r = &rs[i];
        let rdata: Vec<u8> = r.rdata.clone();
        assert(rdata@ =~= r.rdata@);
        out.push(Record { name: r.name.clone(), rtype: r.rtype, class: r.class, ttl, rdata });
        i += 1;
    }
    assert(records_view(out@) =~= with_ttl(records_view(rs@), ttl));
    out
}

/// The answer cache. It never holds more entries than it was made for.
pub struct DnsCache {
    entries: Vec<CacheRecord>,
    capacity: usize,
}

impl View for DnsCache {
    type V = Seq<CacheRecordView>;

    closed spec fn view(&self) -> Seq<CacheRecordView> {
        entries_view(self.entries@)
    }
}

impl DnsCache {
    /// The most entries the cache may hold.
    pub closed spec fn capacity(&self) -> nat {
        self.capacity as nat
    }

    /// The cache is within its bound and holds one entry at most for a name and type.
    pub open spec fn wf(&self) -> bool {
        &&& self@.len() <= self.capacity()
        &&& unique_keys(self@)
    }

    /// An empty cache that will hold at most `max_entries` entries.
    pub fn new(max_entries: usize) -> (c: DnsCache)
        ensures
            c.wf(),
            c@ == Seq::<CacheRecordView>::empty(),
            c.capacity() == max_entries,
    {
        let c = DnsCache { entries: Vec::new(), capacity: max_entries };
        assert(c@ =~= Seq::<CacheRecordView>::empty());
        c
    }

    /// How many entries the cache holds, expired ones that were not yet removed included.
    pub fn len(&self) -> (n: usize)
        ensures
            n == self@.len(),
    {
        self.entries.len()
    }

    /// The bound the cache was made with.
    pub fn max_entries(&self) -> (n: usize)
        ensures
            n == self.capacity(),
    {
        self.capacity
    }

    /// The cached answer for `name` and `qtype` at `now`.
    ///
    /// Absent if nothing is cached for them or if `now` has reached the
    /// entry's expiry; such an entry stays until it is evicted. A present
    /// answer carries the lifetime that is left.
    pub fn get(&self, name: &Name, qtype: u16, now: u64) -> (r: Option<Vec<Record>>)
        ensures
            match cached_answer(self@, name@, qtype, now) {
                Some(rs) => r matches Some(v) && records_view(v@) == rs,
                None => r is None,
            },
    {
        let mut i: usize = 0;
        while i < self.entries.len()
            invariant
                i <= self.entries.len(),
                self@.len() == self.entries@.len(),
                forall|j: int| 0 <= j < i ==> !has_key(#[trigger] self@[j], name@, qtype),
            decreases self.entries.len() - i,
        {
            let e = &self.entries[i];
            if e.qtype == qtype && e.name.matches(name) {
                proof {
                    lemma_entry_for_first(self@, name@, qtype, i as int);
                }
                if now < e.expiry {
                    let left: u64 = e.expiry - now;
                    let ttl: u32 = if left > 0xffff_ffff {
                        0xffff_ffff
                    } else {
                        left as u32
                    };
                    return Some(records_with_ttl(&e.records, ttl));
                } else {
                    return None;
                }
            }
            i += 1;
        }
        proof {
            lemma_entry_for_none(self@, name@, qtype);
        }
        None
    }

    /// Stores `records` as the answer for `name` and `qtype`, valid for
    /// `ttl` seconds from `now`.
    ///
    /// The entry that was there for them is replaced. A lifetime of zero or
    /// less stores nothing. If the cache is full, the entries whose expiry
    /// has come leave first, and if it is still full, the one that expires
    /// soonest does: the result is exactly [`after_put`].
    pub fn put(&mut self, name: &Name, qtype: u16, records: Vec<Record>, ttl: i64, now: u64)
        requires
            old(self).wf(),
        ensures
            final(self).wf(),
            final(self).capacity() == old(self).capacity(),
            final(self)@ == after_put(
                old(self)@,
                name@,
                qtype,
                records_view(records@),
                ttl,
                now,
                old(self).capacity(),
            ),
    {
        let ghost start = self@;
        proof {
            lemma_staying_len(start, Leaving::Key(name@, qtype));
            lemma_put_unique(
                start,
                name@,
                qtype,
                records_view(records@),
                ttl,
                now,
                self.capacity as nat,
            );
        }
        sweep(&mut self.entries, &Sweep::Key(name, qtype));
        if ttl <= 0 || self.capacity == 0 {
            return;
        }
        let ghost rest = self@;
        if self.entries.len() >= self.capacity {
            sweep(&mut self.entries, &Sweep::Expired(now));
            let ghost fresh = self@;
            let target: usize = self.capacity - 1;
            proof {
                lemma_staying_len(rest, Leaving::Expired(now));
            }
            while self.entries.len() > target
                invariant
                    target == self.capacity - 1,
                    self.capacity == old(self).capacity,
                    self@.len() <= fresh.len(),
                    trim(fresh, target as nat) == trim(self@, target as nat),
                decreases self.entries@.len(),
            {
                proof {
                    lemma_trim_step(self@, target as nat);
                }
                remove_soonest(&mut self.entries);
            }
        }
        assert(self@ == make_room(rest, now, self.capacity as nat));
        let expiry: u64 = if ttl as u64 > u64::MAX - now {
            u64::MAX
        } else {
            now + ttl as u64
        };
        let ghost before = self@;
        self.entries.push(
            CacheRecord { name: name.to_canonical(), qtype, records, expiry, inserted: now },
        );
        assert(self@ =~= before.push(
            CacheRecordView {
                name: canonical(name@),
                qtype,
                records: records_view(records@),
                expiry: expiry_of(now, ttl),
                inserted: now,
            },
        ));
    }

    /// Removes every entry whose expiry has come at `now`.
    pub fn evict(&mut self, now: u64)
        requires
            old(self).wf(),
        ensures
            final(self).wf(),
            final(self).capacity() == old(self).capacity(),
            final(self)@ == drop_expired(old(self)@, now),
    {
        proof {
            lemma_staying_len(self@, Leaving::Expired(now));
            lemma_evict_unique(self@, now);
        }
        sweep(&mut self.entries, &Sweep::Expired(now));
    }
}

} // verus!
