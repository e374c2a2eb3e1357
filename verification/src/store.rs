//! The record store: the authoritative records, loaded as a whole.

use vstd::prelude::*;
use crate::message::{records_view, Record, RecordView, CLASS_IN};
use crate::name::{same_name, Name};

verus! {

/// One authoritative record as the configuration supplies it.
#[derive(Debug, PartialEq, Eq)]
pub struct ZoneEntry {
    pub name: Name,
    pub rtype: u16,
    pub ttl: u32,
    pub data: Vec<u8>,
}

/// The record that a zone entry stands for: the same fields, in the Internet class.
pub open spec fn entry_record(e: ZoneEntry) -> RecordView {
    RecordView { name: e.name@, rtype: e.rtype, class: CLASS_IN, ttl: e.ttl, rdata: e.data@ }
}

/// The records that a run of zone entries stands for, in the same order.
pub open spec fn entries_records(es: Seq<ZoneEntry>) -> Seq<RecordView> {
    Seq::new(es.len(), |i: int| entry_record(es[i]))
}

/// Whether a record answers a question for `name` and `qtype`: the names
/// agree up to case and the types are equal.
pub open spec fn record_matches(r: RecordView, name: Seq<Seq<u8>>, qtype: u16) -> bool {
    same_name(r.name, name) && r.rtype == qtype
}

/// The records among `rs` that answer `name` and `qtype`, in their order.
pub open spec fn matching(rs: Seq<RecordView>, name: Seq<Seq<u8>>, qtype: u16) -> Seq<RecordView>
    decreases rs.len(),
{
    if rs.len() == 0 {
        Seq::empty()
    } else if record_matches(rs.last(), name, qtype) {
        matching(rs.drop_last(), name, qtype).push(rs.last())
    } else {
        matching(rs.drop_last(), name, qtype)
    }
}

proof fn lemma_matching_push(rs: Seq<RecordView>, r: RecordView, name: Seq<Seq<u8>>, qtype: u16)
    ensures
        matching(rs.push(r), name, qtype) == if record_matches(r, name, qtype) {
            matching(rs, name, qtype).push(r)
        } else {
            matching(rs, name, qtype)
        },
{
    assert(rs.push(r).drop_last() =~= rs);
    assert(rs.push(r).last() == r);
}

/// The authoritative records, in the order in which they were loaded.
pub struct RecordStore {
    records: Vec<Record>,
}

impl View for RecordStore {
    type V = Seq<RecordView>;

    closed spec fn view(&self) -> Seq<RecordView> {
        records_view(self.records@)
    }
}

impl RecordStore {
    /// A store without records.
    pub fn new() -> (s: RecordStore)
        ensures
            s@ == Seq::<RecordView>::empty(),
    {
        let s = RecordStore { records: Vec::new() };
        assert(s@ =~= Seq::<RecordView>::empty());
        s
    }

    /// Replaces whatever the store held by the records of `entries`.
    ///
    /// The new contents are built aside and put in place in one step, so
    /// nothing is ever seen half loaded.
    pub fn load(&mut self, entries: Vec<ZoneEntry>)
        ensures
            final(self)@ == entries_records(entries@),
    {
        let mut records: Vec<Record> = Vec::new();
        let mut i: usize = 0;
        while i < entries.len()
            invariant
                i <= entries.len(),
                records@.len() == i,
                forall|j: int|
                    0 <= j < i ==> (#[trigger] records@[j])@ == entry_record(entries@[j]),
            decreases entries.len() - i,
        {
            let e = &entries[i];
            let data: Vec<u8> = e.data.clone();
            assert(data@ =~= e.data@);
            records.push(
                Record {
                    name: e.name.clone(),
                    rtype: e.rtype,
                    class: CLASS_IN,
                    ttl: e.ttl,
                    rdata: data,
                },
            );
            i += 1;
        }
        assert(records_view(records@) =~= entries_records(entries@));
        self.records = records;
    }

    /// How many records the store holds.
    pub fn len(&self) -> (n: usize)
        ensures
            n == self@.len(),
    {
        self.records.len()
    }

    /// The records for `name` and `qtype`, in load order; none if there are
    /// none. Names are compared without regard to case, and only whole
    /// names match.
    pub fn lookup(&self, name: &Name, qtype: u16) -> (found: Vec<Record>)
        ensures
            records_view(found@) == matching(self@, name@, qtype),
    {
        let mut found: Vec<Record> = Vec::new();
        let mut i: usize = 0;
        assert(self@.take(0) =~= Seq::<RecordView>::empty());
        assert(records_view(found@) =~= Seq::<RecordView>::empty());
        while i < self.records.len()
            invariant
                i <= self.records.len(),
                self@.len() == self.records@.len(),
                records_view(found@) == matching(self@.take(i as int), name@, qtype),
            decreases self.records.len() - i,
        {
            let r = &self.records[i];
            proof {
                assert(self@.take(i + 1) =~= self@.take(i as int).push(r@));
                lemma_matching_push(self@.take(i as int), r@, name@, qtype);
            }
            if r.rtype == qtype && r.name.matches(name) {
                let ghost before = records_view(found@);
                found.push(r.clone());
                assert(records_view(found@) =~= before.push(r@));
            }
            i += 1;
        }
        assert(self@.take(self@.len() as int) =~= self@);
        found
    }
}

} // verus!
