//! The structured form of a DNS message and its mathematical view.

use vstd::prelude::*;
use crate::name::{name_wf, Name};
use crate::wire::{message_wf, questions_wf, record_wf, records_wf};

verus! {

/// Record type of an IPv4 host address.
pub const TYPE_A: u16 = 1;

/// The Internet class, the only one this engine resolves.
pub const CLASS_IN: u16 = 1;

/// Result code: the query was answered.
pub const RCODE_NOERROR: u8 = 0;

/// Result code: the query could not be interpreted.
pub const RCODE_FORMERR: u8 = 1;

/// Result code: the server failed to obtain an answer.
pub const RCODE_SERVFAIL: u8 = 2;

/// Result code: the name does not exist.
pub const RCODE_NXDOMAIN: u8 = 3;

/// The fields of the sixteen-bit flags word of a header.
#[derive(Clone, Copy, Debug, PartialEq, Eq)]
pub struct Flags {
    pub qr: bool,
    pub opcode: u8,
    pub aa: bool,
    pub tc: bool,
    pub rd: bool,
    pub ra: bool,
    pub z: u8,
    pub rcode: u8,
}

/// Every field fits the bits the flags word gives it.
pub open spec fn flags_wf(f: Flags) -> bool {
    f.opcode < 16 && f.z < 8 && f.rcode < 16
}

pub open spec fn bit(b: bool) -> int {
    if b {
        1
    } else {
        0
    }
}

/// The flags word that carries `f`; a field too wide for its bits is reduced to them.
pub open spec fn pack_flags(f: Flags) -> u16 {
    (bit(f.qr) * 32768 + (f.opcode % 16) * 2048 + bit(f.aa) * 1024 + bit(f.tc) * 512 + bit(f.rd)
        * 256 + bit(f.ra) * 128 + (f.z % 8) * 16 + (f.rcode % 16)) as u16
}

/// The fields that the flags word `w` carries.
pub open spec fn unpack_flags(w: u16) -> Flags {
    Flags {
        qr: w / 32768 == 1,
        opcode: ((w / 2048) % 16) as u8,
        aa: (w / 1024) % 2 == 1,
        tc: (w / 512) % 2 == 1,
        rd: (w / 256) % 2 == 1,
        ra: (w / 128) % 2 == 1,
        z: ((w / 16) % 8) as u8,
        rcode: (w % 16) as u8,
    }
}

impl Flags {
    /// Splits a flags word into its fields.
    pub fn from_bits(w: u16) -> (f: Flags)
        ensures
            f == unpack_flags(w),
            flags_wf(f),
    {
        Flags {
            qr: w / 32768 == 1,
            opcode: ((w / 2048) % 16) as u8,
            aa: (w / 1024) % 2 == 1,
            tc: (w / 512) % 2 == 1,
            rd: (w / 256) % 2 == 1,
            ra: (w / 128) % 2 == 1,
            z: ((w / 16) % 8) as u8,
            rcode: (w % 16) as u8,
        }
    }

    /// Joins the fields into a flags word.
    pub fn to_bits(&self) -> (w: u16)
        ensures
            w == pack_flags(*self),
    {
        let qr: u16 = if self.qr { 32768 } else { 0 };
        let aa: u16 = if self.aa { 1024 } else { 0 };
        let tc: u16 = if self.tc { 512 } else { 0 };
        let rd: u16 = if self.rd { 256 } else { 0 };
        let ra: u16 = if self.ra { 128 } else { 0 };
        let opcode: u16 = (self.opcode % 16) as u16;
        let z: u16 = (self.z % 8) as u16;
        let rcode: u16 = (self.rcode % 16) as u16;
        qr + opcode * 2048 + aa + tc + rd + ra + z * 16 + rcode
    }
}

proof fn lemma_word_digits(w: u16)
    by (bit_vector)
    ensures
        w / 32768 == 0 || w / 32768 == 1,
        (w / 32768) * 32768 + ((w / 2048) % 16) * 2048 + ((w / 1024) % 2) * 1024 + ((w / 512) % 2)
            * 512 + ((w / 256) % 2) * 256 + ((w / 128) % 2) * 128 + ((w / 16) % 8) * 16 + w % 16
            == w,
{
}

proof fn lemma_digits_word(
    qr: u16,
    opcode: u16,
    aa: u16,
    tc: u16,
    rd: u16,
    ra: u16,
    z: u16,
    rcode: u16,
    w: u16,
)
    by (bit_vector)
    requires
        qr < 2,
        opcode < 16,
        aa < 2,
        tc < 2,
        rd < 2,
        ra < 2,
        z < 8,
        rcode < 16,
        w == qr * 32768 + opcode * 2048 + aa * 1024 + tc * 512 + rd * 256 + ra * 128 + z * 16
            + rcode,
    ensures
        w / 32768 == qr,
        (w / 2048) % 16 == opcode,
        (w / 1024) % 2 == aa,
        (w / 512) % 2 == tc,
        (w / 256) % 2 == rd,
        (w / 128) % 2 == ra,
        (w / 16) % 8 == z,
        w % 16 == rcode,
{
}

/// Splitting a flags word and joining the fields again gives the word back.
pub proof fn lemma_pack_unpack(w: u16)
    ensures
        pack_flags(unpack_flags(w)) == w,
{
    lemma_word_digits(w);
}

/// Joining well-formed fields and splitting the word again gives the fields back.
pub proof fn lemma_unpack_pack(f: Flags)
    requires
        flags_wf(f),
    ensures
        unpack_flags(pack_flags(f)) == f,
{
    let w = pack_flags(f);
    lemma_digits_word(
        bit(f.qr) as u16,
        f.opcode as u16,
        bit(f.aa) as u16,
        bit(f.tc) as u16,
        bit(f.rd) as u16,
        bit(f.ra) as u16,
        f.z as u16,
        f.rcode as u16,
        w,
    );
}

/// One entry of the question section.
#[derive(Debug, PartialEq, Eq)]
pub struct Question {
    pub name: Name,
    pub qtype: u16,
    pub qclass: u16,
}

/// Mathematical view of a [`Question`].
pub ghost struct QuestionView {
    pub name: Seq<Seq<u8>>,
    pub qtype: u16,
    pub qclass: u16,
}

impl View for Question {
    type V = QuestionView;

    open spec fn view(&self) -> QuestionView {
        QuestionView { name: self.name@, qtype: self.qtype, qclass: self.qclass }
    }
}

impl Clone for Question {
    fn clone(&self) -> (r: Self)
        ensures
            r@ == self@,
    {
        Question { name: self.name.clone(), qtype: self.qtype, qclass: self.qclass }
    }
}

/// One resource record with its data as raw bytes.
#[derive(Debug, PartialEq, Eq)]
pub struct Record {
    pub name: Name,
    pub rtype: u16,
    pub class: u16,
    pub ttl: u32,
    pub rdata: Vec<u8>,
}

/// Mathematical view of a [`Record`].
pub ghost struct RecordView {
    pub name: Seq<Seq<u8>>,
    pub rtype: u16,
    pub class: u16,
    pub ttl: u32,
    pub rdata: Seq<u8>,
}

impl View for Record {
    type V = RecordView;

    open spec fn view(&self) -> RecordView {
        RecordView {
            name: self.name@,
            rtype: self.rtype,
            class: self.class,
            ttl: self.ttl,
            rdata: self.rdata@,
        }
    }
}

impl Clone for Record {
    fn clone(&self) -> (r: Self)
        ensures
            r@ == self@,
    {
        let rdata: Vec<u8> = self.rdata.clone();
        assert(rdata@ =~= self.rdata@);
        Record {
            name: self.name.clone(),
            rtype: self.rtype,
            class: self.class,
            ttl: self.ttl,
            rdata,
        }
    }
}

/// The views of a run of questions.
pub open spec fn questions_view(qs: Seq<Question>) -> Seq<QuestionView> {
    Seq::new(qs.len(), |i: int| qs[i]@)
}

/// The views of a run of records.
pub open spec fn records_view(rs: Seq<Record>) -> Seq<RecordView> {
    Seq::new(rs.len(), |i: int| rs[i]@)
}

/// Copies a run of records.
pub fn clone_records(rs: &Vec<Record>) -> (out: Vec<Record>)
    ensures
        records_view(out@) == records_view(rs@),
{
    let mut out: Vec<Record> = Vec::new();
    let mut i: usize = 0;
    while i < rs.len()
        invariant
            i <= rs.len(),
            out@.len() == i,
            forall|j: int| 0 <= j < i ==> (#[trigger] out@[j])@ == rs@[j]@,
        decreases rs.len() - i,
    {
        out.push(rs[i].clone());
        i += 1;
    }
    assert(records_view(out@) =~= records_view(rs@));
    out
}

/// Copies a run of questions.
pub fn clone_questions(qs: &Vec<Question>) -> (out: Vec<Question>)
    ensures
        questions_view(out@) == questions_view(qs@),
{
    let mut out: Vec<Question> = Vec::new();
    let mut i: usize = 0;
    while i < qs.len()
        invariant
            i <= qs.len(),
            out@.len() == i,
            forall|j: int| 0 <= j < i ==> (#[trigger] out@[j])@ == qs@[j]@,
        decreases qs.len() - i,
    {
        out.push(qs[i].clone());
        i += 1;
    }
    assert(questions_view(out@) =~= questions_view(qs@));
    out
}

/// A whole message. The section counts of the header are the lengths of the sections.
#[derive(Debug, PartialEq, Eq)]
pub struct Message {
    pub id: u16,
    pub flags: u16,
    pub questions: Vec<Question>,
    pub answers: Vec<Record>,
    pub authorities: Vec<Record>,
    pub additionals: Vec<Record>,
}

/// Mathematical view of a [`Message`].
pub ghost struct MessageView {
    pub id: u16,
    pub flags: u16,
    pub questions: Seq<QuestionView>,
    pub answers: Seq<RecordView>,
    pub authorities: Seq<RecordView>,
    pub additionals: Seq<RecordView>,
}

impl View for Message {
    type V = MessageView;

    open spec fn view(&self) -> MessageView {
        MessageView {
            id: self.id,
            flags: self.flags,
            questions: questions_view(self.questions@),
            answers: records_view(self.answers@),
            authorities: records_view(self.authorities@),
            additionals: records_view(self.additionals@),
        }
    }
}

impl Clone for Message {
    fn clone(&self) -> (r: Self)
        ensures
            r@ == self@,
    {
        Message {
            id: self.id,
            flags: self.flags,
            questions: clone_questions(&self.questions),
            answers: clone_records(&self.answers),
            authorities: clone_records(&self.authorities),
            additionals: clone_records(&self.additionals),
        }
    }
}

impl Record {
    /// Whether the name is well formed and the data fits a sixteen-bit length.
    pub fn is_well_formed(&self) -> (ok: bool)
        ensures
            ok == record_wf(self@),
    {
        self.rdata.len() <= 65535 && self.name.is_well_formed()
    }
}

/// Whether a section of records is well formed.
pub fn records_well_formed(rs: &Vec<Record>) -> (ok: bool)
    ensures
        ok == records_wf(records_view(rs@)),
{
    if rs.len() > 65535 {
        return false;
    }
    let mut i: usize = 0;
    while i < rs.len()
        invariant
            i <= rs.len(),
            forall|j: int| 0 <= j < i ==> record_wf(#[trigger] records_view(rs@)[j]),
        decreases rs.len() - i,
    {
        if !rs[i].is_well_formed() {
            assert(!record_wf(records_view(rs@)[i as int]));
            return false;
        }
        i += 1;
    }
    true
}

/// Whether a question section is well formed.
pub fn questions_well_formed(qs: &Vec<Question>) -> (ok: bool)
    ensures
        ok == questions_wf(questions_view(qs@)),
{
    if qs.len() > 65535 {
        return false;
    }
    let mut i: usize = 0;
    while i < qs.len()
        invariant
            i <= qs.len(),
            forall|j: int| 0 <= j < i ==> name_wf((#[trigger] questions_view(qs@)[j]).name),
        decreases qs.len() - i,
    {
        if !qs[i].name.is_well_formed() {
            assert(!name_wf(questions_view(qs@)[i as int].name));
            return false;
        }
        i += 1;
    }
    true
}

impl Message {
    /// Whether the message is one that decoding can give back: see [`message_wf`].
    pub fn is_well_formed(&self) -> (ok: bool)
        ensures
            ok == message_wf(self@),
    {
        questions_well_formed(&self.questions) && records_well_formed(&self.answers)
            && records_well_formed(&self.authorities) && records_well_formed(&self.additionals)
    }
}

} // verus!
