//! Domain names as ordered sequences of byte labels.

use vstd::prelude::*;
use vstd::utf8::{
    decode_first_codepoint, length_of_first_codepoint, pop_first_scalar, valid_first_scalar,
    valid_utf8,
};

verus! {

/// Longest label the wire format can carry.
pub const MAX_LABEL_LEN: usize = 63;

/// Most labels a name may have.
pub const MAX_LABELS: usize = 128;

/// A label is one to sixty-three bytes of valid UTF-8.
pub open spec fn label_wf(l: Seq<u8>) -> bool {
    &&& 1 <= l.len() <= MAX_LABEL_LEN
    &&& valid_utf8(l)
}

/// A name is at most [`MAX_LABELS`] well-formed labels.
pub open spec fn name_wf(n: Seq<Seq<u8>>) -> bool {
    &&& n.len() <= MAX_LABELS
    &&& forall|i: int| 0 <= i < n.len() ==> label_wf(#[trigger] n[i])
}

/// ASCII lower-casing of one byte. Only the capital letters `A` to `Z`
/// change; the bytes of longer scalars stay as they are.
pub open spec fn lower(b: u8) -> u8 {
    if 0x41 <= b <= 0x5a {
        (b + 32) as u8
    } else {
        b
    }
}

/// A label with every byte lower-cased.
pub open spec fn canonical_label(l: Seq<u8>) -> Seq<u8> {
    Seq::new(l.len(), |i: int| lower(l[i]))
}

/// The canonical form of a name, under which stores and caches key it.
pub open spec fn canonical(n: Seq<Seq<u8>>) -> Seq<Seq<u8>> {
    Seq::new(n.len(), |i: int| canonical_label(n[i]))
}

/// Two names denote the same owner when their canonical forms agree.
pub open spec fn same_name(a: Seq<Seq<u8>>, b: Seq<Seq<u8>>) -> bool {
    canonical(a) == canonical(b)
}

/// The labels of `n` written one after another with a dot between each two.
pub open spec fn dotted(n: Seq<Seq<u8>>) -> Seq<u8>
    decreases n.len(),
{
    if n.len() == 0 {
        Seq::empty()
    } else if n.len() == 1 {
        n[0]
    } else {
        dotted(n.drop_last()) + seq![0x2eu8] + n.last()
    }
}

/// Whether `l` is valid UTF-8: a run of scalars, each encoded in one to
/// four bytes in the shortest form, none of them a surrogate.
pub fn utf8_ok(l: &[u8]) -> (ok: bool)
    ensures
        ok == valid_utf8(l@),
{
    let n: usize = l.len();
    let mut i: usize = 0;
    assert(l@.subrange(0, n as int) =~= l@);
    while i < n
        invariant
            i <= n,
            n == l@.len(),
            valid_utf8(l@) == valid_utf8(l@.subrange(i as int, n as int)),
        decreases n - i,
    {
        let ghost rest = l@.subrange(i as int, n as int);
        let b0: u8 = l[i];
        assert(rest[0] == b0);
        let width: usize;
        let cp: u32;
        if b0 <= 0x7f {
            width = 1;
            cp = (b0 & 0x7f) as u32;
        } else if 0xc0 <= b0 && b0 <= 0xdf {
            if n - i < 2 {
                return false;
            }
            let b1: u8 = l[i + 1];
            assert(rest[1] == b1);
            if !(0x80 <= b1 && b1 <= 0xbf) {
                return false;
            }
            width = 2;
            cp = (((b0 & 0x1f) as u32) << 6) | ((b1 & 0x3f) as u32);
        } else if 0xe0 <= b0 && b0 <= 0xef {
            if n - i < 3 {
                return false;
            }
            let b1: u8 = l[i + 1];
            let b2: u8 = l[i + 2];
            assert(rest[1] == b1 && rest[2] == b2);
            if !(0x80 <= b1 && b1 <= 0xbf && 0x80 <= b2 && b2 <= 0xbf) {
                return false;
            }
            width = 3;
            cp = (((b0 & 0x0f) as u32) << 12) | (((b1 & 0x3f) as u32) << 6) | ((b2 & 0x3f) as u32);
        } else if 0xf0 <= b0 && b0 <= 0xf7 {
            if n - i < 4 {
                return false;
            }
            let b1: u8 = l[i + 1];
            let b2: u8 = l[i + 2];
            let b3: u8 = l[i + 3];
            assert(rest[1] == b1 && rest[2] == b2 && rest[3] == b3);
            if !(0x80 <= b1 && b1 <= 0xbf && 0x80 <= b2 && b2 <= 0xbf && 0x80 <= b3 && b3
                <= 0xbf) {
                return false;
            }
            width = 4;
            cp = (((b0 & 0x07) as u32) << 18) | (((b1 & 0x3f) as u32) << 12) | (((b2 & 0x3f)
                as u32) << 6) | ((b3 & 0x3f) as u32);
        } else {
            return false;
        }
        assert(cp == decode_first_codepoint(rest));
        assert(width == length_of_first_codepoint(rest));
        if (width == 2 && cp < 0x80) || (width == 3 && cp < 0x800) || (width == 4 && (cp < 0x10000
            || cp > 0x10ffff)) || (0xd800 <= cp && cp <= 0xdfff) {
            return false;
        }
        assert(valid_first_scalar(rest));
        assert(pop_first_scalar(rest) =~= l@.subrange(i + width, n as int));
        i += width;
    }
    true
}

/// Executable form of [`lower`].
pub fn lower_byte(b: u8) -> (r: u8)
    ensures
        r == lower(b),
{
    if 0x41 <= b && b <= 0x5a {
        b + 32
    } else {
        b
    }
}

/// Executable form of [`label_wf`] on a byte slice.
pub fn label_ok(l: &[u8]) -> (ok: bool)
    ensures
        ok == label_wf(l@),
{
    1 <= l.len() && l.len() <= MAX_LABEL_LEN && utf8_ok(l)
}

/// Whether two labels agree up to ASCII case.
pub fn label_matches(a: &[u8], b: &[u8]) -> (same: bool)
    ensures
        same == (canonical_label(a@) == canonical_label(b@)),
{
    if a.len() != b.len() {
        assert(canonical_label(a@).len() != canonical_label(b@).len());
        return false;
    }
    let mut i: usize = 0;
    while i < a.len()
        invariant
            i <= a.len(),
            a.len() == b.len(),
            forall|j: int| 0 <= j < i ==> lower(#[trigger] a@[j]) == lower(b@[j]),
        decreases a.len() - i,
    {
        if lower_byte(a[i]) != lower_byte(b[i]) {
            assert(canonical_label(a@)[i as int] != canonical_label(b@)[i as int]);
            return false;
        }
        i += 1;
    }
    assert(canonical_label(a@) =~= canonical_label(b@));
    true
}

/// A domain name: its labels from the leftmost to the one below the root.
#[derive(Debug, PartialEq, Eq)]
pub struct Name {
    pub labels: Vec<Vec<u8>>,
}

impl View for Name {
    type V = Seq<Seq<u8>>;

    open spec fn view(&self) -> Seq<Seq<u8>> {
        Seq::new(self.labels@.len(), |i: int| self.labels@[i]@)
    }
}

impl Clone for Name {
    fn clone(&self) -> (r: Self)
        ensures
            r@ == self@,
    {
        let mut labels: Vec<Vec<u8>> = Vec::new();
        let mut i: usize = 0;
        while i < self.labels.len()
            invariant
                i <= self.labels.len(),
                labels@.len() == i,
                forall|j: int| 0 <= j < i ==> (#[trigger] labels@[j])@ == self.labels@[j]@,
            decreases self.labels.len() - i,
        {
            let l: Vec<u8> = self.labels[i].clone();
            assert(l@ =~= self.labels@[i as int]@);
            labels.push(l);
            i += 1;
        }
        let r = Name { labels };
        assert(r@ =~= self@);
        r
    }
}

impl Name {
    /// The root name, which has no labels.
    pub fn root() -> (r: Name)
        ensures
            r@ == Seq::<Seq<u8>>::empty(),
    {
        let r = Name { labels: Vec::new() };
        assert(r@ =~= Seq::<Seq<u8>>::empty());
        r
    }

    /// Whether every label is well formed and there are not too many of them.
    pub fn is_well_formed(&self) -> (ok: bool)
        ensures
            ok == name_wf(self@),
    {
        if self.labels.len() > MAX_LABELS {
            return false;
        }
        let mut i: usize = 0;
        while i < self.labels.len()
            invariant
                i <= self.labels.len(),
                forall|j: int| 0 <= j < i ==> label_wf(#[trigger] self@[j]),
            decreases self.labels.len() - i,
        {
            if !label_ok(self.labels[i].as_slice()) {
                assert(!label_wf(self@[i as int]));
                return false;
            }
            i += 1;
        }
        true
    }

    /// The name with every label lower-cased.
    pub fn to_canonical(&self) -> (r: Name)
        ensures
            r@ == canonical(self@),
    {
        let mut labels: Vec<Vec<u8>> = Vec::new();
        let mut i: usize = 0;
        while i < self.labels.len()
            invariant
                i <= self.labels.len(),
                labels@.len() == i,
                forall|j: int|
                    0 <= j < i ==> (#[trigger] labels@[j])@ == canonical_label(self.labels@[j]@),
            decreases self.labels.len() - i,
        {
            let src = &self.labels[i];
            let mut l: Vec<u8> = Vec::new();
            let mut k: usize = 0;
            while k < src.len()
                invariant
                    k <= src.len(),
                    l@.len() == k,
                    forall|j: int| 0 <= j < k ==> #[trigger] l@[j] == lower(src@[j]),
                decreases src.len() - k,
            {
                l.push(lower_byte(src[k]));
                k += 1;
            }
            assert(l@ =~= canonical_label(src@));
            labels.push(l);
            i += 1;
        }
        let r = Name { labels };
        assert(r@ =~= canonical(self@));
        r
    }

    /// The name as text: its labels with a dot between each two, as in
    /// `www.example.com`. The root name is the empty text.
    pub fn to_dotted(&self) -> (text: Vec<u8>)
        ensures
            text@ == dotted(self@),
    {
        let mut text: Vec<u8> = Vec::new();
        let mut i: usize = 0;
        assert(self@.take(0) =~= Seq::<Seq<u8>>::empty());
        while i < self.labels.len()
            invariant
                i <= self.labels.len(),
                self@.len() == self.labels@.len(),
                text@ == dotted(self@.take(i as int)),
            decreases self.labels.len() - i,
        {
            proof {
                assert(self@.take(i + 1).drop_last() =~= self@.take(i as int));
                assert(self@.take(i + 1).last() == self.labels@[i as int]@);
            }
            if i > 0 {
                text.push(0x2e);
            }
            let label = &self.labels[i];
            let ghost before = text@;
            let mut k: usize = 0;
            while k < label.len()
                invariant
                    k <= label.len(),
                    text@ == before + label@.take(k as int),
                decreases label.len() - k,
            {
                text.push(label[k]);
                assert(text@ =~= before + label@.take(k + 1));
                k += 1;
            }
            assert(label@.take(label@.len() as int) =~= label@);
            assert(text@ =~= dotted(self@.take(i + 1)));
            i += 1;
        }
        assert(self@.take(self@.len() as int) =~= self@);
        text
    }

    /// Whether `self` and `other` are the same name up to ASCII case.
    pub fn matches(&self, other: &Name) -> (same: bool)
        ensures
            same == same_name(self@, other@),
    {
        if self.labels.len() != other.labels.len() {
            assert(canonical(self@).len() != canonical(other@).len());
            return false;
        }
        let mut i: usize = 0;
        while i < self.labels.len()
            invariant
                i <= self.labels.len(),
                self.labels.len() == other.labels.len(),
                forall|j: int|
                    0 <= j < i ==> canonical_label(#[trigger] self@[j]) == canonical_label(
                        other@[j],
                    ),
            decreases self.labels.len() - i,
        {
            if !label_matches(self.labels[i].as_slice(), other.labels[i].as_slice()) {
                assert(canonical(self@)[i as int] != canonical(other@)[i as int]);
                return false;
            }
            i += 1;
        }
        assert(canonical(self@) =~= canonical(other@));
        true
    }
}

/// Lower-casing a name twice is lower-casing it once.
pub proof fn lemma_canonical_idempotent(n: Seq<Seq<u8>>)
    ensures
        canonical(canonical(n)) == canonical(n),
{
    assert forall|i: int| 0 <= i < n.len() implies canonical_label(canonical_label(n[i]))
        == canonical_label(n[i]) by {
        assert(canonical_label(canonical_label(n[i])) =~= canonical_label(n[i]));
    }
    assert(canonical(canonical(n)) =~= canonical(n));
}

} // verus!
