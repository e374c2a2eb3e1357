//! What holds of the answer cache, whatever it held before.

use vstd::prelude::*;
use crate::cache::{
    after_put, cached_answer, drop_expired, drop_soonest, expiry_of, has_key, leaves,
    lemma_drop_soonest_len, lemma_entry_for_first, lemma_entry_for_none, lemma_soonest_in_range,
    lemma_staying_len, make_room, soonest, staying, unique_keys, with_ttl, without_key,
    CacheRecordView, Leaving,
};
use crate::message::RecordView;
use crate::name::{canonical, lemma_canonical_idempotent};

verus! {

/// No entry of `s` is for `name` and `qtype`.
pub open spec fn no_key(s: Seq<CacheRecordView>, name: Seq<Seq<u8>>, qtype: u16) -> bool {
    forall|i: int| 0 <= i < s.len() ==> !has_key(#[trigger] s[i], name, qtype)
}

/// After the entries for a key were taken out, none is for that key.
pub proof fn lemma_without_key_clears(s: Seq<CacheRecordView>, name: Seq<Seq<u8>>, qtype: u16)
    ensures
        no_key(without_key(s, name, qtype), name, qtype),
    decreases s.len(),
{
    if s.len() > 0 {
        lemma_without_key_clears(s.drop_last(), name, qtype);
    }
}

/// A sweep brings in no entry for any key.
pub proof fn lemma_staying_keeps_no_key(
    s: Seq<CacheRecordView>,
    rule: Leaving,
    name: Seq<Seq<u8>>,
    qtype: u16,
)
    requires
        no_key(s, name, qtype),
    ensures
        no_key(staying(s, rule), name, qtype),
    decreases s.len(),
{
    if s.len() > 0 {
        assert forall|i: int| 0 <= i < s.drop_last().len() implies !has_key(
            #[trigger] s.drop_last()[i],
            name,
            qtype,
        ) by {
            assert(s.drop_last()[i] == s[i]);
        }
        lemma_staying_keeps_no_key(s.drop_last(), rule, name, qtype);
        assert(!has_key(s[s.len() - 1], name, qtype));
    }
}

proof fn lemma_remove_keeps_no_key(s: Seq<CacheRecordView>, k: int, name: Seq<Seq<u8>>, qtype: u16)
    requires
        0 <= k < s.len(),
        no_key(s, name, qtype),
    ensures
        no_key(s.remove(k), name, qtype),
{
    assert forall|i: int| 0 <= i < s.remove(k).len() implies !has_key(
        #[trigger] s.remove(k)[i],
        name,
        qtype,
    ) by {
        if i < k {
            assert(s.remove(k)[i] == s[i]);
        } else {
            assert(s.remove(k)[i] == s[i + 1]);
        }
    }
}

proof fn lemma_drop_soonest_keeps_no_key(
    s: Seq<CacheRecordView>,
    k: nat,
    name: Seq<Seq<u8>>,
    qtype: u16,
)
    requires
        no_key(s, name, qtype),
    ensures
        no_key(drop_soonest(s, k), name, qtype),
    decreases k,
{
    if k > 0 && s.len() > 0 {
        lemma_soonest_in_range(s);
        lemma_remove_keeps_no_key(s, soonest(s), name, qtype);
        lemma_drop_soonest_keeps_no_key(s.remove(soonest(s)), (k - 1) as nat, name, qtype);
    }
}

/// Making room brings in no entry for any key.
pub proof fn lemma_make_room_keeps_no_key(
    s: Seq<CacheRecordView>,
    now: u64,
    capacity: nat,
    name: Seq<Seq<u8>>,
    qtype: u16,
)
    requires
        no_key(s, name, qtype),
    ensures
        no_key(make_room(s, now, capacity), name, qtype),
{
    lemma_staying_keeps_no_key(s, Leaving::Expired(now), name, qtype);
    let fresh = drop_expired(s, now);
    if fresh.len() > capacity - 1 {
        lemma_drop_soonest_keeps_no_key(
            fresh,
            (fresh.len() - (capacity - 1) as nat) as nat,
            name,
            qtype,
        );
    }
}

/// A sweep leaves each key with one entry at most.
pub proof fn lemma_staying_unique(s: Seq<CacheRecordView>, rule: Leaving)
    requires
        unique_keys(s),
    ensures
        unique_keys(staying(s, rule)),
    decreases s.len(),
{
    if s.len() > 0 {
        let init = s.drop_last();
        let last = s.last();
        assert(unique_keys(init)) by {
            assert forall|i: int, j: int| 0 <= i < j < init.len() implies !has_key(
                #[trigger] init[i],
                (#[trigger] init[j]).name,
                init[j].qtype,
            ) by {
                assert(init[i] == s[i] && init[j] == s[j]);
            }
        }
        lemma_staying_unique(init, rule);
        if !leaves(rule, last) {
            assert(no_key(init, last.name, last.qtype)) by {
                assert forall|i: int| 0 <= i < init.len() implies !has_key(
                    #[trigger] init[i],
                    last.name,
                    last.qtype,
                ) by {
                    assert(init[i] == s[i]);
                    assert(s[s.len() - 1] == last);
                }
            }
            lemma_staying_keeps_no_key(init, rule, last.name, last.qtype);
        }
    }
}

proof fn lemma_remove_unique(s: Seq<CacheRecordView>, k: int)
    requires
        0 <= k < s.len(),
        unique_keys(s),
    ensures
        unique_keys(s.remove(k)),
{
    let t = s.remove(k);
    assert forall|i: int, j: int| 0 <= i < j < t.len() implies !has_key(
        #[trigger] t[i],
        (#[trigger] t[j]).name,
        t[j].qtype,
    ) by {
        let si = if i < k { i } else { i + 1 };
        let sj = if j < k { j } else { j + 1 };
        assert(t[i] == s[si] && t[j] == s[sj]);
    }
}

proof fn lemma_drop_soonest_unique(s: Seq<CacheRecordView>, k: nat)
    requires
        unique_keys(s),
    ensures
        unique_keys(drop_soonest(s, k)),
    decreases k,
{
    if k > 0 && s.len() > 0 {
        lemma_soonest_in_range(s);
        lemma_remove_unique(s, soonest(s));
        lemma_drop_soonest_unique(s.remove(soonest(s)), (k - 1) as nat);
    }
}

/// Taking out the expired entries leaves each key with one entry at most.
pub proof fn lemma_evict_unique(s: Seq<CacheRecordView>, now: u64)
    requires
        unique_keys(s),
    ensures
        unique_keys(drop_expired(s, now)),
{
    lemma_staying_unique(s, Leaving::Expired(now));
}

/// A put leaves each key with one entry at most.
pub proof fn lemma_put_unique(
    s: Seq<CacheRecordView>,
    name: Seq<Seq<u8>>,
    qtype: u16,
    records: Seq<RecordView>,
    ttl: i64,
    now: u64,
    capacity: nat,
)
    requires
        unique_keys(s),
    ensures
        unique_keys(after_put(s, name, qtype, records, ttl, now, capacity)),
{
    let rest = without_key(s, name, qtype);
    lemma_staying_unique(s, Leaving::Key(name, qtype));
    if ttl > 0 && capacity > 0 {
        let room = make_room(rest, now, capacity);
        lemma_staying_unique(rest, Leaving::Expired(now));
        let fresh = drop_expired(rest, now);
        if fresh.len() > capacity - 1 {
            lemma_drop_soonest_unique(fresh, (fresh.len() - (capacity - 1) as nat) as nat);
        }
        lemma_without_key_clears(s, name, qtype);
        lemma_make_room_keeps_no_key(rest, now, capacity, name, qtype);
        lemma_canonical_idempotent(name);
        let e = CacheRecordView {
            name: canonical(name),
            qtype,
            records,
            expiry: expiry_of(now, ttl),
            inserted: now,
        };
        let t = room.push(e);
        assert forall|i: int, j: int| 0 <= i < j < t.len() implies !has_key(
            #[trigger] t[i],
            (#[trigger] t[j]).name,
            t[j].qtype,
        ) by {
            if j < room.len() {
                assert(t[i] == room[i] && t[j] == room[j]);
            } else {
                assert(t[i] == room[i]);
                assert(!has_key(room[i], name, qtype));
            }
        }
    }
}

/// An answer put with a lifetime of zero or less is absent at once, and
/// so is whatever was cached for the same name and type before.
pub proof fn lemma_put_without_lifetime_absent(
    s: Seq<CacheRecordView>,
    name: Seq<Seq<u8>>,
    qtype: u16,
    records: Seq<RecordView>,
    ttl: i64,
    now: u64,
    capacity: nat,
    at: u64,
)
    requires
        ttl <= 0,
    ensures
        cached_answer(after_put(s, name, qtype, records, ttl, now, capacity), name, qtype, at)
            is None,
{
    lemma_without_key_clears(s, name, qtype);
    lemma_entry_for_none(without_key(s, name, qtype), name, qtype);
}

/// An answer put with a positive lifetime into a cache that can hold
/// entries is present, with the lifetime that is left, at every instant
/// before `now + ttl`, and absent from then on.
pub proof fn lemma_put_then_get(
    s: Seq<CacheRecordView>,
    name: Seq<Seq<u8>>,
    qtype: u16,
    records: Seq<RecordView>,
    ttl: i64,
    now: u64,
    capacity: nat,
    at: u64,
)
    requires
        ttl > 0,
        capacity > 0,
    ensures
        cached_answer(after_put(s, name, qtype, records, ttl, now, capacity), name, qtype, at)
            == if at < expiry_of(now, ttl) {
            Some(
                with_ttl(
                    records,
                    if expiry_of(now, ttl) - at > u32::MAX {
                        u32::MAX
                    } else {
                        (expiry_of(now, ttl) - at) as u32
                    },
                ),
            )
        } else {
            None
        },
{
    let rest = without_key(s, name, qtype);
    let room = make_room(rest, now, capacity);
    lemma_without_key_clears(s, name, qtype);
    lemma_make_room_keeps_no_key(rest, now, capacity, name, qtype);
    lemma_canonical_idempotent(name);
    let e = CacheRecordView {
        name: canonical(name),
        qtype,
        records,
        expiry: expiry_of(now, ttl),
        inserted: now,
    };
    let t = room.push(e);
    assert(t[room.len() as int] == e);
    assert forall|i: int| 0 <= i < room.len() implies !has_key(#[trigger] t[i], name, qtype) by {
        assert(t[i] == room[i]);
    }
    lemma_entry_for_first(t, name, qtype, room.len() as int);
}

/// The entry that leaves first when room is short expires no later than
/// any other.
pub proof fn lemma_soonest_is_minimal(s: Seq<CacheRecordView>, i: int)
    requires
        0 <= i < s.len(),
    ensures
        0 <= soonest(s) < s.len(),
        s[soonest(s)].expiry <= s[i].expiry,
    decreases s.len(),
{
    lemma_soonest_in_range(s);
    if s.len() > 1 {
        let init = s.drop_last();
        lemma_soonest_in_range(init);
        assert(init[soonest(init)] == s[soonest(init)]);
        if i < s.len() - 1 {
            lemma_soonest_is_minimal(init, i);
            assert(init[i] == s[i]);
        }
    }
}

/// A put never leaves more entries than the cache was made for.
pub proof fn lemma_put_bounded(
    s: Seq<CacheRecordView>,
    name: Seq<Seq<u8>>,
    qtype: u16,
    records: Seq<RecordView>,
    ttl: i64,
    now: u64,
    capacity: nat,
)
    requires
        s.len() <= capacity,
    ensures
        after_put(s, name, qtype, records, ttl, now, capacity).len() <= capacity,
{
    lemma_staying_len(s, Leaving::Key(name, qtype));
    let rest = without_key(s, name, qtype);
    if ttl > 0 && capacity > 0 && rest.len() >= capacity {
        lemma_staying_len(rest, Leaving::Expired(now));
        let fresh = drop_expired(rest, now);
        if fresh.len() > capacity - 1 {
            lemma_drop_soonest_len(
                fresh,
                (fresh.len() - (capacity - 1) as nat) as nat,
            );
        }
    }
}

/// A sweep that takes nothing out leaves the entries as they are.
pub proof fn lemma_staying_all(s: Seq<CacheRecordView>, rule: Leaving)
    requires
        staying(s, rule).len() == s.len(),
    ensures
        staying(s, rule) == s,
    decreases s.len(),
{
    if s.len() > 0 {
        lemma_staying_len(s.drop_last(), rule);
        lemma_staying_all(s.drop_last(), rule);
        assert(s.drop_last().push(s.last()) =~= s);
    } else {
        assert(staying(s, rule) =~= s);
    }
}

/// How room is made in a full cache: the entries whose expiry has come
/// leave, all of them and no others; only if there is none does a live
/// entry leave, and then the one that expires soonest.
pub proof fn lemma_make_room_when_full(s: Seq<CacheRecordView>, now: u64, capacity: nat)
    requires
        capacity > 0,
        s.len() == capacity,
    ensures
        make_room(s, now, capacity) == if drop_expired(s, now).len() < s.len() {
            drop_expired(s, now)
        } else {
            s.remove(soonest(s))
        },
{
    let fresh = drop_expired(s, now);
    lemma_staying_len(s, Leaving::Expired(now));
    if fresh.len() == s.len() {
        lemma_staying_all(s, Leaving::Expired(now));
        lemma_soonest_in_range(s);
        assert(drop_soonest(s, 1) == drop_soonest(s.remove(soonest(s)), 0));
    }
}

} // verus!
