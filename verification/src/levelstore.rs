//! The on-disk ordered key-value adapter, backed by `rusty_leveldb`.
//!
//! The store is modelled as a map from key bytes to value bytes
//! (`ldb_contents`); every call into the crate goes through a trusted
//! wrapper whose contract speaks over that map. The adapter writes a batch
//! with a get-then-put existence check per interval and flushes afterwards;
//! the check and the put are not atomic in this backend, and `get` folds
//! read errors into "absent", so the write contract guarantees that at least
//! one copy of every batch key is stored, not exactly one fresh write.
//! Reads are a full linear scan of the iterator listing — O(scanned keys) —
//! and honor no sort order beyond the store's own key order.

use vstd::prelude::*;

use crate::codec::{decode_interval, encode_interval, encode_key, encode_spec, key_spec, spec_decode};
use crate::interval::Interval;
use crate::store::{filter_intervals, filter_seq, page_of, slice_page, ReadFilter, StoreError};

verus! {

#[verifier::external_type_specification]
#[verifier::external_body]
pub struct ExLdbDb(rusty_leveldb::DB);

#[verifier::external_type_specification]
#[verifier::external_body]
pub struct ExLdbIterator(rusty_leveldb::DBIterator);

#[verifier::external_type_specification]
#[verifier::external_body]
pub struct ExLdbStatus(rusty_leveldb::Status);

/// What the database holds: value bytes keyed by key bytes.
pub uninterp spec fn ldb_contents(db: rusty_leveldb::DB) -> Map<Seq<u8>, Seq<u8>>;

/// What an iterator will still yield, in order.
pub uninterp spec fn ldb_iter_entries(it: rusty_leveldb::DBIterator) -> Seq<(Seq<u8>, Seq<u8>)>;

/// Strict lexicographic order on byte strings, the store's key order.
pub open spec fn bytes_lt(a: Seq<u8>, b: Seq<u8>) -> bool
    decreases a.len(),
{
    if b.len() == 0 {
        false
    } else if a.len() == 0 {
        true
    } else if a[0] != b[0] {
        a[0] < b[0]
    } else {
        bytes_lt(a.drop_first(), b.drop_first())
    }
}

/// `s` lists exactly the entries of `m`, keys strictly ascending.
pub open spec fn kv_listing(m: Map<Seq<u8>, Seq<u8>>, s: Seq<(Seq<u8>, Seq<u8>)>) -> bool {
    &&& forall|i: int|
        0 <= i < s.len() ==> m.contains_key((#[trigger] s[i]).0) && m[s[i].0] == s[i].1
    &&& forall|i: int, j: int| 0 <= i < j < s.len() ==> bytes_lt((#[trigger] s[i]).0, (#[trigger] s[j]).0)
    &&& forall|k: Seq<u8>|
        #[trigger] m.contains_key(k) ==> exists|i: int| 0 <= i < s.len() && (#[trigger] s[i]).0 == k
}

proof fn lemma_bytes_lt_connected(a: Seq<u8>, b: Seq<u8>)
    requires
        a != b,
    ensures
        bytes_lt(a, b) || bytes_lt(b, a),
    decreases a.len(),
{
    if b.len() == 0 {
        assert(a.len() > 0) by {
            if a.len() == 0 {
                assert(a =~= b);
            }
        }
    } else if a.len() == 0 {
    } else if a[0] != b[0] {
    } else {
        assert(a.drop_first() != b.drop_first()) by {
            if a.drop_first() == b.drop_first() {
                assert(a.drop_first().len() == a.len() - 1);
                assert(b.drop_first().len() == b.len() - 1);
                assert(a.len() == b.len());
                assert forall|i: int| 0 <= i < a.len() implies a[i] == b[i] by {
                    if i > 0 {
                        assert(a[i] == a.drop_first()[i - 1]);
                        assert(b[i] == b.drop_first()[i - 1]);
                    }
                }
                assert(a =~= b);
            }
        }
        lemma_bytes_lt_connected(a.drop_first(), b.drop_first());
    }
}

proof fn lemma_bytes_lt_asymmetric(a: Seq<u8>, b: Seq<u8>)
    requires
        bytes_lt(a, b),
    ensures
        !bytes_lt(b, a),
    decreases a.len(),
{
    if b.len() == 0 {
    } else if a.len() == 0 {
    } else if a[0] != b[0] {
    } else {
        lemma_bytes_lt_asymmetric(a.drop_first(), b.drop_first());
    }
}

/// A map has exactly one ascending listing: the iterator order named in
/// the read contract is determined by the store's contents.
pub proof fn lemma_kv_listing_unique(
    m: Map<Seq<u8>, Seq<u8>>,
    s1: Seq<(Seq<u8>, Seq<u8>)>,
    s2: Seq<(Seq<u8>, Seq<u8>)>,
)
    requires
        kv_listing(m, s1),
        kv_listing(m, s2),
    ensures
        s1 == s2,
    decreases s1.len(),
{
    if s1.len() == 0 {
        if s2.len() > 0 {
            assert(m.contains_key(s2[0].0));
            let i = choose|i: int| 0 <= i < s1.len() && (#[trigger] s1[i]).0 == s2[0].0;
        }
        assert(s1 =~= s2);
    } else {
        assert(m.contains_key(s1[0].0));
        assert(s2.len() > 0) by {
            let i = choose|i: int| 0 <= i < s2.len() && (#[trigger] s2[i]).0 == s1[0].0;
        }
        let k1 = s1[0].0;
        let k2 = s2[0].0;
        assert(k1 == k2) by {
            if k1 != k2 {
                let j = choose|j: int| 0 <= j < s2.len() && (#[trigger] s2[j]).0 == k1;
                assert(j > 0);
                assert(bytes_lt(k2, k1));
                let i = choose|i: int| 0 <= i < s1.len() && (#[trigger] s1[i]).0 == k2;
                assert(i > 0);
                assert(bytes_lt(k1, k2));
                lemma_bytes_lt_asymmetric(k1, k2);
            }
        }
        assert(s1[0] == s2[0]) by {
            assert(s1[0].1 == m[k1] && s2[0].1 == m[k1]);
        }
        let m2 = m.remove(k1);
        lemma_tail_listing(m, s1);
        lemma_tail_listing(m, s2);
        lemma_kv_listing_unique(m2, s1.drop_first(), s2.drop_first());
        assert(s1.len() == s2.len());
        assert forall|i: int| 0 <= i < s1.len() implies s1[i] == s2[i] by {
            if i > 0 {
                assert(s1[i] == s1.drop_first()[i - 1]);
                assert(s2[i] == s2.drop_first()[i - 1]);
            }
        }
        assert(s1 =~= s2);
    }
}

/// Dropping a listing's first entry lists the map without that key.
proof fn lemma_tail_listing(m: Map<Seq<u8>, Seq<u8>>, s: Seq<(Seq<u8>, Seq<u8>)>)
    requires
        kv_listing(m, s),
        s.len() > 0,
    ensures
        kv_listing(m.remove(s[0].0), s.drop_first()),
{
    let k0 = s[0].0;
    let m2 = m.remove(k0);
    let t = s.drop_first();
    assert forall|i: int| 0 <= i < t.len() implies m2.contains_key((#[trigger] t[i]).0)
        && m2[t[i].0] == t[i].1 by {
        assert(t[i] == s[i + 1]);
        assert(bytes_lt(k0, s[i + 1].0));
        assert(s[i + 1].0 != k0) by {
            if s[i + 1].0 == k0 {
                lemma_bytes_lt_asymmetric(k0, s[i + 1].0);
            }
        }
    }
    assert forall|i: int, j: int| 0 <= i < j < t.len() implies bytes_lt(
        (#[trigger] t[i]).0,
        (#[trigger] t[j]).0,
    ) by {
        assert(t[i] == s[i + 1] && t[j] == s[j + 1]);
        assert(bytes_lt(s[i + 1].0, s[j + 1].0));
    }
    assert forall|k: Seq<u8>| #[trigger] m2.contains_key(k) implies exists|i: int|
        0 <= i < t.len() && (#[trigger] t[i]).0 == k by {
        assert(m.contains_key(k));
        let i = choose|i: int| 0 <= i < s.len() && (#[trigger] s[i]).0 == k;
        assert(i > 0);
        assert(t[i - 1] == s[i]);
        assert(t[i - 1].0 == k);
    }
}

/// Relies on `rusty_leveldb::DB::get`: reads the value stored under a key.
/// The crate folds read errors into `None`, so `None` promises nothing.
#[verifier::external_body]
fn ldb_get(db: &mut rusty_leveldb::DB, key: &Vec<u8>) -> (r: Option<Vec<u8>>)
    ensures
        ldb_contents(*final(db)) == ldb_contents(*old(db)),
        match r {
            Some(v) => ldb_contents(*old(db)).contains_key(key@) && ldb_contents(*old(db))[key@]
                == v@,
            None => true,
        },
{
    db.get(key.as_slice()).map(|b| b.to_vec())
}

/// Relies on `rusty_leveldb::DB::put`: adds one entry; it is durable only
/// after a later `flush`.
#[verifier::external_body]
fn ldb_put(db: &mut rusty_leveldb::DB, key: &Vec<u8>, value: &Vec<u8>) -> (r: Result<
    (),
    rusty_leveldb::Status,
>)
    ensures
        r is Ok ==> ldb_contents(*final(db)) == ldb_contents(*old(db)).insert(key@, value@),
{
    db.put(key.as_slice(), value.as_slice())
}

/// Relies on `rusty_leveldb::DB::flush`: forces pending writes to disk; the
/// logical contents do not change.
#[verifier::external_body]
fn ldb_flush(db: &mut rusty_leveldb::DB) -> (r: Result<(), rusty_leveldb::Status>)
    ensures
        r is Ok ==> ldb_contents(*final(db)) == ldb_contents(*old(db)),
{
    db.flush()
}

/// Relies on `rusty_leveldb::DB::new_iter`: an iterator over the state of
/// the database at its creation, yielding entries ascending by key.
#[verifier::external_body]
fn ldb_new_iter(db: &mut rusty_leveldb::DB) -> (r: Result<
    rusty_leveldb::DBIterator,
    rusty_leveldb::Status,
>)
    ensures
        ldb_contents(*final(db)) == ldb_contents(*old(db)),
        match r {
            Ok(it) => kv_listing(ldb_contents(*old(db)), ldb_iter_entries(it)),
            Err(_) => true,
        },
{
    db.new_iter()
}

/// Relies on `rusty_leveldb::LdbIterator::next`: yields the next entry of
/// the listing, or `None` once the listing is exhausted.
#[verifier::external_body]
fn ldb_iter_next(it: &mut rusty_leveldb::DBIterator) -> (r: Option<(Vec<u8>, Vec<u8>)>)
    ensures
        match r {
            Some(kv) => ldb_iter_entries(*old(it)).len() > 0 && kv.0@ == ldb_iter_entries(
                *old(it),
            )[0].0 && kv.1@ == ldb_iter_entries(*old(it))[0].1 && ldb_iter_entries(*final(it))
                == ldb_iter_entries(*old(it)).drop_first(),
            None => ldb_iter_entries(*old(it)).len() == 0,
        },
{
    rusty_leveldb::LdbIterator::next(it)
}

/// The composite store key of an interval.
pub open spec fn iv_key(iv: Interval) -> Seq<u8> {
    key_spec(iv.start_time, iv.end_time)
}

/// Whether `k` is the store key of some interval of `batch`.
pub open spec fn is_batch_key(batch: Seq<Interval>, k: Seq<u8>) -> bool {
    exists|j: int| 0 <= j < batch.len() && k == iv_key(#[trigger] batch[j])
}

/// An acceptable stored value for a batch key: the value that was already
/// there, or the encoding of some batch interval with that key.
pub open spec fn stored_value_ok(
    m0: Map<Seq<u8>, Seq<u8>>,
    batch: Seq<Interval>,
    k: Seq<u8>,
    v: Seq<u8>,
) -> bool {
    ||| (m0.contains_key(k) && v == m0[k])
    ||| exists|j: int|
        0 <= j < batch.len() && iv_key(#[trigger] batch[j]) == k && v == encode_spec(batch[j])
}

/// What a completed batch write guarantees over the store map: every batch
/// key is present (at least one copy), nothing else appeared, and keys
/// outside the batch are untouched.
pub open spec fn kv_batch_written(
    m0: Map<Seq<u8>, Seq<u8>>,
    batch: Seq<Interval>,
    m: Map<Seq<u8>, Seq<u8>>,
) -> bool {
    &&& forall|k: Seq<u8>|
        #[trigger] m.contains_key(k) <==> m0.contains_key(k) || is_batch_key(batch, k)
    &&& forall|k: Seq<u8>|
        m0.contains_key(k) && !is_batch_key(batch, k) ==> #[trigger] m[k] == m0[k]
    &&& forall|k: Seq<u8>|
        #[trigger] is_batch_key(batch, k) ==> m.contains_key(k) && stored_value_ok(
            m0,
            batch,
            k,
            m[k],
        )
}

/// Writes a batch into the key-value store with a get-then-put existence
/// check per interval, then flushes. Returns how many puts were performed;
/// pre-existing keys are skipped and not recounted.
pub fn store_level_intervals(db: &mut rusty_leveldb::DB, intervals: &Vec<Interval>) -> (r: Result<
    usize,
    StoreError,
>)
    ensures
        match r {
            Ok(n) => kv_batch_written(
                ldb_contents(*old(db)),
                intervals@,
                ldb_contents(*final(db)),
            ) && n <= intervals@.len(),
            Err(e) => e == StoreError::WriteFailed,
        },
{
    let ghost m0 = ldb_contents(*db);
    let mut i: usize = 0;
    let mut stored: usize = 0;
    while i < intervals.len()
        invariant
            0 <= i <= intervals.len(),
            stored <= i,
            kv_batch_written(m0, intervals@.take(i as int), ldb_contents(*db)),
        decreases intervals.len() - i,
    {
        let iv = intervals[i];
        let key = encode_key(iv.start_time, iv.end_time);
        let ghost pre = ldb_contents(*db);
        let ghost taken = intervals@.take(i as int);
        let ghost taken1 = intervals@.take(i + 1);
        proof {
            assert(taken1.drop_last() =~= taken);
            assert(taken1[i as int] == intervals@[i as int]);
            assert(forall|j: int| 0 <= j < i ==> taken1[j] == #[trigger] taken[j]);
            assert forall|k: Seq<u8>| #[trigger] is_batch_key(taken1, k) implies is_batch_key(
                taken,
                k,
            ) || k == iv_key(intervals@[i as int]) by {
                let j = choose|j: int| 0 <= j < taken1.len() && k == iv_key(#[trigger] taken1[j]);
                if j < i {
                    assert(k == iv_key(taken[j]));
                }
            }
            assert forall|k: Seq<u8>|
                is_batch_key(taken, k) || k == iv_key(
                    intervals@[i as int],
                ) implies #[trigger] is_batch_key(taken1, k) by {
                if is_batch_key(taken, k) {
                    let j = choose|j: int| 0 <= j < taken.len() && k == iv_key(#[trigger] taken[j]);
                    assert(k == iv_key(taken1[j]));
                } else {
                    assert(k == iv_key(taken1[i as int]));
                }
            }
            assert forall|k: Seq<u8>, v: Seq<u8>|
                stored_value_ok(m0, taken, k, v) implies #[trigger] stored_value_ok(
                m0,
                taken1,
                k,
                v,
            ) by {
                if !(m0.contains_key(k) && v == m0[k]) {
                    let j = choose|j: int|
                        0 <= j < taken.len() && iv_key(#[trigger] taken[j]) == k && v
                            == encode_spec(taken[j]);
                    assert(iv_key(taken1[j]) == k && v == encode_spec(taken1[j]));
                }
            }
        }
        match ldb_get(db, &key) {
            Some(_) => {
                proof {
                    let k = iv_key(intervals@[i as int]);
                    assert(ldb_contents(*db).contains_key(k));
                    assert(kv_batch_written(m0, taken1, ldb_contents(*db)));
                }
            },
            None => {
                let value = encode_interval(&iv);
                match ldb_put(db, &key, &value) {
                    Ok(_) => {
                        stored += 1;
                        proof {
                            let k = iv_key(intervals@[i as int]);
                            let m = ldb_contents(*db);
                            assert(m == pre.insert(k, encode_spec(intervals@[i as int])));
                            assert forall|k2: Seq<u8>| #[trigger] is_batch_key(
                                taken1,
                                k2,
                            ) implies m.contains_key(k2) && stored_value_ok(
                                m0,
                                taken1,
                                k2,
                                m[k2],
                            ) by {
                                if k2 == k {
                                    assert(iv_key(taken1[i as int]) == k2 && m[k2] == encode_spec(
                                        taken1[i as int],
                                    ));
                                } else {
                                    assert(is_batch_key(taken, k2));
                                    assert(m[k2] == pre[k2]);
                                }
                            }
                            assert(kv_batch_written(m0, taken1, m));
                        }
                    },
                    Err(_) => {
                        return Err(StoreError::WriteFailed);
                    },
                }
            },
        }
        i += 1;
    }
    proof {
        assert(intervals@.take(intervals@.len() as int) =~= intervals@);
    }
    match ldb_flush(db) {
        Ok(_) => Ok(stored),
        Err(_) => Err(StoreError::WriteFailed),
    }
}

/// The intervals whose stored values decode, in listing order.
pub open spec fn decoded_seq(es: Seq<(Seq<u8>, Seq<u8>)>) -> Seq<Interval>
    decreases es.len(),
{
    if es.len() == 0 {
        Seq::<Interval>::empty()
    } else {
        decoded_seq(es.drop_last()) + (match spec_decode(es.last().1) {
            Some(iv) => seq![iv],
            None => Seq::<Interval>::empty(),
        })
    }
}

/// Reads a page from the key-value store: a full linear scan of the listing
/// in key order, decoding each stored value (entries that do not decode are
/// skipped), filters applied in line, then the requested page. No sort
/// beyond the store's own key order is honored.
pub fn get_runepool_units_history_leveldb(
    db: &mut rusty_leveldb::DB,
    limit: u32,
    offset: u32,
    filter: &ReadFilter,
) -> (r: Result<Vec<Interval>, StoreError>)
    ensures
        ldb_contents(*final(db)) == ldb_contents(*old(db)),
        match r {
            Ok(out) => exists|es: Seq<(Seq<u8>, Seq<u8>)>|
                kv_listing(ldb_contents(*old(db)), es) && out@ == page_of(
                    filter_seq(decoded_seq(es), *filter),
                    limit,
                    offset,
                ),
            Err(e) => e == StoreError::ReadFailed,
        },
{
    let mut it = match ldb_new_iter(db) {
        Ok(it) => it,
        Err(_) => {
            return Err(StoreError::ReadFailed);
        },
    };
    let ghost full = ldb_iter_entries(it);
    let mut decoded: Vec<Interval> = Vec::new();
    let ghost p: int = 0;
    proof {
        assert(full.take(0int) =~= Seq::<(Seq<u8>, Seq<u8>)>::empty());
        assert(full.skip(0int) =~= full);
    }
    loop
        invariant_except_break
            ldb_iter_entries(it) == full.skip(p),
        invariant
            0 <= p <= full.len(),
            decoded@ == decoded_seq(full.take(p)),
        ensures
            p == full.len(),
        decreases full.len() - p,
    {
        match ldb_iter_next(&mut it) {
            Some(kv) => {
                proof {
                    assert(full.skip(p).len() > 0);
                    assert(full.skip(p)[0] == full[p]);
                    assert(full.skip(p).drop_first() =~= full.skip(p + 1));
                    assert(full.take(p + 1).drop_last() =~= full.take(p));
                    assert(full.take(p + 1).last() == full[p]);
                }
                match decode_interval(&kv.1) {
                    Some(iv) => {
                        decoded.push(iv);
                        proof {
                            assert(decoded@ =~= decoded_seq(full.take(p + 1)));
                        }
                    },
                    None => {
                        proof {
                            assert(decoded@ =~= decoded_seq(full.take(p + 1)));
                        }
                    },
                }
                proof {
                    p = p + 1;
                }
            },
            None => {
                proof {
                    assert(full.skip(p).len() == 0);
                    assert(p == full.len());
                    assert(full.take(p) =~= full);
                }
                break;
            },
        }
    }
    let matching = filter_intervals(&decoded, filter);
    let out = slice_page(&matching, limit, offset);
    proof {
        assert(kv_listing(ldb_contents(*old(db)), full) && out@ == page_of(
            filter_seq(decoded_seq(full), *filter),
            limit,
            offset,
        ));
    }
    Ok(out)
}

} // verus!
