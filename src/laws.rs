//! What holds across calls of the store.
use vstd::prelude::*;
use crate::blob_store::{
    entries_fit, find, get_spec, hashes_unique, load_spec, read_span, record_end, record_payload,
    StoreView,
};
use crate::codec::{
    entry_in_range, index_record, lemma_decode_index_record, lemma_le32_round_trip,
    pack_record, parse_index, u32_le, EntryView,
};
use crate::digest::blake3_digest;
use crate::error::ErrorKind;

verus! {

proof fn lemma_find_appended(s: StoreView, e: EntryView)
    requires
        find(s.entries, e.hash) is None,
    ensures
        find(s.entries.push(e), e.hash) == Some(e),
{
    let es = s.entries.push(e);
    assert(es[s.entries.len() as int].hash == e.hash);
    let k = choose|i: int| 0 <= i < es.len() && es[i].hash == e.hash;
    if k < s.entries.len() {
        assert(s.entries[k].hash == e.hash);
    }
}

proof fn lemma_read_new_record(pack: Seq<u8>, e: EntryView, payload: Seq<u8>)
    requires
        e.pack_offset == pack.len(),
        e.raw_len == payload.len(),
        e.stored_len == payload.len(),
        payload.len() <= u32::MAX,
    ensures
        read_span(pack + pack_record(payload), e) == pack_record(payload),
        pack_record(payload).subrange(0, 4) == u32_le(payload.len()),
        pack_record(payload).subrange(4, 8) == u32_le(payload.len()),
        record_payload(pack_record(payload)) == payload,
{
    lemma_le32_round_trip(payload.len());
    let rec = pack_record(payload);
    assert(read_span(pack + rec, e) =~= rec);
    assert(rec.subrange(0, 4) =~= u32_le(payload.len()));
    assert(rec.subrange(4, 8) =~= u32_le(payload.len()));
    assert(record_payload(rec) =~= payload);
}

/// A payload written under its own hash reads back unchanged: after the
/// first write of `payload`, whose pack record lands at the pack's end,
/// `get` of its hash gives `payload`.
pub proof fn lemma_round_trip(s: StoreView, pack: Seq<u8>, payload: Seq<u8>, hash: [u8; 32])
    requires
        s.wf(),
        pack.len() == s.pack_len,
        hash@ == blake3_digest(payload),
        find(s.entries, hash@) is None,
        s.put_next(hash@, payload) is Ok,
    ensures
        s.put_next(hash@, payload) == Ok::<StoreView, ErrorKind>(
            s.appended(s.new_entry(hash@, payload)),
        ),
        get_spec(s.appended(s.new_entry(hash@, payload)), hash@, pack + pack_record(payload))
            == Ok::<Seq<u8>, ErrorKind>(payload),
{
    let e = s.new_entry(hash@, payload);
    lemma_find_appended(s, e);
    lemma_read_new_record(pack, e, payload);
    lemma_le32_round_trip(payload.len());
}

/// Writing the same hash and payload a second time changes nothing: the
/// state after the second `put_if_absent` is the state after the first, so
/// neither file grows.
pub proof fn lemma_put_idempotent(s: StoreView, hash: [u8; 32], payload: Seq<u8>)
    requires
        s.wf(),
        s.put_next(hash@, payload) is Ok,
    ensures
        ({
            let t = s.put_next(hash@, payload)->Ok_0;
            &&& t.put_next(hash@, payload) == Ok::<StoreView, ErrorKind>(t)
            &&& t.pack_len == s.put_next(hash@, payload)->Ok_0.pack_len
            &&& t.index_len == s.put_next(hash@, payload)->Ok_0.index_len
        }),
{
    if find(s.entries, hash@) is None {
        lemma_find_appended(s, s.new_entry(hash@, payload));
    }
}

/// A hash that no entry holds is a plain miss, whatever the pack holds.
pub proof fn lemma_miss_is_not_found(s: StoreView, hash: [u8; 32], pack: Seq<u8>)
    requires
        find(s.entries, hash@) is None,
    ensures
        get_spec(s, hash@, pack) == Err::<Seq<u8>, ErrorKind>(ErrorKind::NotFound),
{
}

proof fn lemma_load_wf(index: Seq<u8>, pack_len: nat)
    requires
        load_spec(index, pack_len) is Some,
        pack_len <= u64::MAX,
        index.len() <= u64::MAX,
    ensures
        load_spec(index, pack_len)->Some_0.wf(),
        load_spec(index, pack_len)->Some_0.index_len <= index.len(),
{
    let es = parse_index(index);
    assert forall|k: int| 0 <= k < es.len() implies entry_in_range(#[trigger] es[k]) by {
        assert(es[k].hash.len() == 32);
    }
    let len = index.len() as int;
    assert(48 * (len / 48) <= len) by (nonlinear_arith)
        requires
            0 <= len,
    ;
}

/// A write that was reported done survives a restart: once the pack record
/// and the index record of a first write are appended (the index record
/// where the whole records end), loading the two files again gives the
/// store with the new entry, and `get` of the hash gives the payload.
pub proof fn lemma_reload_after_put(
    index: Seq<u8>,
    pack: Seq<u8>,
    payload: Seq<u8>,
    hash: [u8; 32],
)
    requires
        load_spec(index, pack.len()) is Some,
        pack.len() <= u64::MAX,
        index.len() <= u64::MAX,
        hash@ == blake3_digest(payload),
        find(load_spec(index, pack.len())->Some_0.entries, hash@) is None,
        load_spec(index, pack.len())->Some_0.put_next(hash@, payload) is Ok,
    ensures
        ({
            let s = load_spec(index, pack.len())->Some_0;
            let e = s.new_entry(hash@, payload);
            let index2 = index.subrange(0, s.index_len as int) + index_record(e);
            let pack2 = pack + pack_record(payload);
            &&& load_spec(index2, pack2.len()) == Some(s.appended(e))
            &&& get_spec(s.appended(e), hash@, pack2) == Ok::<Seq<u8>, ErrorKind>(payload)
        }),
{
    let s = load_spec(index, pack.len())->Some_0;
    lemma_load_wf(index, pack.len());
    let e = s.new_entry(hash@, payload);
    let k = s.entries.len();
    let index2 = index.subrange(0, s.index_len as int) + index_record(e);
    let pack2 = pack + pack_record(payload);
    assert(entry_in_range(e));
    lemma_decode_index_record(e);
    assert(index2.len() == 48 * (k + 1));
    let es2 = parse_index(index2);
    assert(es2.len() == k + 1);
    assert forall|i: int| 0 <= i < k + 1 implies #[trigger] es2[i] == s.entries.push(e)[i] by {
        if i < k {
            assert(index2.subrange(48 * i, 48 * i + 48) =~= index.subrange(48 * i, 48 * i + 48));
        } else {
            assert(index2.subrange(48 * i, 48 * i + 48) =~= index_record(e));
        }
    }
    assert(es2 =~= s.entries.push(e));
    assert(find(s.entries, e.hash) is None);
    assert forall|i: int, j: int|
        0 <= i < es2.len() && 0 <= j < es2.len() && i != j implies es2[i].hash != es2[j].hash by {
        if i == k {
            assert(s.entries[j].hash != e.hash);
        } else if j == k {
            assert(s.entries[i].hash != e.hash);
        }
    }
    assert(hashes_unique(es2));
    assert(entries_fit(es2, pack2.len()));
    lemma_round_trip(s, pack, payload, hash);
}

/// Pack bytes past every record that the index accounts for, such as those
/// of a record whose index entry was never written, change nothing: the
/// index still loads, to the same entries, none of which reaches those
/// bytes, and every `get` gives what it gave without them.
pub proof fn lemma_unindexed_pack_tail(
    index: Seq<u8>,
    pack: Seq<u8>,
    tail: Seq<u8>,
    hash: Seq<u8>,
)
    requires
        load_spec(index, pack.len()) is Some,
    ensures
        ({
            let s = load_spec(index, pack.len())->Some_0;
            let t = load_spec(index, (pack + tail).len());
            &&& t is Some
            &&& t->Some_0.entries == s.entries
            &&& forall|i: int|
                0 <= i < s.entries.len() ==> record_end(#[trigger] s.entries[i]) <= pack.len()
            &&& get_spec(t->Some_0, hash, pack + tail) == get_spec(s, hash, pack)
        }),
{
    let s = load_spec(index, pack.len())->Some_0;
    let es = s.entries;
    assert(entries_fit(es, (pack + tail).len()));
    if let Some(e) = find(es, hash) {
        let k = choose|i: int| 0 <= i < es.len() && es[i].hash == hash;
        assert(record_end(es[k]) <= pack.len());
        assert(read_span(pack + tail, e) =~= read_span(pack, e));
    }
}

/// A torn trailing piece of the index, shorter than one record, describes
/// nothing: the index loads as it would without it.
pub proof fn lemma_torn_index_tail(index: Seq<u8>, tail: Seq<u8>, pack_len: nat)
    requires
        index.len() % 48 == 0,
        tail.len() < 48,
    ensures
        load_spec(index + tail, pack_len) == load_spec(index, pack_len),
{
    let whole = index + tail;
    assert(whole.len() / 48 == index.len() / 48);
    let a = parse_index(whole);
    let b = parse_index(index);
    assert forall|i: int| 0 <= i < b.len() implies #[trigger] a[i] == b[i] by {
        assert(48 * i + 48 <= index.len());
        assert(whole.subrange(48 * i, 48 * i + 48) =~= index.subrange(48 * i, 48 * i + 48));
    }
    assert(a =~= b);
}

} // verus!
