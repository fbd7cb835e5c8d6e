//! The store: an in-memory mirror of the index, the rules that decide what is
//! appended to the pack and index files, and the checks on every read.
//!
//! The files themselves are held by the caller. `load` rebuilds the mirror
//! from the index file's bytes; `plan_put` says which bytes to append to each
//! file; `commit_put` makes the entry visible once both appends are durable;
//! `get` and `verify_record` validate the bytes read back from the pack.
use vstd::prelude::*;
use crate::codec::{
    decode_entry_at, encode_entry, encode_pack_record, entry_in_range, hash_eq, index_record,
    le32, pack_record, parse_index, get_u32_le, EntryView, IndexEntry, INDEX_RECORD_LEN,
    PACK_HEADER_LEN,
};
use crate::digest::{blake3_digest, content_hash};
use crate::error::{ErrorKind, StoreError};

verus! {

/// The state of a store: its entries in insertion order and the lengths of
/// the pack and index files.
pub struct StoreView {
    pub entries: Seq<EntryView>,
    pub pack_len: nat,
    pub index_len: nat,
}

/// The first pack file offset past the record of `e`.
pub open spec fn record_end(e: EntryView) -> nat {
    e.pack_offset + 8 + e.stored_len
}

/// No two entries share a hash.
pub open spec fn hashes_unique(es: Seq<EntryView>) -> bool {
    forall|i: int, j: int|
        0 <= i < es.len() && 0 <= j < es.len() && i != j ==> es[i].hash != es[j].hash
}

/// Every entry's record lies within the first `pack_len` bytes of the pack.
pub open spec fn entries_fit(es: Seq<EntryView>, pack_len: nat) -> bool {
    forall|i: int| 0 <= i < es.len() ==> record_end(#[trigger] es[i]) <= pack_len
}

/// The entry that holds hash `h`, if any.
pub open spec fn find(es: Seq<EntryView>, h: Seq<u8>) -> Option<EntryView> {
    if exists|i: int| 0 <= i < es.len() && es[i].hash == h {
        Some(es[choose|i: int| 0 <= i < es.len() && es[i].hash == h])
    } else {
        None
    }
}

/// The store that opening an index file and a pack file of `pack_len` bytes
/// gives: `None` where the index is corrupt (a hash twice, or a record
/// past the end of the pack).
pub open spec fn load_spec(index: Seq<u8>, pack_len: nat) -> Option<StoreView> {
    let es = parse_index(index);
    if hashes_unique(es) && entries_fit(es, pack_len) {
        Some(StoreView { entries: es, pack_len, index_len: 48 * es.len() })
    } else {
        None
    }
}

/// A record whose header agrees with the entry and whose length is the one
/// the entry gives.
pub open spec fn record_valid(e: EntryView, rec: Seq<u8>) -> bool {
    &&& rec.len() == 8 + e.stored_len
    &&& le32(rec.subrange(0, 4)) == e.raw_len
    &&& le32(rec.subrange(4, 8)) == e.stored_len
    &&& e.raw_len == e.stored_len
}

/// The bytes after a record's header.
pub open spec fn record_payload(rec: Seq<u8>) -> Seq<u8> {
    if rec.len() >= 8 {
        rec.subrange(8, rec.len() as int)
    } else {
        Seq::empty()
    }
}

/// What a read of the record `rec` for entry `e` and hash `h` gives, where
/// `digest` is the hash of the record's payload.
pub open spec fn check_spec(e: EntryView, h: Seq<u8>, rec: Seq<u8>, digest: Seq<u8>) -> Result<
    Seq<u8>,
    ErrorKind,
> {
    if record_valid(e, rec) && digest == h {
        Ok(record_payload(rec))
    } else {
        Err(ErrorKind::Corrupt)
    }
}

/// The bytes of the pack that the record of `e` covers, cut short where the
/// pack ends first.
pub open spec fn read_span(pack: Seq<u8>, e: EntryView) -> Seq<u8> {
    let start = if e.pack_offset <= pack.len() { e.pack_offset as int } else { pack.len() as int };
    let end = if record_end(e) <= pack.len() { record_end(e) as int } else { pack.len() as int };
    pack.subrange(start, end)
}

/// What `get` of `h` gives on a store in state `s` over the pack bytes `pack`.
pub open spec fn get_spec(s: StoreView, h: Seq<u8>, pack: Seq<u8>) -> Result<Seq<u8>, ErrorKind> {
    match find(s.entries, h) {
        None => Err(ErrorKind::NotFound),
        Some(e) => {
            let rec = read_span(pack, e);
            check_spec(e, h, rec, blake3_digest(record_payload(rec)))
        },
    }
}

/// A read's result, as values.
pub open spec fn outcome(r: Result<Vec<u8>, StoreError>) -> Result<Seq<u8>, ErrorKind> {
    match r {
        Ok(v) => Ok(v@),
        Err(e) => Err(e.kind()),
    }
}

impl StoreView {
    pub open spec fn wf(self) -> bool {
        &&& hashes_unique(self.entries)
        &&& entries_fit(self.entries, self.pack_len)
        &&& forall|i: int| 0 <= i < self.entries.len() ==> entry_in_range(#[trigger] self.entries[i])
        &&& self.index_len == 48 * self.entries.len()
        &&& self.pack_len <= u64::MAX
        &&& self.index_len <= u64::MAX
    }

    /// The entry that a first write of `payload` under `h` appends.
    pub open spec fn new_entry(self, h: Seq<u8>, payload: Seq<u8>) -> EntryView {
        EntryView {
            hash: h,
            pack_offset: self.pack_len,
            raw_len: payload.len(),
            stored_len: payload.len(),
        }
    }

    /// Whether `e` may be appended as the next entry.
    pub open spec fn can_append(self, e: EntryView) -> bool {
        &&& find(self.entries, e.hash) is None
        &&& entry_in_range(e)
        &&& e.pack_offset == self.pack_len
        &&& record_end(e) <= u64::MAX
        &&& self.index_len + 48 <= u64::MAX
    }

    /// The state after `e`'s record and entry have been appended.
    pub open spec fn appended(self, e: EntryView) -> StoreView {
        StoreView {
            entries: self.entries.push(e),
            pack_len: record_end(e),
            index_len: self.index_len + 48,
        }
    }

    /// The state after `put_if_absent(h, payload)`: unchanged where `h` is
    /// present, an I/O error where a length field or file offset would
    /// overflow.
    pub open spec fn put_next(self, h: Seq<u8>, payload: Seq<u8>) -> Result<StoreView, ErrorKind> {
        if find(self.entries, h) is Some {
            Ok(self)
        } else if payload.len() > u32::MAX || self.pack_len + 8 + payload.len() > u64::MAX
            || self.index_len + 48 > u64::MAX {
            Err(ErrorKind::Io)
        } else {
            Ok(self.appended(self.new_entry(h, payload)))
        }
    }
}

/// The bytes to append for a first write: the pack record at the pack's
/// current end, then the index record at the index's current end.
pub struct PutPlan {
    pub entry: IndexEntry,
    pub pack_record: Vec<u8>,
    pub index_record: Vec<u8>,
}

/// The in-memory mirror of the index, with the lengths of both files.
pub struct BlobStore {
    entries: Vec<IndexEntry>,
    pack_len: u64,
    index_len: u64,
}

impl View for BlobStore {
    type V = StoreView;

    closed spec fn view(&self) -> StoreView {
        StoreView {
            entries: self.entries@.map_values(|e: IndexEntry| e@),
            pack_len: self.pack_len as nat,
            index_len: self.index_len as nat,
        }
    }
}

fn corrupt(reason: &str) -> (r: StoreError)
    ensures
        r.kind() == ErrorKind::Corrupt,
{
    StoreError::Corrupt(reason.to_owned())
}

fn copy_range(b: &[u8], start: usize, end: usize) -> (r: Vec<u8>)
    requires
        start <= end <= b@.len(),
    ensures
        r@ == b@.subrange(start as int, end as int),
{
    let mut out: Vec<u8> = Vec::new();
    let mut i: usize = start;
    while i < end
        invariant
            start <= i <= end <= b@.len(),
            out@ == b@.subrange(start as int, i as int),
        decreases end - i,
    {
        out.push(b[i]);
        i = i + 1;
        assert(out@ =~= b@.subrange(start as int, i as int));
    }
    out
}

impl BlobStore {
    pub open spec fn wf(&self) -> bool {
        self@.wf()
    }

    /// Rebuilds the mirror from the index file's bytes, for a pack file of
    /// `pack_len` bytes. A torn trailing record is left out; an index that
    /// names a hash twice or a record past the pack's end is corrupt.
    pub fn load(index: &[u8], pack_len: u64) -> (r: Result<BlobStore, StoreError>)
        ensures
            match r {
                Ok(s) => s.wf() && load_spec(index@, pack_len as nat) == Some(s@),
                Err(e) => load_spec(index@, pack_len as nat) is None && e.kind()
                    == ErrorKind::Corrupt,
            },
    {
        let ghost es = parse_index(index@);
        let total = index.len();
        let n = total / INDEX_RECORD_LEN;
        let mut entries: Vec<IndexEntry> = Vec::new();
        let mut i: usize = 0;
        while i < n
            invariant
                total == index@.len(),
                n == index@.len() / 48,
                es == parse_index(index@),
                es.len() == n,
                i <= n,
                entries@.len() == i,
                entries@.map_values(|e: IndexEntry| e@) == es.subrange(0, i as int),
                hashes_unique(es.subrange(0, i as int)),
                entries_fit(es.subrange(0, i as int), pack_len as nat),
            decreases n - i,
        {
            proof {
                let len = index@.len() as int;
                let ii = i as int;
                assert(ii * 48 + 48 <= len) by (nonlinear_arith)
                    requires
                        ii < len / 48,
                        0 <= ii,
                        0 <= len,
                ;
                assert(INDEX_RECORD_LEN == 48);
                assert(i * 48 + 48 <= index@.len());
            }
            let e = decode_entry_at(index, i * INDEX_RECORD_LEN);
            assert(e@ == es[i as int]);
            if !(e.pack_offset <= pack_len && pack_len - e.pack_offset >= 8 && pack_len
                - e.pack_offset - 8 >= e.stored_len as u64) {
                return Err(corrupt("index entry points past the end of the pack file"));
            }
            let mut j: usize = 0;
            while j < entries.len()
                invariant
                    j <= entries@.len(),
                    entries@.map_values(|e: IndexEntry| e@) == es.subrange(0, i as int),
                    i < n,
                    es == parse_index(index@),
                    es.len() == n,
                    entries@.len() == i,
                    e@ == es[i as int],
                    forall|k: int| 0 <= k < j ==> es[k].hash != e@.hash,
                decreases entries@.len() - j,
            {
                assert(entries@.map_values(|e: IndexEntry| e@)[j as int] == entries@[j as int]@);
                assert(es.subrange(0, i as int)[j as int] == es[j as int]);
                if hash_eq(&entries[j].hash, &e.hash) {
                    assert(es[j as int].hash == es[i as int].hash);
                    assert(!hashes_unique(es));
                    assert(load_spec(index@, pack_len as nat) is None);
                    return Err(corrupt("index names one hash twice"));
                }
                j = j + 1;
            }
            let ghost prev = entries@;
            entries.push(e);
            assert(entries@ == prev.push(e));
            assert(prev.push(e).map_values(|e: IndexEntry| e@) =~= prev.map_values(
                |e: IndexEntry| e@,
            ).push(e@));
            assert(es.subrange(0, i + 1) =~= es.subrange(0, i as int).push(es[i as int]));
            i = i + 1;
            assert(entries@.map_values(|e: IndexEntry| e@) =~= es.subrange(0, i as int));
        }
        assert(es.subrange(0, n as int) =~= es);
        proof {
            assert forall|k: int| 0 <= k < es.len() implies entry_in_range(#[trigger] es[k]) by {
                assert(es[k].hash.len() == 32);
            }
        }
        Ok(BlobStore { entries, pack_len, index_len: (n * INDEX_RECORD_LEN) as u64 })
    }

    /// The length of the pack file that the store accounts for; the next
    /// record is appended here.
    pub fn pack_len(&self) -> (r: u64)
        ensures
            r as nat == self@.pack_len,
    {
        self.pack_len
    }

    /// The length of the index file's whole records; the next entry is
    /// written here, over any torn trailing piece.
    pub fn index_len(&self) -> (r: u64)
        ensures
            r as nat == self@.index_len,
    {
        self.index_len
    }

    /// The entry that holds `hash`, if any.
    pub fn lookup(&self, hash: &[u8; 32]) -> (r: Option<IndexEntry>)
        requires
            self.wf(),
        ensures
            match r {
                Some(e) => find(self@.entries, hash@) == Some(e@),
                None => find(self@.entries, hash@) is None,
            },
    {
        let ghost es = self@.entries;
        let mut i: usize = 0;
        while i < self.entries.len()
            invariant
                self.wf(),
                es == self@.entries,
                es.len() == self.entries@.len(),
                i <= es.len(),
                forall|k: int| 0 <= k < i ==> es[k].hash != hash@,
            decreases self.entries@.len() - i,
        {
            assert(es[i as int] == self.entries@[i as int]@);
            if hash_eq(&self.entries[i].hash, hash) {
                assert(es[i as int].hash == hash@);
                return Some(self.entries[i]);
            }
            i = i + 1;
        }
        None
    }

    /// Decides a `put_if_absent(hash, payload)`. `None` where the hash is
    /// already stored: nothing is to be written. Otherwise the records to
    /// append, the pack record first; once both are durable, `commit_put`
    /// takes the entry.
    pub fn plan_put(&self, hash: &[u8; 32], payload: &[u8]) -> (r: Result<Option<PutPlan>, StoreError>)
        requires
            self.wf(),
        ensures
            match r {
                Ok(None) => find(self@.entries, hash@) is Some && self@.put_next(hash@, payload@)
                    == Ok::<StoreView, ErrorKind>(self@),
                Ok(Some(p)) => {
                    &&& find(self@.entries, hash@) is None
                    &&& p.entry@ == self@.new_entry(hash@, payload@)
                    &&& self@.can_append(p.entry@)
                    &&& p.pack_record@ == pack_record(payload@)
                    &&& p.index_record@ == index_record(p.entry@)
                    &&& self@.put_next(hash@, payload@) == Ok::<StoreView, ErrorKind>(
                        self@.appended(p.entry@),
                    )
                },
                Err(e) => e.kind() == ErrorKind::Io && self@.put_next(hash@, payload@) == Err::<
                    StoreView,
                    ErrorKind,
                >(ErrorKind::Io),
            },
    {
        if self.lookup(hash).is_some() {
            return Ok(None);
        }
        let len = payload.len();
        if len > u32::MAX as usize {
            return Err(StoreError::Io("payload is longer than a record can hold".to_owned()));
        }
        if self.pack_len > u64::MAX - 8 - len as u64 || self.index_len > u64::MAX - 48 {
            return Err(StoreError::Io("store files would outgrow their offsets".to_owned()));
        }
        let entry = IndexEntry {
            hash: *hash,
            pack_offset: self.pack_len,
            raw_len: len as u32,
            stored_len: len as u32,
        };
        let pack_record = encode_pack_record(payload);
        let mut index_record: Vec<u8> = Vec::new();
        encode_entry(&mut index_record, &entry);
        assert(index_record@ =~= crate::codec::index_record(entry@));
        Ok(Some(PutPlan { entry, pack_record, index_record }))
    }

    /// Makes `entry` visible, once its pack record and its index record are
    /// durable.
    pub fn commit_put(&mut self, entry: IndexEntry)
        requires
            old(self).wf(),
            old(self)@.can_append(entry@),
        ensures
            final(self).wf(),
            final(self)@ == old(self)@.appended(entry@),
    {
        let ghost before = self@;
        self.entries.push(entry);
        self.pack_len = entry.pack_offset + 8 + entry.stored_len as u64;
        self.index_len = self.index_len + 48;
        assert(self@.entries =~= before.entries.push(entry@));
        assert forall|k: int| 0 <= k < before.entries.len() implies before.entries[k].hash
            != entry@.hash by {
            if before.entries[k].hash == entry@.hash {
                assert(find(before.entries, entry@.hash) is Some);
            }
        }
    }
}

/// Checks the record read for `entry` against the entry and against the
/// requested hash, where `digest` is the hash of the record's payload: the
/// payload where both agree, `Corrupt` otherwise.
pub fn check_record(entry: &IndexEntry, hash: &[u8; 32], record: &[u8], digest: &[u8; 32]) -> (r:
    Result<Vec<u8>, StoreError>)
    ensures
        outcome(r) == check_spec(entry@, hash@, record@, digest@),
{
    let len = record.len();
    if len < PACK_HEADER_LEN || len - PACK_HEADER_LEN != entry.stored_len as usize {
        return Err(corrupt("stored_len mismatch between index entry and pack record"));
    }
    let raw_len = get_u32_le(record, 0);
    let stored_len = get_u32_le(record, 4);
    if stored_len != entry.stored_len {
        return Err(corrupt("stored_len mismatch between index entry and pack header"));
    }
    if raw_len != entry.raw_len {
        return Err(corrupt("raw_len mismatch between index entry and pack header"));
    }
    if raw_len != stored_len {
        return Err(corrupt("raw_len and stored_len disagree in pack record"));
    }
    if !hash_eq(digest, hash) {
        return Err(corrupt("payload does not hash to its key"));
    }
    Ok(copy_range(record, PACK_HEADER_LEN, len))
}

/// Checks the record read for `entry`, hashing its payload: what
/// `check_record` gives for that digest.
pub fn verify_record(entry: &IndexEntry, hash: &[u8; 32], record: &[u8]) -> (r: Result<
    Vec<u8>,
    StoreError,
>)
    ensures
        outcome(r) == check_spec(entry@, hash@, record@, blake3_digest(record_payload(record@))),
{
    let len = record.len();
    let payload = if len >= PACK_HEADER_LEN {
        copy_range(record, PACK_HEADER_LEN, len)
    } else {
        Vec::new()
    };
    let digest = content_hash(payload.as_slice());
    check_record(entry, hash, record, &digest)
}

impl BlobStore {
    /// The payload stored under `hash`, read from the pack file's bytes
    /// `pack`: `NotFound` where no entry holds the hash, `Corrupt` where the
    /// record disagrees with its entry or its bytes do not hash to `hash`.
    pub fn get(&self, hash: &[u8; 32], pack: &[u8]) -> (r: Result<Vec<u8>, StoreError>)
        requires
            self.wf(),
        ensures
            outcome(r) == get_spec(self@, hash@, pack@),
            find(self@.entries, hash@) is None ==> r matches Err(StoreError::NotFound),
    {
        match self.lookup(hash) {
            None => Err(StoreError::NotFound),
            Some(entry) => {
                let n = pack.len() as u64;
                let start = if entry.pack_offset <= n { entry.pack_offset } else { n };
                let room = n - start;
                let want = 8 + entry.stored_len as u64;
                let end = if want <= room { start + want } else { n };
                let record = copy_range(pack, start as usize, end as usize);
                verify_record(&entry, hash, record.as_slice())
            },
        }
    }
}

} // verus!
