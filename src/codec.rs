//! Byte layouts of the index entries and pack records.
use vstd::prelude::*;

verus! {

/// Length of a content hash.
pub const HASH_LEN: usize = 32;

/// Length of one index entry: hash, pack offset, raw length, stored length.
pub const INDEX_RECORD_LEN: usize = 48;

/// Length of a pack record's header: raw length, then stored length.
pub const PACK_HEADER_LEN: usize = 8;

/// The four little-endian bytes of `v`.
pub open spec fn u32_le(v: nat) -> Seq<u8> {
    seq![
        (v % 256) as u8,
        ((v / 256) % 256) as u8,
        (((v / 256) / 256) % 256) as u8,
        ((((v / 256) / 256) / 256) % 256) as u8,
    ]
}

/// The eight little-endian bytes of `v`.
pub open spec fn u64_le(v: nat) -> Seq<u8> {
    u32_le(v % 0x1_0000_0000) + u32_le(v / 0x1_0000_0000)
}

/// The value of four little-endian bytes.
pub open spec fn le32(b: Seq<u8>) -> nat {
    (b[0] + 256 * (b[1] + 256 * (b[2] + 256 * b[3]))) as nat
}

/// The value of eight little-endian bytes.
pub open spec fn le64(b: Seq<u8>) -> nat {
    le32(b.subrange(0, 4)) + 0x1_0000_0000 * le32(b.subrange(4, 8))
}

pub proof fn lemma_le32_round_trip(v: nat)
    requires
        v < 0x1_0000_0000,
    ensures
        u32_le(v).len() == 4,
        le32(u32_le(v)) == v,
{
}

pub proof fn lemma_le64_round_trip(v: nat)
    requires
        v < 0x1_0000_0000_0000_0000,
    ensures
        u64_le(v).len() == 8,
        le64(u64_le(v)) == v,
{
    lemma_le32_round_trip(v % 0x1_0000_0000);
    lemma_le32_round_trip(v / 0x1_0000_0000);
    assert(u64_le(v).subrange(0, 4) =~= u32_le(v % 0x1_0000_0000));
    assert(u64_le(v).subrange(4, 8) =~= u32_le(v / 0x1_0000_0000));
}

/// Appends the little-endian bytes of `v`.
pub fn put_u32_le(out: &mut Vec<u8>, v: u32)
    ensures
        final(out)@ == old(out)@ + u32_le(v as nat),
{
    out.push((v % 256) as u8);
    out.push(((v / 256) % 256) as u8);
    out.push((((v / 256) / 256) % 256) as u8);
    out.push(((((v / 256) / 256) / 256) % 256) as u8);
    assert(out@ =~= old(out)@ + u32_le(v as nat));
}

/// Appends the little-endian bytes of `v`.
pub fn put_u64_le(out: &mut Vec<u8>, v: u64)
    ensures
        final(out)@ == old(out)@ + u64_le(v as nat),
{
    put_u32_le(out, (v % 0x1_0000_0000) as u32);
    put_u32_le(out, (v / 0x1_0000_0000) as u32);
    assert(out@ =~= old(out)@ + u64_le(v as nat));
}

/// Reads four little-endian bytes at `at`.
pub fn get_u32_le(b: &[u8], at: usize) -> (r: u32)
    requires
        at + 4 <= b@.len(),
    ensures
        r as nat == le32(b@.subrange(at as int, at + 4)),
{
    let b0 = b[at] as u32;
    let b1 = b[at + 1] as u32;
    let b2 = b[at + 2] as u32;
    let b3 = b[at + 3] as u32;
    b0 + 256 * (b1 + 256 * (b2 + 256 * b3))
}

/// Reads eight little-endian bytes at `at`.
pub fn get_u64_le(b: &[u8], at: usize) -> (r: u64)
    requires
        at + 8 <= b@.len(),
    ensures
        r as nat == le64(b@.subrange(at as int, at + 8)),
{
    let len = b.len();
    assert(at + 4 <= len);
    let lo = get_u32_le(b, at) as u64;
    let hi = get_u32_le(b, at + 4) as u64;
    assert(b@.subrange(at as int, at + 8).subrange(0, 4) =~= b@.subrange(at as int, at + 4));
    assert(b@.subrange(at as int, at + 8).subrange(4, 8) =~= b@.subrange(at + 4, at + 8));
    lo + 0x1_0000_0000 * hi
}


/// What an index entry says, as mathematical values.
pub struct EntryView {
    pub hash: Seq<u8>,
    pub pack_offset: nat,
    pub raw_len: nat,
    pub stored_len: nat,
}

/// One index entry: where the record of a content hash lies in the pack.
#[derive(Clone, Copy, Debug)]
pub struct IndexEntry {
    pub hash: [u8; 32],
    pub pack_offset: u64,
    pub raw_len: u32,
    pub stored_len: u32,
}

impl View for IndexEntry {
    type V = EntryView;

    open spec fn view(&self) -> EntryView {
        EntryView {
            hash: self.hash@,
            pack_offset: self.pack_offset as nat,
            raw_len: self.raw_len as nat,
            stored_len: self.stored_len as nat,
        }
    }
}

/// The values an entry can hold in its fixed-width fields.
pub open spec fn entry_in_range(e: EntryView) -> bool {
    &&& e.hash.len() == HASH_LEN
    &&& e.pack_offset < 0x1_0000_0000_0000_0000
    &&& e.raw_len < 0x1_0000_0000
    &&& e.stored_len < 0x1_0000_0000
}

/// The index file bytes of one entry.
pub open spec fn index_record(e: EntryView) -> Seq<u8> {
    e.hash + u64_le(e.pack_offset) + u32_le(e.raw_len) + u32_le(e.stored_len)
}

/// The entry that 48 index file bytes describe.
pub open spec fn decode_entry(r: Seq<u8>) -> EntryView {
    EntryView {
        hash: r.subrange(0, 32),
        pack_offset: le64(r.subrange(32, 40)),
        raw_len: le32(r.subrange(40, 44)),
        stored_len: le32(r.subrange(44, 48)),
    }
}

/// The entries of an index file: every whole record, in order; a shorter
/// trailing piece is a torn write and describes nothing.
pub open spec fn parse_index(b: Seq<u8>) -> Seq<EntryView> {
    Seq::new(
        b.len() / 48,
        |i: int| decode_entry(b.subrange(48 * i, 48 * i + 48)),
    )
}

/// The pack file bytes of a record holding `payload`: its raw length, its
/// stored length, then the bytes.
pub open spec fn pack_record(payload: Seq<u8>) -> Seq<u8> {
    u32_le(payload.len()) + u32_le(payload.len()) + payload
}

pub proof fn lemma_decode_index_record(e: EntryView)
    requires
        entry_in_range(e),
    ensures
        index_record(e).len() == 48,
        decode_entry(index_record(e)) == e,
{
    let r = index_record(e);
    lemma_le64_round_trip(e.pack_offset);
    lemma_le32_round_trip(e.raw_len);
    lemma_le32_round_trip(e.stored_len);
    assert(r.subrange(0, 32) =~= e.hash);
    assert(r.subrange(32, 40) =~= u64_le(e.pack_offset));
    assert(r.subrange(40, 44) =~= u32_le(e.raw_len));
    assert(r.subrange(44, 48) =~= u32_le(e.stored_len));
}

/// Appends the index file bytes of `e`.
pub fn encode_entry(out: &mut Vec<u8>, e: &IndexEntry)
    ensures
        final(out)@ == old(out)@ + index_record(e@),
{
    let mut i: usize = 0;
    while i < HASH_LEN
        invariant
            i <= HASH_LEN,
            out@ == old(out)@ + e.hash@.subrange(0, i as int),
        decreases HASH_LEN - i,
    {
        out.push(e.hash[i]);
        i = i + 1;
        assert(out@ =~= old(out)@ + e.hash@.subrange(0, i as int));
    }
    assert(e.hash@.subrange(0, 32) =~= e.hash@);
    put_u64_le(out, e.pack_offset);
    put_u32_le(out, e.raw_len);
    put_u32_le(out, e.stored_len);
    assert(out@ =~= old(out)@ + index_record(e@));
}

/// Reads the index entry whose 48 bytes start at `at`.
pub fn decode_entry_at(b: &[u8], at: usize) -> (r: IndexEntry)
    requires
        at + INDEX_RECORD_LEN <= b@.len(),
    ensures
        r@ == decode_entry(b@.subrange(at as int, at + 48)),
{
    let n = b.len();
    let ghost rec = b@.subrange(at as int, at + 48);
    let mut hash = [0u8; 32];
    let mut i: usize = 0;
    while i < HASH_LEN
        invariant
            i <= HASH_LEN,
            at + 48 <= b@.len(),
            n == b@.len(),
            hash@.len() == 32,
            forall|j: int| 0 <= j < i ==> hash@[j] == b@[at + j],
        decreases HASH_LEN - i,
    {
        hash[i] = b[at + i];
        i = i + 1;
    }
    let pack_offset = get_u64_le(b, at + 32);
    let raw_len = get_u32_le(b, at + 40);
    let stored_len = get_u32_le(b, at + 44);
    assert(hash@ =~= rec.subrange(0, 32));
    assert(rec.subrange(32, 40) =~= b@.subrange(at + 32, at + 40));
    assert(rec.subrange(40, 44) =~= b@.subrange(at + 40, at + 44));
    assert(rec.subrange(44, 48) =~= b@.subrange(at + 44, at + 48));
    IndexEntry { hash, pack_offset, raw_len, stored_len }
}

/// Whether two hashes hold the same bytes.
pub fn hash_eq(a: &[u8; 32], b: &[u8; 32]) -> (r: bool)
    ensures
        r == (a@ == b@),
{
    let mut i: usize = 0;
    while i < HASH_LEN
        invariant
            i <= HASH_LEN,
            a@.len() == 32,
            b@.len() == 32,
            forall|j: int| 0 <= j < i ==> a@[j] == b@[j],
        decreases HASH_LEN - i,
    {
        if a[i] != b[i] {
            return false;
        }
        i = i + 1;
    }
    assert(a@ =~= b@);
    true
}

/// The pack file bytes of a record holding `payload`.
pub fn encode_pack_record(payload: &[u8]) -> (r: Vec<u8>)
    requires
        payload@.len() <= u32::MAX,
    ensures
        r@ == pack_record(payload@),
{
    let len = payload.len() as u32;
    let mut out: Vec<u8> = Vec::new();
    put_u32_le(&mut out, len);
    put_u32_le(&mut out, len);
    let ghost head = out@;
    let mut i: usize = 0;
    while i < payload.len()
        invariant
            i <= payload@.len(),
            out@ == head + payload@.subrange(0, i as int),
        decreases payload@.len() - i,
    {
        out.push(payload[i]);
        i = i + 1;
        assert(out@ =~= head + payload@.subrange(0, i as int));
    }
    assert(payload@.subrange(0, payload@.len() as int) =~= payload@);
    out
}

} // verus!
