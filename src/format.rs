//! Fixed-size, little-endian records of the store file.
use vstd::bytes::*;
use vstd::prelude::*;

verus! {

/// Size in bytes of the header at the start of the file.
pub const HEADER_SIZE: u64 = 16;

/// Size in bytes of the record that precedes each payload.
pub const ENTRY_SIZE: u64 = 24;

/// The format version this library writes and accepts.
pub const FORMAT_VERSION: u32 = 1;

/// The four tag bytes "PUF1".
pub open spec fn magic_tag() -> Seq<u8> {
    seq![0x50u8, 0x55u8, 0x46u8, 0x31u8]
}

/// The header written once at position 0 of the file.
#[derive(Clone, Copy, Debug)]
pub struct PufHeader {
    pub magic: [u8; 4],
    pub version: u32,
    pub entry_count: u64,
}

/// The record that precedes each payload: where the payload lies, and its identifier.
#[derive(Clone, Copy, Debug)]
pub struct PufEntry {
    pub offset: u64,
    pub length: u32,
    pub _pad: u32,
    pub hash: u64,
}

/// The bytes of a header on disk.
pub open spec fn header_image(h: PufHeader) -> Seq<u8> {
    h.magic@ + spec_u32_to_le_bytes(h.version) + spec_u64_to_le_bytes(h.entry_count)
}

/// The bytes of an entry record on disk.
pub open spec fn entry_image(e: PufEntry) -> Seq<u8> {
    spec_u64_to_le_bytes(e.offset) + spec_u32_to_le_bytes(e.length) + spec_u32_to_le_bytes(e._pad)
        + spec_u64_to_le_bytes(e.hash)
}

/// The entry record read from the 24 bytes at `pos`.
pub open spec fn entry_at(bytes: Seq<u8>, pos: int) -> PufEntry {
    PufEntry {
        offset: spec_u64_from_le_bytes(bytes.subrange(pos, pos + 8)),
        length: spec_u32_from_le_bytes(bytes.subrange(pos + 8, pos + 12)),
        _pad: spec_u32_from_le_bytes(bytes.subrange(pos + 12, pos + 16)),
        hash: spec_u64_from_le_bytes(bytes.subrange(pos + 16, pos + 24)),
    }
}

/// Whether the first 16 bytes hold a header of this format and version.
pub open spec fn header_ok(bytes: Seq<u8>) -> bool {
    &&& bytes.subrange(0, 4) == magic_tag()
    &&& spec_u32_from_le_bytes(bytes.subrange(4, 8)) == FORMAT_VERSION
}

/// Whether `bytes`, from `pos` to its end, is a sequence of (record, payload)
/// pairs with no gaps, each record naming the position of its own payload.
pub open spec fn records_ok(bytes: Seq<u8>, pos: int) -> bool
    decreases bytes.len() - pos,
{
    if pos < 0 || pos >= bytes.len() {
        pos == bytes.len()
    } else if bytes.len() - pos < ENTRY_SIZE {
        false
    } else {
        let e = entry_at(bytes, pos);
        e.offset == pos + ENTRY_SIZE && e.offset + e.length <= bytes.len() && records_ok(
            bytes,
            e.offset + e.length,
        )
    }
}

/// The records found in `bytes` from `pos` on, in file order.
pub open spec fn records_from(bytes: Seq<u8>, pos: int) -> Seq<PufEntry>
    decreases bytes.len() - pos,
{
    if pos < 0 || bytes.len() - pos < ENTRY_SIZE {
        Seq::empty()
    } else {
        let e = entry_at(bytes, pos);
        if e.offset != pos + ENTRY_SIZE || e.offset + e.length > bytes.len() {
            Seq::empty()
        } else {
            seq![e] + records_from(bytes, e.offset + e.length)
        }
    }
}

/// Encodes a header in its fixed little-endian layout.
pub fn encode_header(h: &PufHeader) -> (r: Vec<u8>)
    ensures
        r@ == header_image(*h),
        r@.len() == HEADER_SIZE,
{
    let mut r: Vec<u8> = Vec::new();
    r.push(h.magic[0]);
    r.push(h.magic[1]);
    r.push(h.magic[2]);
    r.push(h.magic[3]);
    let mut v = u32_to_le_bytes(h.version);
    r.append(&mut v);
    let mut c = u64_to_le_bytes(h.entry_count);
    r.append(&mut c);
    proof {
        lemma_auto_spec_u32_to_from_le_bytes();
        lemma_auto_spec_u64_to_from_le_bytes();
        assert(r@ =~= header_image(*h));
    }
    r
}

/// Encodes an entry record in its fixed little-endian layout.
pub fn encode_entry(e: &PufEntry) -> (r: Vec<u8>)
    ensures
        r@ == entry_image(*e),
        r@.len() == ENTRY_SIZE,
{
    let mut r = u64_to_le_bytes(e.offset);
    let mut l = u32_to_le_bytes(e.length);
    r.append(&mut l);
    let mut p = u32_to_le_bytes(e._pad);
    r.append(&mut p);
    let mut h = u64_to_le_bytes(e.hash);
    r.append(&mut h);
    proof {
        lemma_auto_spec_u32_to_from_le_bytes();
        lemma_auto_spec_u64_to_from_le_bytes();
    }
    r
}

/// Reads the entry record at `pos`.
pub fn decode_entry(bytes: &[u8], pos: usize) -> (e: PufEntry)
    requires
        pos + ENTRY_SIZE <= bytes@.len(),
    ensures
        e == entry_at(bytes@, pos as int),
        entry_image(e) == bytes@.subrange(pos as int, pos + ENTRY_SIZE),
{
    let _n = bytes.len();
    let offset = u64_from_le_bytes(vstd::slice::slice_subrange(bytes, pos, pos + 8));
    let length = u32_from_le_bytes(vstd::slice::slice_subrange(bytes, pos + 8, pos + 12));
    let pad = u32_from_le_bytes(vstd::slice::slice_subrange(bytes, pos + 12, pos + 16));
    let hash = u64_from_le_bytes(vstd::slice::slice_subrange(bytes, pos + 16, pos + 24));
    let e = PufEntry { offset, length, _pad: pad, hash };
    proof {
        lemma_auto_spec_u32_to_from_le_bytes();
        lemma_auto_spec_u64_to_from_le_bytes();
        let s = bytes@;
        let p = pos as int;
        assert(s.subrange(p, p + 24) =~= s.subrange(p, p + 8) + s.subrange(p + 8, p + 12)
            + s.subrange(p + 12, p + 16) + s.subrange(p + 16, p + 24));
    }
    e
}

/// Whether the first 16 bytes of `bytes` carry the tag and version of this format.
pub fn check_header(bytes: &[u8]) -> (r: Result<(), FormatError>)
    requires
        HEADER_SIZE <= bytes@.len(),
    ensures
        r is Ok <==> header_ok(bytes@),
        r matches Err(FormatError::BadMagic) <==> bytes@.subrange(0, 4) != magic_tag(),
        r matches Err(FormatError::BadVersion) <==> bytes@.subrange(0, 4) == magic_tag()
            && !header_ok(bytes@),
{
    if bytes[0] != 0x50u8 || bytes[1] != 0x55u8 || bytes[2] != 0x46u8 || bytes[3] != 0x31u8 {
        proof {
            assert(bytes@.subrange(0, 4)[0] == bytes@[0]);
            assert(bytes@.subrange(0, 4)[1] == bytes@[1]);
            assert(bytes@.subrange(0, 4)[2] == bytes@[2]);
            assert(bytes@.subrange(0, 4)[3] == bytes@[3]);
        }
        return Err(FormatError::BadMagic);
    }
    assert(bytes@.subrange(0, 4) =~= magic_tag());
    let version = u32_from_le_bytes(vstd::slice::slice_subrange(bytes, 4, 8));
    if version != FORMAT_VERSION {
        return Err(FormatError::BadVersion);
    }
    Ok(())
}

/// The bytes of the header of a freshly created store.
pub open spec fn fresh_header_image() -> Seq<u8> {
    magic_tag() + spec_u32_to_le_bytes(FORMAT_VERSION) + spec_u64_to_le_bytes(0)
}

/// The header of a freshly created store.
pub fn initial_header() -> (h: PufHeader)
    ensures
        header_image(h) == fresh_header_image(),
        h.magic@ == magic_tag(),
        h.version == FORMAT_VERSION,
        h.entry_count == 0,
{
    let h = PufHeader { magic: [0x50u8, 0x55u8, 0x46u8, 0x31u8], version: FORMAT_VERSION, entry_count: 0 };
    assert(h.magic@ =~= magic_tag());
    h
}

/// Why an existing store file was refused.
#[derive(Clone, Copy, Debug, PartialEq, Eq, Structural)]
pub enum FormatError {
    /// The file is shorter than its header.
    TruncatedHeader,
    /// The header does not start with the tag "PUF1".
    BadMagic,
    /// The header names a version this library does not read.
    BadVersion,
    /// A record is cut short, overruns the file, or names a payload position other than its own.
    BadRecord,
}

} // verus!
