//! The resolver: registers texts under their content hash and resolves identifiers back.
//!
//! The resolver keeps, as a ghost value, the bytes of the store file as it knows them.
//! Loading reads an existing file; registering a new text hands back the bytes the caller
//! must append at the end of the file, and extends the ghost log by them. Resolving gives
//! either a cached copy or the location to read from a mapping of the file.
use crate::cache::Cache;
use crate::format::{
    decode_entry, encode_entry, encode_header, entry_image, fresh_header_image, header_ok,
    initial_header, magic_tag, entry_at, FORMAT_VERSION, records_from, records_ok, check_header,
    FormatError, PufEntry, ENTRY_SIZE, HEADER_SIZE,
};
use crate::index::{no_locations, EntryLocation, Index, UtfId};
use vstd::prelude::*;
use vstd::string::StringSliceAdditionalSpecFns;
use vstd::utf8::encode_utf8;

verus! {

/// The 64-bit xxHash (seed 0) of a byte sequence.
pub uninterp spec fn xxh64_hash(data: Seq<u8>) -> u64;

/// Relies on `xxhash_rust::xxh64::xxh64` with seed 0: a hash of the UTF-8 bytes alone.
#[verifier::external_body]
fn content_hash(text: &str) -> (r: UtfId)
    ensures
        r == xxh64_hash(text.spec_bytes()),
{
    xxhash_rust::xxh64::xxh64(text.as_bytes(), 0)
}

/// The identifier of a text: the hash of its UTF-8 bytes.
pub fn utf_id(text: &str) -> (r: UtfId)
    ensures
        r == xxh64_hash(text.spec_bytes()),
{
    content_hash(text)
}

/// The index that a linear scan builds from records in file order: the last record of an
/// identifier wins.
pub open spec fn index_of(recs: Seq<PufEntry>) -> Map<UtfId, EntryLocation>
    decreases recs.len(),
{
    if recs.len() == 0 {
        Map::empty()
    } else {
        let e = recs.last();
        index_of(recs.drop_last()).insert(e.hash, EntryLocation { offset: e.offset, length: e.length })
    }
}

/// No cached texts.
pub open spec fn no_cached() -> Map<UtfId, Seq<char>> {
    Map::empty()
}

/// The locations of the known identifiers among `ids`, in order.
pub open spec fn known_locations(locs: Map<UtfId, EntryLocation>, ids: Seq<UtfId>) -> Seq<EntryLocation>
    decreases ids.len(),
{
    if ids.len() == 0 {
        Seq::empty()
    } else {
        let rest = known_locations(locs, ids.drop_last());
        if locs.contains_key(ids.last()) {
            rest.push(locs[ids.last()])
        } else {
            rest
        }
    }
}

/// The record written before a new payload of `length` bytes appended at `at`.
pub open spec fn record_for(at: int, length: u32, id: UtfId) -> PufEntry {
    PufEntry { offset: (at + ENTRY_SIZE) as u64, length, _pad: 0, hash: id }
}

/// Bytes the caller must append to the store file, at `offset`, which is its current end.
pub struct PendingWrite {
    pub offset: u64,
    pub bytes: Vec<u8>,
}

/// The outcome of a registration: the identifier, and the bytes to append when the text is new.
pub struct Registration {
    pub id: UtfId,
    pub write: Option<PendingWrite>,
}

/// What resolving an identifier found: a cached copy, or the range to read from the file.
pub enum Resolved {
    Cached(String),
    Mapped(EntryLocation),
}

impl Resolved {
    /// The bytes this answer stands for, given the bytes of the store file.
    pub open spec fn bytes_in(&self, log: Seq<u8>) -> Seq<u8> {
        match self {
            Resolved::Cached(s) => encode_utf8(s@),
            Resolved::Mapped(l) => log.subrange(l.offset as int, l.end_spec()),
        }
    }
}

/// A snapshot of the resolver's counters.
pub struct ParallelStats {
    pub ram_index_entries: usize,
}

/// The identifier index and cache over one store file.
pub struct Resolver {
    index: Index,
    cache: Cache,
    end: u64,
    log: Ghost<Seq<u8>>,
}

impl Resolver {
    /// The bytes of the store file as this resolver knows them.
    pub closed spec fn log(&self) -> Seq<u8> {
        self.log@
    }

    /// The location of each known identifier.
    pub closed spec fn locations(&self) -> Map<UtfId, EntryLocation> {
        self.index@
    }

    /// The cached texts.
    pub closed spec fn cached(&self) -> Map<UtfId, Seq<char>> {
        self.cache@
    }

    /// The payload stored for a known identifier.
    pub open spec fn content(&self, id: UtfId) -> Seq<u8> {
        let l = self.locations()[id];
        self.log().subrange(l.offset as int, l.end_spec())
    }

    /// Each known identifier is the hash of its payload.
    pub open spec fn hash_consistent(&self) -> bool {
        forall|id: UtfId| #[trigger]
            self.locations().contains_key(id) ==> xxh64_hash(self.content(id)) == id
    }

    /// The index is what a scan of the file rebuilds: the file has a valid header, its records
    /// tile it, and the locations are those the records name, the last of an identifier winning.
    pub open spec fn rebuildable(&self) -> bool {
        &&& header_ok(self.log())
        &&& records_ok(self.log(), HEADER_SIZE as int)
        &&& self.locations() == index_of(records_from(self.log(), HEADER_SIZE as int))
    }

    /// The resolver's invariant: the file holds at least a header, every location lies after
    /// the header and a record and inside the file, and every cached text is the payload
    /// of a known identifier.
    pub open spec fn wf(&self) -> bool {
        &&& self.log().len() <= u64::MAX
        &&& HEADER_SIZE <= self.log().len()
        &&& self.locations().dom().finite()
        &&& forall|id: UtfId| #[trigger]
            self.locations().contains_key(id) ==> HEADER_SIZE + ENTRY_SIZE
                <= self.locations()[id].offset && self.locations()[id].end_spec()
                <= self.log().len()
        &&& forall|id: UtfId| #[trigger]
            self.cached().contains_key(id) ==> self.locations().contains_key(id) && encode_utf8(
                self.cached()[id],
            ) == self.content(id)
        &&& self.fields_wf()
    }

    /// The recorded end of the file is the length of the log, and the cache, when there is
    /// one, is within its capacity.
    pub closed spec fn fields_wf(&self) -> bool {
        &&& self.end == self.log@.len()
        &&& self.cache.wf()
    }

    /// How a registration of `text` relates the resolver before and after it.
    pub open spec fn register_step(pre: Resolver, post: Resolver, text: Seq<u8>, r: Registration) -> bool {
        Self::register_step_as(pre, post, xxh64_hash(text), text, r)
    }

    /// How registering `text` under the identifier `id` relates the resolver before and after.
    pub open spec fn register_step_as(
        pre: Resolver,
        post: Resolver,
        id: UtfId,
        text: Seq<u8>,
        r: Registration,
    ) -> bool {
        &&& r.id == id
        &&& post.cached() == pre.cached()
        &&& if pre.locations().contains_key(id) {
            &&& r.write is None
            &&& post.log() == pre.log()
            &&& post.locations() == pre.locations()
        } else {
            &&& r.write is Some
            &&& r.write.unwrap().offset == pre.log().len()
            &&& r.write.unwrap().bytes@ == entry_image(
                record_for(pre.log().len() as int, text.len() as u32, id),
            ) + text
            &&& post.log() == pre.log() + r.write.unwrap().bytes@
            &&& post.locations() == pre.locations().insert(
                id,
                EntryLocation {
                    offset: (pre.log().len() + ENTRY_SIZE) as u64,
                    length: text.len() as u32,
                },
            )
        }
    }

    /// Rebuilds a resolver from the bytes of a store file by a linear scan of its records.
    ///
    /// An empty file stands for a new store: the resolver then knows the file as holding a
    /// fresh header, which the caller writes. A file shorter than its header, with another
    /// tag or version, or whose records do not tile it exactly, is refused.
    pub fn load_index(bytes: &[u8]) -> (r: Result<Resolver, FormatError>)
        ensures
            r is Ok ==> r.unwrap().wf() && r.unwrap().cached() == no_cached()
                && r.unwrap().rebuildable(),
            bytes@.len() == 0 ==> r is Ok && r.unwrap().log() == fresh_header_image()
                && r.unwrap().locations() == no_locations(),
            0 < bytes@.len() < HEADER_SIZE ==> r matches Err(FormatError::TruncatedHeader),
            HEADER_SIZE <= bytes@.len() && bytes@.subrange(0, 4) != magic_tag() ==> r matches Err(
                FormatError::BadMagic,
            ),
            HEADER_SIZE <= bytes@.len() && bytes@.subrange(0, 4) == magic_tag() && !header_ok(bytes@)
                ==> r matches Err(FormatError::BadVersion),
            HEADER_SIZE <= bytes@.len() && header_ok(bytes@) && !records_ok(
                bytes@,
                HEADER_SIZE as int,
            ) ==> r matches Err(FormatError::BadRecord),
            HEADER_SIZE <= bytes@.len() && header_ok(bytes@) && records_ok(bytes@, HEADER_SIZE as int)
                ==> r is Ok && r.unwrap().log() == bytes@ && r.unwrap().locations() == index_of(
                records_from(bytes@, HEADER_SIZE as int),
            ),
    {
        let n = bytes.len();
        if n == 0 {
            let header = encode_header(&initial_header());
            proof {
                lemma_fresh_header_ok();
                assert(records_from(header@, HEADER_SIZE as int) =~= Seq::<PufEntry>::empty());
                assert(index_of(Seq::<PufEntry>::empty()) =~= no_locations());
            }
            return Ok(
                Resolver {
                    index: Index::new(),
                    cache: Cache::new(1000),
                    end: header.len() as u64,
                    log: Ghost(header@),
                },
            );
        }
        if n < HEADER_SIZE as usize {
            return Err(FormatError::TruncatedHeader);
        }
        match check_header(bytes) {
            Err(e) => {
                return Err(e);
            },
            Ok(()) => {},
        }
        let mut index = Index::new();
        let mut pos: usize = HEADER_SIZE as usize;
        let ghost mut done: Seq<PufEntry> = Seq::empty();
        assert(done + records_from(bytes@, pos as int) =~= records_from(bytes@, pos as int));
        while pos < n
            invariant
                n == bytes@.len(),
                HEADER_SIZE <= pos <= n,
                header_ok(bytes@),
                records_ok(bytes@, HEADER_SIZE as int) == records_ok(bytes@, pos as int),
                records_from(bytes@, HEADER_SIZE as int) == done + records_from(bytes@, pos as int),
                index@ == index_of(done),
                index@.dom().finite(),
                forall|id: UtfId| #[trigger]
                    index@.contains_key(id) ==> HEADER_SIZE + ENTRY_SIZE <= index@[id].offset
                        && index@[id].end_spec() <= n,
            decreases n - pos,
        {
            if n - pos < ENTRY_SIZE as usize {
                return Err(FormatError::BadRecord);
            }
            let e = decode_entry(bytes, pos);
            if e.offset != (pos + ENTRY_SIZE as usize) as u64 || e.length as usize > n - pos
                - ENTRY_SIZE as usize {
                return Err(FormatError::BadRecord);
            }
            index.insert(e.hash, e.offset, e.length);
            let next = pos + ENTRY_SIZE as usize + e.length as usize;
            proof {
                let prev = done;
                done = done.push(e);
                assert(done.drop_last() =~= prev);
                assert(prev + records_from(bytes@, pos as int) =~= done + records_from(
                    bytes@,
                    next as int,
                ));
            }
            pos = next;
        }
        assert(done + records_from(bytes@, pos as int) =~= done);
        Ok(Resolver { index, cache: Cache::new(1000), end: n as u64, log: Ghost(bytes@) })
    }

    /// Registers `text` under its content hash.
    ///
    /// A known identifier is returned at once, with nothing to write. A new text gets a record
    /// naming its payload's position, followed by its bytes; the caller must append these at
    /// the returned offset, the current end of the file, before the identifier is resolved.
    pub fn register_utf(&mut self, text: &str) -> (r: Registration)
        requires
            old(self).wf(),
            text.spec_bytes().len() <= u32::MAX,
            old(self).log().len() + ENTRY_SIZE + text.spec_bytes().len() <= u64::MAX,
        ensures
            final(self).wf(),
            Self::register_step(*old(self), *final(self), text.spec_bytes(), r),
    {
        let hash = content_hash(text);
        self.register_hashed(hash, text)
    }

    /// Registers `text` under `hash`, the hash of its bytes: what registration does once the
    /// hash is known.
    pub fn register_hashed(&mut self, hash: UtfId, text: &str) -> (r: Registration)
        requires
            old(self).wf(),
            text.spec_bytes().len() <= u32::MAX,
            old(self).log().len() + ENTRY_SIZE + text.spec_bytes().len() <= u64::MAX,
        ensures
            final(self).wf(),
            Self::register_step_as(*old(self), *final(self), hash, text.spec_bytes(), r),
    {
        if self.index.contains(hash) {
            return Registration { id: hash, write: None };
        }
        let length = text.len() as u32;
        let offset = self.end;
        let entry = PufEntry { offset: offset + ENTRY_SIZE, length, _pad: 0, hash };
        let mut buf = encode_entry(&entry);
        let mut payload = vstd::slice::slice_to_vec(text.as_bytes());
        buf.append(&mut payload);
        let ghost pre = *self;
        self.index.insert(hash, offset + ENTRY_SIZE, length);
        self.end = offset + ENTRY_SIZE + length as u64;
        self.log = Ghost(self.log@ + buf@);
        proof {
            let old_log = pre.log();
            let new_log = self.log();
            assert(new_log.subrange(offset + ENTRY_SIZE, self.end as int) =~= text.spec_bytes());
            assert forall|id: UtfId| #[trigger] pre.locations().contains_key(id) implies self.content(
                id,
            ) == pre.content(id) by {
                let l = pre.locations()[id];
                assert(new_log.subrange(l.offset as int, l.end_spec()) =~= old_log.subrange(
                    l.offset as int,
                    l.end_spec(),
                ));
            }
            assert(self.cached() == pre.cached());
            assert(self.fields_wf());
            assert forall|id: UtfId| #[trigger] self.locations().contains_key(id) implies HEADER_SIZE
                + ENTRY_SIZE <= self.locations()[id].offset && self.locations()[id].end_spec()
                <= self.log().len() by {
                if id != hash {
                    assert(pre.locations().contains_key(id));
                }
            }
            assert forall|id: UtfId| #[trigger] self.cached().contains_key(id) implies self.locations().contains_key(id)
                && encode_utf8(self.cached()[id]) == self.content(id) by {
                assert(pre.locations().contains_key(id));
            }
        }
        Registration { id: hash, write: Some(PendingWrite { offset, bytes: buf }) }
    }

    /// Resolves `id`: a cached copy when the cache holds one, else the location of its payload
    /// in the file, else nothing. A miss is an ordinary outcome, not an error.
    pub fn resolve_utf(&mut self, id: UtfId) -> (r: Option<Resolved>)
        requires
            old(self).wf(),
        ensures
            final(self).wf(),
            final(self).log() == old(self).log(),
            final(self).locations() == old(self).locations(),
            final(self).cached() == old(self).cached(),
            r is None <==> !old(self).locations().contains_key(id),
            old(self).cached().contains_key(id) ==> (r matches Some(Resolved::Cached(s)) && s@
                == old(self).cached()[id]),
            !old(self).cached().contains_key(id) && old(self).locations().contains_key(id) ==> (r
                matches Some(Resolved::Mapped(l)) && l == old(self).locations()[id]),
            r is Some ==> r.unwrap().bytes_in(old(self).log()) == old(self).content(id),
    {
        let ghost pre = *self;
        let hit = self.cache.get(id);
        assert(self.fields_wf());
        assert(self.cached() == pre.cached());
        match hit {
            Some(s) => {
                return Some(Resolved::Cached(s));
            },
            None => {},
        }
        match self.index.get(id) {
            Some(loc) => Some(Resolved::Mapped(loc)),
            None => None,
        }
    }

    /// Caches `text` as the payload of `id`, so that later resolves of `id` skip the mapping.
    pub fn warm(&mut self, id: UtfId, text: String)
        requires
            old(self).wf(),
            old(self).locations().contains_key(id),
            encode_utf8(text@) == old(self).content(id),
        ensures
            final(self).wf(),
            final(self).log() == old(self).log(),
            final(self).locations() == old(self).locations(),
            final(self).cached().contains_key(id),
            final(self).cached()[id] == text@,
            forall|j: UtfId|
                j != id && #[trigger] final(self).cached().contains_key(j) ==> old(
                    self,
                ).cached().contains_key(j) && final(self).cached()[j] == old(self).cached()[j],
    {
        let ghost pre = *self;
        self.cache.put(id, text);
        proof {
            assert(self.fields_wf());
            assert forall|j: UtfId| #[trigger] self.cached().contains_key(j) implies self.locations().contains_key(j)
                && encode_utf8(self.cached()[j]) == self.content(j) by {
                if j != id {
                    assert(pre.cached().contains_key(j));
                }
            }
        }
    }

    /// A snapshot of the counters: the number of known identifiers.
    pub fn stats(&self) -> (r: ParallelStats)
        requires
            self.wf(),
        ensures
            r.ram_index_entries == self.locations().len(),
    {
        ParallelStats { ram_index_entries: self.index.len() }
    }

    /// The locations of those of `ids` that are known, in the order given: the ranges a
    /// prefetch touches.
    pub fn prefetch_locations(&self, ids: &[UtfId]) -> (r: Vec<EntryLocation>)
        requires
            self.wf(),
        ensures
            r@ == known_locations(self.locations(), ids@),
    {
        let mut out: Vec<EntryLocation> = Vec::new();
        let mut i: usize = 0;
        while i < ids.len()
            invariant
                i <= ids@.len(),
                out@ == known_locations(self.locations(), ids@.subrange(0, i as int)),
            decreases ids@.len() - i,
        {
            let id = ids[i];
            proof {
                assert(ids@.subrange(0, i + 1).drop_last() =~= ids@.subrange(0, i as int));
            }
            match self.index.get(id) {
                Some(loc) => {
                    out.push(loc);
                },
                None => {},
            }
            i = i + 1;
        }
        assert(ids@.subrange(0, ids@.len() as int) =~= ids@);
        out
    }

    /// The current length of the store file, where the next write goes.
    pub fn end(&self) -> (r: u64)
        requires
            self.wf(),
        ensures
            r == self.log().len(),
    {
        self.end
    }
}

/// Round trip: on a resolver whose identifiers are the hashes of their payloads, registering
/// a text that no stored payload collides with leaves that text as the payload of the returned
/// identifier, so resolving the identifier yields the text; the identifiers stay the hashes of
/// their payloads.
pub proof fn lemma_round_trip(pre: Resolver, post: Resolver, text: Seq<u8>, r: Registration)
    requires
        pre.wf(),
        pre.hash_consistent(),
        post.wf(),
        text.len() <= u32::MAX,
        Resolver::register_step(pre, post, text, r),
        forall|id: UtfId| #[trigger]
            pre.locations().contains_key(id) && pre.content(id) != text ==> xxh64_hash(
                pre.content(id),
            ) != xxh64_hash(text),
    ensures
        post.locations().contains_key(r.id),
        post.content(r.id) == text,
        post.hash_consistent(),
{
    let id = r.id;
    if pre.locations().contains_key(id) {
        assert(xxh64_hash(pre.content(id)) == id);
    } else {
        let w = r.write.unwrap();
        let at = pre.log().len();
        let rec = record_for(at as int, text.len() as u32, id);
        lemma_record_image_len(rec);
        assert(post.log() =~= pre.log() + (entry_image(rec) + text));
        assert(post.log().subrange(0, at as int) =~= pre.log());
        assert(post.content(id) =~= text);
        assert forall|k: UtfId| #[trigger] post.locations().contains_key(k) implies xxh64_hash(
            post.content(k),
        ) == k by {
            if k != id {
                lemma_prefix_content(pre, post, k);
            }
        }
    }
}

/// Idempotence: registering the same text twice returns the same identifier, and the second
/// registration writes nothing and changes nothing; the count of identifiers grows by at most one.
pub proof fn lemma_register_idempotent(
    r0: Resolver,
    r1: Resolver,
    r2: Resolver,
    text: Seq<u8>,
    a: Registration,
    b: Registration,
)
    requires
        r0.wf(),
        Resolver::register_step(r0, r1, text, a),
        Resolver::register_step(r1, r2, text, b),
    ensures
        a.id == b.id,
        b.write is None,
        r2.log() == r1.log(),
        r2.locations() == r1.locations(),
        r2.locations().len() <= r0.locations().len() + 1,
{
    assert(r1.locations().contains_key(a.id));
}

/// Distinct content: two texts whose hashes differ are registered under different identifiers.
pub proof fn lemma_distinct_ids(
    pre1: Resolver,
    post1: Resolver,
    s1: Seq<u8>,
    a: Registration,
    pre2: Resolver,
    post2: Resolver,
    s2: Seq<u8>,
    b: Registration,
)
    requires
        Resolver::register_step(pre1, post1, s1, a),
        Resolver::register_step(pre2, post2, s2, b),
        xxh64_hash(s1) != xxh64_hash(s2),
    ensures
        a.id != b.id,
{
}

/// Growth keeps earlier reads: a registration only appends to the file, and every identifier
/// known before it keeps its location and its payload.
pub proof fn lemma_register_keeps_earlier(pre: Resolver, post: Resolver, text: Seq<u8>, r: Registration)
    requires
        pre.wf(),
        Resolver::register_step(pre, post, text, r),
    ensures
        pre.log().len() <= post.log().len(),
        post.log().subrange(0, pre.log().len() as int) == pre.log(),
        forall|id: UtfId| #[trigger]
            pre.locations().contains_key(id) ==> post.locations().contains_key(id)
                && post.locations()[id] == pre.locations()[id] && post.content(id) == pre.content(id),
{
    assert(post.log().subrange(0, pre.log().len() as int) =~= pre.log());
    assert forall|id: UtfId| #[trigger] pre.locations().contains_key(id) implies post.locations().contains_key(id)
        && post.locations()[id] == pre.locations()[id] && post.content(id) == pre.content(id) by {
        if id != r.id || pre.locations().contains_key(r.id) {
            lemma_prefix_content(pre, post, id);
        }
    }
}

/// Misses stay misses: a registration makes known only the identifier it returns, so an
/// identifier that no registration produced, on a store that did not know it, resolves to
/// nothing.
pub proof fn lemma_register_adds_only_its_id(
    pre: Resolver,
    post: Resolver,
    text: Seq<u8>,
    r: Registration,
    other: UtfId,
)
    requires
        Resolver::register_step(pre, post, text, r),
        !pre.locations().contains_key(other),
        other != r.id,
    ensures
        !post.locations().contains_key(other),
{
}

/// Rebuilding agrees: when the index is what a scan of the file rebuilds, it still is after a
/// registration, so reopening the file after any registrations restores the same locations.
pub proof fn lemma_register_keeps_rebuildable(
    pre: Resolver,
    post: Resolver,
    text: Seq<u8>,
    r: Registration,
)
    requires
        pre.wf(),
        pre.rebuildable(),
        post.wf(),
        text.len() <= u32::MAX,
        Resolver::register_step(pre, post, text, r),
    ensures
        post.rebuildable(),
{
    if !pre.locations().contains_key(r.id) {
        let at = pre.log().len();
        let e = record_for(at as int, text.len() as u32, r.id);
        lemma_record_image_len(e);
        lemma_append_record(pre.log(), HEADER_SIZE as int, e, text);
        let post_log = post.log();
        assert(post_log =~= pre.log() + entry_image(e) + text);
        assert(post_log.subrange(0, 4) =~= pre.log().subrange(0, 4));
        assert(post_log.subrange(4, 8) =~= pre.log().subrange(4, 8));
        let prev = records_from(pre.log(), HEADER_SIZE as int);
        assert(prev.push(e).drop_last() =~= prev);
    }
}

/// Appending a well-placed record and its payload to a log whose records tile it from `pos`
/// keeps them tiling it, with the new record last.
proof fn lemma_append_record(log: Seq<u8>, pos: int, e: PufEntry, text: Seq<u8>)
    requires
        0 <= pos <= log.len(),
        records_ok(log, pos),
        e.offset == log.len() + ENTRY_SIZE,
        e.length == text.len(),
        entry_image(e).len() == ENTRY_SIZE,
    ensures
        records_ok(log + entry_image(e) + text, pos),
        records_from(log + entry_image(e) + text, pos) == records_from(log, pos).push(e),
    decreases log.len() - pos,
{
    let grown = log + entry_image(e) + text;
    vstd::bytes::lemma_auto_spec_u32_to_from_le_bytes();
    vstd::bytes::lemma_auto_spec_u64_to_from_le_bytes();
    if pos == log.len() {
        let p = pos;
        assert(grown.subrange(p, p + 8) =~= vstd::bytes::spec_u64_to_le_bytes(e.offset));
        assert(grown.subrange(p + 8, p + 12) =~= vstd::bytes::spec_u32_to_le_bytes(e.length));
        assert(grown.subrange(p + 12, p + 16) =~= vstd::bytes::spec_u32_to_le_bytes(e._pad));
        assert(grown.subrange(p + 16, p + 24) =~= vstd::bytes::spec_u64_to_le_bytes(e.hash));
        assert(entry_at(grown, p) == e);
        assert(records_ok(grown, grown.len() as int));
        assert(records_from(grown, grown.len() as int) =~= Seq::<PufEntry>::empty());
        assert(records_from(log, pos) =~= Seq::<PufEntry>::empty());
        assert(seq![e] + Seq::<PufEntry>::empty() =~= Seq::<PufEntry>::empty().push(e));
    } else {
        let p = pos;
        assert(grown.subrange(p, p + 8) =~= log.subrange(p, p + 8));
        assert(grown.subrange(p + 8, p + 12) =~= log.subrange(p + 8, p + 12));
        assert(grown.subrange(p + 12, p + 16) =~= log.subrange(p + 12, p + 16));
        assert(grown.subrange(p + 16, p + 24) =~= log.subrange(p + 16, p + 24));
        let f = entry_at(log, pos);
        assert(entry_at(grown, pos) == f);
        let next = f.offset + f.length;
        lemma_append_record(log, next, e, text);
        assert(records_ok(grown, next as int));
        assert(seq![f] + records_from(log, next).push(e) =~= (seq![f] + records_from(log, next)).push(
            e,
        ));
    }
}

/// The header of a new store carries the tag and version of this format.
proof fn lemma_fresh_header_ok()
    ensures
        header_ok(fresh_header_image()),
        fresh_header_image().len() == HEADER_SIZE,
        records_ok(fresh_header_image(), HEADER_SIZE as int),
{
    vstd::bytes::lemma_auto_spec_u32_to_from_le_bytes();
    vstd::bytes::lemma_auto_spec_u64_to_from_le_bytes();
    let h = fresh_header_image();
    assert(h.subrange(0, 4) =~= magic_tag());
    assert(h.subrange(4, 8) =~= vstd::bytes::spec_u32_to_le_bytes(FORMAT_VERSION));
}

/// Cached and mapped paths agree: for an identifier in the cache, the cached text and the range
/// its location names in the file hold the same bytes, so a resolve gives the same content
/// whichever path serves it.
pub proof fn lemma_cached_matches_mapped(r: Resolver, id: UtfId, s: String)
    requires
        r.wf(),
        r.cached().contains_key(id),
        s@ == r.cached()[id],
    ensures
        r.locations().contains_key(id),
        Resolved::Cached(s).bytes_in(r.log()) == Resolved::Mapped(r.locations()[id]).bytes_in(
            r.log(),
        ),
{
}

/// An entry record takes 24 bytes.
proof fn lemma_record_image_len(e: PufEntry)
    ensures
        entry_image(e).len() == ENTRY_SIZE,
{
    vstd::bytes::lemma_auto_spec_u32_to_from_le_bytes();
    vstd::bytes::lemma_auto_spec_u64_to_from_le_bytes();
}

/// When the log only grew and a location stayed, so did its payload.
proof fn lemma_prefix_content(pre: Resolver, post: Resolver, id: UtfId)
    requires
        pre.wf(),
        pre.locations().contains_key(id),
        post.locations().contains_key(id),
        post.locations()[id] == pre.locations()[id],
        pre.log().len() <= post.log().len(),
        post.log().subrange(0, pre.log().len() as int) == pre.log(),
    ensures
        post.content(id) == pre.content(id),
{
    let l = pre.locations()[id];
    assert(post.log().subrange(l.offset as int, l.end_spec()) =~= post.log().subrange(
        0,
        pre.log().len() as int,
    ).subrange(l.offset as int, l.end_spec()));
}

} // verus!
