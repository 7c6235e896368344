//! Decisions of the store: when a mapping must grow, and which bytes a prefetch reads.
use vstd::prelude::*;

verus! {

/// The page size a prefetch steps by.
pub const PAGE_SIZE: u32 = 4096;

/// Whether a mapping of `mapped_len` bytes (none when nothing is mapped yet) covers the first
/// `required_len` bytes of the file, so that it can be shared instead of mapping anew.
pub fn mapping_covers(mapped_len: Option<u64>, required_len: u64) -> (r: bool)
    ensures
        r == (mapped_len is Some && mapped_len.unwrap() >= required_len),
{
    match mapped_len {
        Some(n) => n >= required_len,
        None => false,
    }
}

/// Whether `offs` lists the first byte of each page of a `length`-byte payload, in order,
/// followed by its last byte when it is not empty.
pub open spec fn page_offsets_of(length: u32, offs: Seq<u32>) -> bool {
    let n = offs.len() - (if length > 0 {
        1int
    } else {
        0int
    });
    &&& 0 <= n
    &&& forall|i: int| 0 <= i < n ==> #[trigger] offs[i] == i * PAGE_SIZE
    &&& n * PAGE_SIZE >= length
    &&& (n == 0 || (n - 1) * PAGE_SIZE < length)
    &&& length > 0 ==> offs.last() == length - 1
}

/// The offsets within a payload of `length` bytes that a prefetch reads so that every page of
/// it is faulted in: the first byte of each page, then the last byte.
pub fn page_touch_offsets(length: u32) -> (r: Vec<u32>)
    ensures
        page_offsets_of(length, r@),
{
    let mut out: Vec<u32> = Vec::new();
    let mut current: u64 = 0;
    while current < length as u64
        invariant
            current == out@.len() * PAGE_SIZE,
            out@.len() == 0 || (out@.len() - 1) * PAGE_SIZE < length,
            forall|i: int| 0 <= i < out@.len() ==> #[trigger] out@[i] == i * PAGE_SIZE,
        decreases length + PAGE_SIZE - current,
    {
        let ghost k = out@.len();
        out.push(current as u32);
        assert((k + 1) * PAGE_SIZE == k * PAGE_SIZE + PAGE_SIZE) by (nonlinear_arith);
        current = current + PAGE_SIZE as u64;
    }
    let ghost n = out@.len();
    if length > 0 {
        out.push(length - 1);
        assert(out@.len() - 1 == n);
    }
    out
}

} // verus!
