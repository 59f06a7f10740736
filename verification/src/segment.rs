//! The heap segment of a table: a file of whole pages, page `pid` at byte
//! `pid * PAGE_SIZE`.

use vstd::prelude::*;
use vstd::slice::*;
use crate::page::PAGE_SIZE;

verus! {

/// Where page `page_id` starts in a segment.
pub open spec fn offset_of(page_id: u32) -> int {
    page_id * PAGE_SIZE
}

/// Where page `page_id` starts in a segment.
pub fn page_offset(page_id: u32) -> (off: u64)
    ensures
        off == offset_of(page_id),
{
    assert(page_id * 8192 <= 0xFFFF_FFFF * 8192) by (nonlinear_arith)
        requires
            page_id <= 0xFFFF_FFFF,
    ;
    (page_id as u64) * (PAGE_SIZE as u64)
}

/// The pages that a segment of `len` bytes holds: what lies behind the
/// last whole page is none.
pub open spec fn whole_pages(len: nat) -> nat {
    len / PAGE_SIZE as nat
}

/// Page `i` of the bytes of a segment.
pub open spec fn page_of(bytes: Seq<u8>, i: int) -> Seq<u8> {
    bytes.subrange(i * PAGE_SIZE, i * PAGE_SIZE + PAGE_SIZE)
}

/// The pages of a segment, front to back. Bytes behind the last whole page
/// are left out.
pub fn split_pages(bytes: &[u8]) -> (pages: Vec<Vec<u8>>)
    ensures
        pages@.len() == whole_pages(bytes@.len()),
        forall|i: int| 0 <= i < pages@.len() ==> (#[trigger] pages@[i])@ == page_of(bytes@, i),
{
    let n = bytes.len();
    let count = n / PAGE_SIZE;
    let mut pages: Vec<Vec<u8>> = Vec::new();
    let mut i: usize = 0;
    while i < count
        invariant
            i <= count,
            n == bytes@.len(),
            count == n / PAGE_SIZE,
            pages@.len() == i,
            forall|k: int| 0 <= k < i ==> (#[trigger] pages@[k])@ == page_of(bytes@, k),
        decreases count - i,
    {
        assert(i * PAGE_SIZE + PAGE_SIZE <= n) by (nonlinear_arith)
            requires
                i < count,
                count == n / PAGE_SIZE,
                PAGE_SIZE == 8192,
        ;
        let start = i * PAGE_SIZE;
        let page = slice_to_vec(slice_subrange(bytes, start, start + PAGE_SIZE));
        pages.push(page);
        i += 1;
    }
    pages
}

} // verus!
