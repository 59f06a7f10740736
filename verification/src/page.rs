//! The heap page: 8192 bytes holding a header, record payloads that grow
//! forward from the header, and a slot directory at the end of the page.
//!
//! ```text
//! 0   magic "HPG0"        12  record_count u16
//! 4   version u32         14  free_space_off u16
//! 8   page_id u32         16  flags u16
//! 18  payloads ...        8192 - 5 * record_count  slots: off u16, len u16, flags u8
//! ```
//!
//! Slot `i` stands at `8192 - 5 * record_count + 5 * i`. A slot whose flags
//! byte is not 0 is a tombstone.

use vstd::prelude::*;
use vstd::bytes::*;
use vstd::slice::*;
use crate::error::PageError;
use crate::le::{
    lemma_splice_inside, lemma_splice_outside, lemma_u16_at, push_u16, read_u16, splice, u16_at,
    write_at,
};

verus! {

/// The size of a page in bytes.
pub const PAGE_SIZE: usize = 8192;

/// The size of the page header in bytes.
pub const HEADER_LEN: usize = 18;

/// The size of one slot of the directory in bytes.
pub const SLOT_LEN: usize = 5;

/// The flags byte of a live slot.
pub const SLOT_LIVE: u8 = 0;

/// The flags byte that `page_set_tombstone` writes.
pub const SLOT_TOMBSTONE: u8 = 1;

/// The four bytes `HPG0`.
pub open spec fn page_magic() -> Seq<u8> {
    seq![0x48u8, 0x50u8, 0x47u8, 0x30u8]
}

/// One entry of the slot directory: where a payload starts, how long it is,
/// and its flags byte.
#[derive(Debug, Clone, Copy, PartialEq, Eq, Structural)]
pub struct Slot {
    pub off: u16,
    pub len: u16,
    pub flags: u8,
}

impl Slot {
    /// The position after the last byte of the payload.
    pub open spec fn end(&self) -> int {
        self.off + self.len
    }

    /// The five bytes of the slot in the directory.
    pub open spec fn bytes(&self) -> Seq<u8> {
        spec_u16_to_le_bytes(self.off) + spec_u16_to_le_bytes(self.len) + seq![self.flags]
    }

    /// Whether the slot holds a record that scans see.
    pub open spec fn live(&self) -> bool {
        self.flags == SLOT_LIVE
    }
}

/// The number of slots that the header of a page gives.
pub open spec fn record_count(buf: Seq<u8>) -> int {
    u16_at(buf, 12) as int
}

/// Where the slot directory of a page starts.
pub open spec fn slot_dir_start(buf: Seq<u8>) -> int {
    PAGE_SIZE - record_count(buf) * SLOT_LEN
}

/// Whether a buffer can be read as a page: it is long enough, starts with
/// the magic, and its slot directory stays clear of the header.
pub open spec fn is_page(buf: Seq<u8>) -> bool {
    &&& buf.len() >= PAGE_SIZE
    &&& buf.subrange(0, 4) == page_magic()
    &&& slot_dir_start(buf) >= HEADER_LEN
}

/// Where slot `i` stands in the page.
pub open spec fn slot_pos(buf: Seq<u8>, i: int) -> int {
    slot_dir_start(buf) + i * SLOT_LEN
}

/// Slot `i` of a page.
pub open spec fn slot_at(buf: Seq<u8>, i: int) -> Slot {
    Slot {
        off: u16_at(buf, slot_pos(buf, i)),
        len: u16_at(buf, slot_pos(buf, i) + 2),
        flags: buf[slot_pos(buf, i) + 4],
    }
}

/// The slot directory of a page, first slot first.
pub open spec fn page_slots(buf: Seq<u8>) -> Seq<Slot> {
    Seq::new(record_count(buf) as nat, |i: int| slot_at(buf, i))
}

/// The payload that a slot points at.
pub open spec fn slot_payload(buf: Seq<u8>, slot: Slot) -> Seq<u8> {
    buf.subrange(slot.off as int, slot.end())
}

/// The end of the payload area that a list of slots takes up: the largest
/// end of a payload, tombstoned or not, and the end of the header at least.
pub open spec fn max_end(slots: Seq<Slot>) -> int
    decreases slots.len(),
{
    if slots.len() == 0 {
        HEADER_LEN as int
    } else if slots.last().end() > max_end(slots.drop_last()) {
        slots.last().end()
    } else {
        max_end(slots.drop_last())
    }
}

/// Where the payloads of a page end.
pub open spec fn payload_end(buf: Seq<u8>) -> int {
    max_end(page_slots(buf))
}

/// The bytes between the payloads and the slot directory of a page: room for
/// payloads and their slots. Where the two overlap, there is none.
pub open spec fn free_bytes(buf: Seq<u8>) -> int {
    if slot_dir_start(buf) >= payload_end(buf) {
        slot_dir_start(buf) - payload_end(buf)
    } else {
        0
    }
}

/// Whether a page is one that this layer built: exactly one page long, every
/// payload between the header and the slot directory, and the payloads in
/// the order of their slots, none reaching into the next.
pub open spec fn page_wf(buf: Seq<u8>) -> bool {
    &&& buf.len() == PAGE_SIZE
    &&& is_page(buf)
    &&& forall|i: int|
        0 <= i < record_count(buf) ==> HEADER_LEN <= (#[trigger] slot_at(buf, i)).off
            && slot_at(buf, i).end() <= slot_dir_start(buf)
    &&& forall|i: int|
        0 <= i < record_count(buf) - 1 ==> (#[trigger] slot_at(buf, i)).end() <= slot_at(
            buf,
            i + 1,
        ).off
}

/// In a page of this layer the payload of a slot ends before the payload of
/// any later slot starts.
pub proof fn lemma_slots_ordered(buf: Seq<u8>, i: int, j: int)
    requires
        page_wf(buf),
        0 <= i < j < record_count(buf),
    ensures
        slot_at(buf, i).end() <= slot_at(buf, j).off,
    decreases j - i,
{
    if i + 1 < j {
        lemma_slots_ordered(buf, i, j - 1);
        assert(slot_at(buf, j - 1).end() <= slot_at(buf, j).off);
    }
}

/// No payload ends after the end of the payload area.
pub proof fn lemma_max_end_bounds(slots: Seq<Slot>)
    ensures
        max_end(slots) >= HEADER_LEN,
        forall|i: int| 0 <= i < slots.len() ==> (#[trigger] slots[i]).end() <= max_end(slots),
        slots.len() > 0 ==> exists|i: int|
            0 <= i < slots.len() && (max_end(slots) == HEADER_LEN || max_end(slots)
                == (#[trigger] slots[i]).end()),
    decreases slots.len(),
{
    if slots.len() > 0 {
        lemma_max_end_bounds(slots.drop_last());
        assert forall|i: int| 0 <= i < slots.len() implies (#[trigger] slots[i]).end() <= max_end(
            slots,
        ) by {
            if i < slots.len() - 1 {
                assert(slots.drop_last()[i] == slots[i]);
            }
        }
        if slots.len() > 1 {
            let k = choose|i: int|
                0 <= i < slots.drop_last().len() && (max_end(slots.drop_last()) == HEADER_LEN
                    || max_end(slots.drop_last()) == (#[trigger] slots.drop_last()[i]).end());
            assert(slots.drop_last()[k] == slots[k]);
            if slots.last().end() > max_end(slots.drop_last()) {
                assert(max_end(slots) == slots[slots.len() - 1].end());
            } else {
                assert(max_end(slots) == HEADER_LEN || max_end(slots) == slots[k].end());
            }
        } else {
            assert(max_end(slots) == HEADER_LEN || max_end(slots) == slots[0].end());
        }
    }
}

/// The header of a page as it is written.
pub struct PageHeader {
    pub magic: [u8; 4],
    pub version: u32,
    pub page_id: u32,
    pub record_count: u16,
    pub free_space_off: u16,
    pub flags: u16,
}

/// What reading the header of a page gives.
#[derive(Clone, Copy)]
pub struct ReadHeader {
    pub record_count: u16,
}

/// Reads the header of a page: the buffer must hold a whole header that
/// starts with the magic.
pub fn read_header(buf: &[u8]) -> (found: Result<ReadHeader, PageError>)
    ensures
        match found {
            Ok(header) => buf@.len() >= HEADER_LEN && buf@.subrange(0, 4) == page_magic()
                && header.record_count == record_count(buf@),
            Err(e) => e == PageError::CorruptPage && !(buf@.len() >= HEADER_LEN && buf@.subrange(
                0,
                4,
            ) == page_magic()),
        },
{
    if buf.len() < HEADER_LEN {
        return Err(PageError::CorruptPage);
    }
    if !(buf[0] == 0x48 && buf[1] == 0x50 && buf[2] == 0x47 && buf[3] == 0x30) {
        assert(buf@.subrange(0, 4) != page_magic()) by {
            let m = buf@.subrange(0, 4);
            assert(m[0] == buf@[0] && m[1] == buf@[1] && m[2] == buf@[2] && m[3] == buf@[3]);
        }
        return Err(PageError::CorruptPage);
    }
    assert(buf@.subrange(0, 4) =~= page_magic());
    let rc = read_u16(buf, 12);
    Ok(ReadHeader { record_count: rc })
}

/// The slots of a page as `(off, len, flags)`, first slot first, or
/// `CorruptPage` where the buffer cannot be read as a page.
pub fn iter_slots(buf: &[u8]) -> (found: Result<Vec<(u16, u16, u8)>, PageError>)
    ensures
        match found {
            Ok(slots) => is_page(buf@) && slots@.len() == record_count(buf@) && forall|i: int|
                0 <= i < slots@.len() ==> (#[trigger] slots@[i]) == (
                    slot_at(buf@, i).off,
                    slot_at(buf@, i).len,
                    slot_at(buf@, i).flags,
                ),
            Err(e) => e == PageError::CorruptPage && !is_page(buf@),
        },
{
    let hdr = match read_header(buf) {
        Ok(hdr) => hdr,
        Err(e) => {
            return Err(e);
        },
    };
    let rc = hdr.record_count as usize;
    if rc * SLOT_LEN > PAGE_SIZE {
        return Err(PageError::CorruptPage);
    }
    let dir_start = PAGE_SIZE - rc * SLOT_LEN;
    if buf.len() < PAGE_SIZE {
        return Err(PageError::CorruptPage);
    }
    if dir_start < HEADER_LEN {
        return Err(PageError::CorruptPage);
    }
    let mut slots: Vec<(u16, u16, u8)> = Vec::new();
    let mut i: usize = 0;
    while i < rc
        invariant
            i <= rc,
            rc == record_count(buf@),
            dir_start == slot_dir_start(buf@),
            HEADER_LEN <= dir_start,
            buf@.len() >= PAGE_SIZE,
            slots@.len() == i,
            forall|j: int|
                0 <= j < i ==> (#[trigger] slots@[j]) == (
                    slot_at(buf@, j).off,
                    slot_at(buf@, j).len,
                    slot_at(buf@, j).flags,
                ),
        decreases rc - i,
    {
        let off = dir_start + i * SLOT_LEN;
        let o = read_u16(buf, off);
        let l = read_u16(buf, off + 2);
        let flags = buf[off + 4];
        slots.push((o, l, flags));
        i += 1;
    }
    Ok(slots)
}

/// In a page of this layer the payloads end before the slot directory
/// starts.
pub proof fn lemma_payload_end_bound(buf: Seq<u8>)
    requires
        page_wf(buf),
    ensures
        HEADER_LEN <= payload_end(buf) <= slot_dir_start(buf),
        free_bytes(buf) == PAGE_SIZE - record_count(buf) * SLOT_LEN - payload_end(buf),
{
    lemma_max_end_bounds(page_slots(buf));
    if record_count(buf) > 0 {
        let i = choose|i: int|
            0 <= i < page_slots(buf).len() && (max_end(page_slots(buf)) == HEADER_LEN || max_end(
                page_slots(buf),
            ) == (#[trigger] page_slots(buf)[i]).end());
        assert(page_slots(buf)[i] == slot_at(buf, i));
    } else {
        assert(page_slots(buf).len() == 0);
    }
}

/// The end of the payload area of the first slots of a list, with the next
/// slot taken in.
pub proof fn lemma_max_end_step(slots: Seq<Slot>, i: int)
    requires
        0 <= i < slots.len(),
    ensures
        max_end(slots.take(i + 1)) == if slots[i].end() > max_end(slots.take(i)) {
            slots[i].end()
        } else {
            max_end(slots.take(i))
        },
{
    assert(slots.take(i + 1).drop_last() =~= slots.take(i));
    assert(slots.take(i + 1).last() == slots[i]);
}

/// Where the payloads of a page end.
pub fn page_payload_end(buf: &[u8]) -> (end: usize)
    requires
        is_page(buf@),
    ensures
        end == payload_end(buf@),
        HEADER_LEN <= end <= 2 * 0xFFFF,
{
    let rc = read_u16(buf, 12) as usize;
    let dir_start = PAGE_SIZE - rc * SLOT_LEN;
    let mut end: usize = HEADER_LEN;
    let mut i: usize = 0;
    let ghost slots = page_slots(buf@);
    assert(slots.take(0) =~= Seq::<Slot>::empty());
    while i < rc
        invariant
            i <= rc,
            rc == record_count(buf@),
            dir_start == slot_dir_start(buf@),
            HEADER_LEN <= dir_start,
            buf@.len() >= PAGE_SIZE,
            slots == page_slots(buf@),
            end == max_end(slots.take(i as int)),
            HEADER_LEN <= end <= 2 * 0xFFFF,
        decreases rc - i,
    {
        let pos = dir_start + i * SLOT_LEN;
        let o = read_u16(buf, pos) as usize;
        let l = read_u16(buf, pos + 2) as usize;
        proof {
            lemma_max_end_step(slots, i as int);
            assert(slots[i as int] == slot_at(buf@, i as int));
        }
        if o + l > end {
            end = o + l;
        }
        i += 1;
    }
    assert(slots.take(rc as int) =~= slots);
    end
}

/// The free bytes of a page, or `CorruptPage` where the buffer cannot be
/// read as a page.
pub fn page_free_bytes(buf: &[u8]) -> (found: Result<usize, PageError>)
    ensures
        match found {
            Ok(free) => is_page(buf@) && free == free_bytes(buf@),
            Err(e) => e == PageError::CorruptPage && !is_page(buf@),
        },
{
    let hdr = match read_header(buf) {
        Ok(hdr) => hdr,
        Err(e) => {
            return Err(e);
        },
    };
    let rc = hdr.record_count as usize;
    if buf.len() < PAGE_SIZE || rc * SLOT_LEN > PAGE_SIZE - HEADER_LEN {
        return Err(PageError::CorruptPage);
    }
    let dir_start = PAGE_SIZE - rc * SLOT_LEN;
    let end = page_payload_end(buf);
    if dir_start >= end {
        Ok(dir_start - end)
    } else {
        Ok(0)
    }
}

/// The bytes of a page without slots: zeros, with the magic, version 1 and
/// a record count of 0 in the header.
pub open spec fn fresh_page() -> Seq<u8> {
    splice(
        splice(
            splice(Seq::new(PAGE_SIZE as nat, |i: int| 0u8), 0, page_magic()),
            4,
            spec_u32_to_le_bytes(1),
        ),
        12,
        spec_u16_to_le_bytes(0),
    )
}

/// A page without slots has all the room behind its header free.
pub proof fn lemma_fresh_page()
    ensures
        page_wf(fresh_page()),
        record_count(fresh_page()) == 0,
        page_slots(fresh_page()) == Seq::<Slot>::empty(),
        free_bytes(fresh_page()) == PAGE_SIZE - HEADER_LEN,
{
    let z = Seq::new(PAGE_SIZE as nat, |i: int| 0u8);
    let a = splice(z, 0, page_magic());
    let b = splice(a, 4, spec_u32_to_le_bytes(1));
    let c = fresh_page();
    lemma_auto_spec_u16_to_from_le_bytes();
    lemma_auto_spec_u32_to_from_le_bytes();
    lemma_splice_inside(z, 0, page_magic(), 0, 4);
    lemma_splice_outside(a, 4, spec_u32_to_le_bytes(1), 0, 4);
    lemma_splice_outside(b, 12, spec_u16_to_le_bytes(0), 0, 4);
    lemma_splice_inside(b, 12, spec_u16_to_le_bytes(0), 12, 14);
    assert(page_magic().subrange(0, 4) =~= page_magic());
    assert(spec_u16_to_le_bytes(0).subrange(0, 2) =~= spec_u16_to_le_bytes(0));
    assert(record_count(c) == 0);
    assert(page_slots(c) =~= Seq::<Slot>::empty());
}

/// A page without slots.
pub fn new_page() -> (page: Vec<u8>)
    ensures
        page@ == fresh_page(),
{
    let mut page: Vec<u8> = Vec::new();
    let mut i: usize = 0;
    while i < PAGE_SIZE
        invariant
            i <= PAGE_SIZE,
            page@ == Seq::new(i as nat, |k: int| 0u8),
        decreases PAGE_SIZE - i,
    {
        page.push(0u8);
        assert(page@ =~= Seq::new((i + 1) as nat, |k: int| 0u8));
        i += 1;
    }
    let mut magic: Vec<u8> = Vec::new();
    magic.push(0x48);
    magic.push(0x50);
    magic.push(0x47);
    magic.push(0x30);
    assert(magic@ =~= page_magic());
    write_at(&mut page, 0, magic.as_slice());
    proof {
        lemma_auto_spec_u16_to_from_le_bytes();
        lemma_auto_spec_u32_to_from_le_bytes();
    }
    let version = u32_to_le_bytes(1);
    write_at(&mut page, 4, version.as_slice());
    let count = u16_to_le_bytes(0);
    write_at(&mut page, 12, count.as_slice());
    page
}

/// The slot that `page_append` adds for a payload of `len` bytes: it starts
/// where the payloads of the page end, and it is live.
pub open spec fn appended_slot(buf: Seq<u8>, len: nat) -> Slot {
    Slot { off: payload_end(buf) as u16, len: len as u16, flags: SLOT_LIVE }
}

/// A page after a payload has been appended: the payload stands where the
/// payloads ended, the slot directory has moved down by one slot, the new
/// slot stands last in it, and the header counts one record more and gives
/// the new end of the payloads.
pub open spec fn appended(buf: Seq<u8>, payload: Seq<u8>) -> Seq<u8> {
    let e = payload_end(buf);
    let s = slot_dir_start(buf);
    let b1 = splice(buf, e, payload);
    let b2 = splice(b1, s - SLOT_LEN, buf.subrange(s, PAGE_SIZE as int));
    let b3 = splice(b2, PAGE_SIZE - SLOT_LEN, appended_slot(buf, payload.len()).bytes());
    let b4 = splice(b3, 12, spec_u16_to_le_bytes((record_count(buf) + 1) as u16));
    splice(b4, 14, spec_u16_to_le_bytes((e + payload.len()) as u16))
}

/// The five bytes of a slot are read back as that slot.
pub proof fn lemma_slot_bytes(buf: Seq<u8>, pos: int, slot: Slot)
    requires
        0 <= pos,
        pos + SLOT_LEN <= buf.len(),
        buf.subrange(pos, pos + SLOT_LEN) == slot.bytes(),
    ensures
        u16_at(buf, pos) == slot.off,
        u16_at(buf, pos + 2) == slot.len,
        buf[pos + 4] == slot.flags,
        slot.bytes().len() == SLOT_LEN,
{
    lemma_auto_spec_u16_to_from_le_bytes();
    let o = spec_u16_to_le_bytes(slot.off);
    let l = spec_u16_to_le_bytes(slot.len);
    let f = seq![slot.flags];
    let sb = slot.bytes();
    assert(sb =~= Seq::<u8>::empty() + o + (l + f));
    lemma_u16_at(Seq::<u8>::empty(), slot.off, l + f);
    assert(buf.subrange(pos, pos + 2) =~= sb.subrange(0, 2));
    assert(sb =~= o + l + f);
    lemma_u16_at(o, slot.len, f);
    assert(buf.subrange(pos + 2, pos + 4) =~= sb.subrange(2, 4));
    assert(buf[pos + 4] == sb[4]);
}

/// After an append the page holds the slots it held, in their places, and
/// the new slot last; the new slot gives back the payload; no byte of the
/// old payload area has changed; and the free bytes have gone down by the
/// payload and one slot.
pub proof fn lemma_append(buf: Seq<u8>, payload: Seq<u8>)
    requires
        is_page(buf),
        buf.len() == PAGE_SIZE,
        payload.len() + SLOT_LEN <= free_bytes(buf),
    ensures
        appended(buf, payload).len() == PAGE_SIZE,
        is_page(appended(buf, payload)),
        record_count(appended(buf, payload)) == record_count(buf) + 1,
        page_slots(appended(buf, payload)) == page_slots(buf).push(
            appended_slot(buf, payload.len()),
        ),
        appended_slot(buf, payload.len()).off == payload_end(buf),
        appended_slot(buf, payload.len()).len == payload.len(),
        slot_payload(appended(buf, payload), appended_slot(buf, payload.len())) == payload,
        forall|k: int|
            HEADER_LEN <= k < payload_end(buf) ==> #[trigger] appended(buf, payload)[k] == buf[k],
        payload_end(appended(buf, payload)) == payload_end(buf) + payload.len(),
        free_bytes(appended(buf, payload)) == free_bytes(buf) - payload.len() - SLOT_LEN,
        u16_at(appended(buf, payload), 14) == payload_end(buf) + payload.len(),
{
    let e = payload_end(buf);
    let s = slot_dir_start(buf);
    let n = record_count(buf);
    let len = payload.len() as int;
    let slot = appended_slot(buf, payload.len());
    let after = appended(buf, payload);
    lemma_auto_spec_u16_to_from_le_bytes();
    lemma_max_end_bounds(page_slots(buf));
    assert(HEADER_LEN <= e && e + len + SLOT_LEN <= s && s <= PAGE_SIZE);
    assert(slot.bytes().len() == 5);
    assert(after.len() == PAGE_SIZE);
    assert(after.subrange(0, 4) =~= buf.subrange(0, 4));
    assert(after.subrange(12, 14) =~= spec_u16_to_le_bytes((n + 1) as u16));
    assert(after.subrange(14, 16) =~= spec_u16_to_le_bytes((e + len) as u16));
    assert(record_count(after) == n + 1);
    assert(slot_dir_start(after) == s - SLOT_LEN);
    assert(after.subrange(PAGE_SIZE - SLOT_LEN, PAGE_SIZE as int) =~= slot.bytes());
    lemma_slot_bytes(after, PAGE_SIZE - SLOT_LEN, slot);
    assert(slot_at(after, n) == slot);
    assert forall|i: int| 0 <= i < n implies slot_at(after, i) == slot_at(buf, i) by {
        let p = slot_pos(after, i);
        let q = slot_pos(buf, i);
        assert(q == p + SLOT_LEN);
        assert(after.subrange(p, p + 2) =~= buf.subrange(q, q + 2));
        assert(after.subrange(p + 2, p + 4) =~= buf.subrange(q + 2, q + 4));
        assert(after[p + 4] == buf[q + 4]);
    }
    assert(page_slots(after) =~= page_slots(buf).push(slot));
    assert(slot_payload(after, slot) =~= payload);
    assert(page_slots(after).drop_last() =~= page_slots(buf));
    assert(page_slots(after).last() == slot);
}

/// An append keeps a page of this layer a page of this layer.
pub proof fn lemma_append_wf(buf: Seq<u8>, payload: Seq<u8>)
    requires
        page_wf(buf),
        payload.len() + SLOT_LEN <= free_bytes(buf),
    ensures
        page_wf(appended(buf, payload)),
        forall|i: int|
            0 <= i < record_count(buf) ==> slot_payload(
                appended(buf, payload),
                #[trigger] slot_at(buf, i),
            ) == slot_payload(buf, slot_at(buf, i)),
{
    let after = appended(buf, payload);
    let n = record_count(buf);
    let slot = appended_slot(buf, payload.len());
    lemma_append(buf, payload);
    lemma_max_end_bounds(page_slots(buf));
    assert forall|i: int| 0 <= i < n + 1 implies HEADER_LEN <= (#[trigger] slot_at(after, i)).off
        && slot_at(after, i).end() <= slot_dir_start(after) by {
        assert(slot_at(after, i) == page_slots(after)[i]);
        if i < n {
            assert(page_slots(after)[i] == page_slots(buf)[i]);
            assert(page_slots(buf)[i] == slot_at(buf, i));
        }
    }
    assert forall|i: int| 0 <= i < n + 1 - 1 implies (#[trigger] slot_at(after, i)).end()
        <= slot_at(after, i + 1).off by {
        assert(slot_at(after, i) == page_slots(after)[i]);
        assert(slot_at(after, i + 1) == page_slots(after)[i + 1]);
        assert(page_slots(after)[i] == page_slots(buf)[i]);
        assert(page_slots(buf)[i] == slot_at(buf, i));
        if i + 1 < n {
            assert(page_slots(after)[i + 1] == page_slots(buf)[i + 1]);
            assert(page_slots(buf)[i + 1] == slot_at(buf, i + 1));
        }
    }
    assert forall|i: int| 0 <= i < n implies slot_payload(after, #[trigger] slot_at(buf, i))
        == slot_payload(buf, slot_at(buf, i)) by {
        assert(page_slots(buf)[i] == slot_at(buf, i));
        assert(slot_payload(after, slot_at(buf, i)) =~= slot_payload(buf, slot_at(buf, i)));
    }
}

/// Appends a payload to a page and gives the slot it went to, which is the
/// last slot of the page. The page must be exactly one page long and
/// readable (`CorruptPage` otherwise), and the payload and its slot must fit
/// into the free bytes (`PageFull` otherwise); a refused page is not changed.
pub fn page_append(buf: &mut Vec<u8>, payload: &[u8]) -> (done: Result<u16, PageError>)
    ensures
        match done {
            Ok(slot_id) => {
                &&& is_page(old(buf)@)
                &&& old(buf)@.len() == PAGE_SIZE
                &&& payload@.len() + SLOT_LEN <= free_bytes(old(buf)@)
                &&& slot_id == record_count(old(buf)@)
                &&& final(buf)@ == appended(old(buf)@, payload@)
            },
            Err(e) => {
                &&& final(buf)@ == old(buf)@
                &&& e == if is_page(old(buf)@) && old(buf)@.len() == PAGE_SIZE {
                    PageError::PageFull
                } else {
                    PageError::CorruptPage
                }
                &&& !(is_page(old(buf)@) && old(buf)@.len() == PAGE_SIZE && payload@.len()
                    + SLOT_LEN <= free_bytes(old(buf)@))
            },
        },
{
    let free = match page_free_bytes(buf.as_slice()) {
        Ok(free) => free,
        Err(e) => {
            return Err(e);
        },
    };
    if buf.len() != PAGE_SIZE {
        return Err(PageError::CorruptPage);
    }
    let len = payload.len();
    if len > free || free - len < SLOT_LEN {
        return Err(PageError::PageFull);
    }
    let rc = read_u16(buf.as_slice(), 12);
    let dir_start = PAGE_SIZE - (rc as usize) * SLOT_LEN;
    let end = page_payload_end(buf.as_slice());
    proof {
        lemma_auto_spec_u16_to_from_le_bytes();
    }
    let dir = slice_to_vec(slice_subrange(buf.as_slice(), dir_start, PAGE_SIZE));
    let mut slot_bytes: Vec<u8> = Vec::new();
    push_u16(&mut slot_bytes, end as u16);
    push_u16(&mut slot_bytes, len as u16);
    slot_bytes.push(SLOT_LIVE);
    assert(slot_bytes@ =~= appended_slot(buf@, payload@.len()).bytes());
    let count = u16_to_le_bytes(rc + 1);
    let free_off = u16_to_le_bytes((end + len) as u16);
    write_at(buf, end, payload);
    write_at(buf, dir_start - SLOT_LEN, dir.as_slice());
    write_at(buf, PAGE_SIZE - SLOT_LEN, slot_bytes.as_slice());
    write_at(buf, 12, count.as_slice());
    write_at(buf, 14, free_off.as_slice());
    Ok(rc)
}

/// A page after the payload of slot `slot_id` has been rewritten in place:
/// the payload stands where the old one started, and the slot gives its
/// length.
pub open spec fn overwritten(buf: Seq<u8>, slot_id: int, payload: Seq<u8>) -> Seq<u8> {
    splice(
        splice(buf, slot_at(buf, slot_id).off as int, payload),
        slot_pos(buf, slot_id) + 2,
        spec_u16_to_le_bytes(payload.len() as u16),
    )
}

/// What `page_overwrite_if_fits` answers for a page, a slot and a payload
/// length: the checks in the order in which they are made.
pub open spec fn overwrite_outcome(buf: Seq<u8>, slot_id: int, len: nat) -> Result<bool, PageError> {
    if !(is_page(buf) && buf.len() == PAGE_SIZE) {
        Err(PageError::CorruptPage)
    } else if slot_id >= record_count(buf) || !slot_at(buf, slot_id).live() {
        Err(PageError::BadSlot)
    } else if slot_at(buf, slot_id).end() > PAGE_SIZE {
        Err(PageError::CorruptPage)
    } else {
        Ok(len <= slot_at(buf, slot_id).len)
    }
}

/// Rewrites the payload of a live slot in place if the new payload is no
/// longer than the old one, and says whether it did. The slot then gives the
/// new length. Where the payload is longer the page is not changed and the
/// answer is `false`. `BadSlot` where the slot does not exist or is a
/// tombstone; `CorruptPage` where the buffer is no page or the slot points
/// outside it.
pub fn page_overwrite_if_fits(buf: &mut Vec<u8>, slot_id: u16, payload: &[u8]) -> (done: Result<
    bool,
    PageError,
>)
    ensures
        done == overwrite_outcome(old(buf)@, slot_id as int, payload@.len()),
        final(buf)@ == if done == Ok::<bool, PageError>(true) {
            overwritten(old(buf)@, slot_id as int, payload@)
        } else {
            old(buf)@
        },
{
    match page_free_bytes(buf.as_slice()) {
        Ok(_) => {},
        Err(e) => {
            return Err(e);
        },
    }
    if buf.len() != PAGE_SIZE {
        return Err(PageError::CorruptPage);
    }
    let rc = read_u16(buf.as_slice(), 12);
    if slot_id >= rc {
        return Err(PageError::BadSlot);
    }
    let pos = PAGE_SIZE - (rc as usize) * SLOT_LEN + (slot_id as usize) * SLOT_LEN;
    let off = read_u16(buf.as_slice(), pos) as usize;
    let len = read_u16(buf.as_slice(), pos + 2) as usize;
    let flags = buf[pos + 4];
    if flags != SLOT_LIVE {
        return Err(PageError::BadSlot);
    }
    if off + len > PAGE_SIZE {
        return Err(PageError::CorruptPage);
    }
    if payload.len() > len {
        return Ok(false);
    }
    let new_len = u16_to_le_bytes(payload.len() as u16);
    proof {
        lemma_auto_spec_u16_to_from_le_bytes();
    }
    write_at(buf, off, payload);
    write_at(buf, pos + 2, new_len.as_slice());
    Ok(true)
}

/// After an overwrite in a page of this layer the slot gives the new payload
/// and its length; every other slot, and the payload of every other slot, is
/// as it was; and the page is still a page of this layer.
#[verifier::rlimit(60)]
#[verifier::spinoff_prover]
pub proof fn lemma_overwrite(buf: Seq<u8>, slot_id: int, payload: Seq<u8>)
    requires
        page_wf(buf),
        0 <= slot_id < record_count(buf),
        payload.len() <= slot_at(buf, slot_id).len,
    ensures
        page_wf(overwritten(buf, slot_id, payload)),
        record_count(overwritten(buf, slot_id, payload)) == record_count(buf),
        slot_at(overwritten(buf, slot_id, payload), slot_id) == (Slot {
            len: payload.len() as u16,
            ..slot_at(buf, slot_id)
        }),
        slot_payload(
            overwritten(buf, slot_id, payload),
            slot_at(overwritten(buf, slot_id, payload), slot_id),
        ) == payload,
        forall|i: int|
            0 <= i < record_count(buf) && i != slot_id ==> #[trigger] slot_at(
                overwritten(buf, slot_id, payload),
                i,
            ) == slot_at(buf, i) && slot_payload(
                overwritten(buf, slot_id, payload),
                slot_at(buf, i),
            ) == slot_payload(buf, slot_at(buf, i)),
{
    let after = overwritten(buf, slot_id, payload);
    let slot = slot_at(buf, slot_id);
    let pos = slot_pos(buf, slot_id);
    let n = record_count(buf);
    let s = slot_dir_start(buf);
    lemma_auto_spec_u16_to_from_le_bytes();
    assert(HEADER_LEN <= slot.off && slot.end() <= s);
    assert(s <= pos && pos + SLOT_LEN <= PAGE_SIZE);
    assert(after.len() == PAGE_SIZE);
    assert(after.subrange(0, 4) =~= buf.subrange(0, 4));
    assert(after.subrange(12, 14) =~= buf.subrange(12, 14));
    assert(record_count(after) == n);
    assert(after.subrange(pos, pos + 2) =~= buf.subrange(pos, pos + 2));
    assert(after.subrange(pos + 2, pos + 4) =~= spec_u16_to_le_bytes(payload.len() as u16));
    assert(after[pos + 4] == buf[pos + 4]);
    assert(slot_at(after, slot_id) == (Slot { len: payload.len() as u16, ..slot }));
    assert(slot_payload(after, slot_at(after, slot_id)) =~= payload);
    assert forall|i: int| 0 <= i < n && i != slot_id implies #[trigger] slot_at(after, i)
        == slot_at(buf, i) && slot_payload(after, slot_at(buf, i)) == slot_payload(
        buf,
        slot_at(buf, i),
    ) by {
        let q = slot_pos(buf, i);
        assert(q + SLOT_LEN <= pos || pos + SLOT_LEN <= q) by {
            if i < slot_id {
                assert(q + SLOT_LEN <= pos) by (nonlinear_arith)
                    requires
                        q == s + i * 5,
                        pos == s + slot_id * 5,
                        i < slot_id,
                ;
            } else {
                assert(pos + SLOT_LEN <= q) by (nonlinear_arith)
                    requires
                        q == s + i * 5,
                        pos == s + slot_id * 5,
                        slot_id < i,
                ;
            }
        }
        assert(after.subrange(q, q + 2) =~= buf.subrange(q, q + 2));
        assert(after.subrange(q + 2, q + 4) =~= buf.subrange(q + 2, q + 4));
        assert(after[q + 4] == buf[q + 4]);
        let other = slot_at(buf, i);
        assert(other.end() <= slot.off || slot.end() <= other.off) by {
            if i < slot_id {
                lemma_slots_ordered(buf, i, slot_id);
            } else {
                lemma_slots_ordered(buf, slot_id, i);
            }
        }
        assert(slot_payload(after, other) =~= slot_payload(buf, other));
    }
    assert forall|i: int| 0 <= i < n implies HEADER_LEN <= (#[trigger] slot_at(after, i)).off
        && slot_at(after, i).end() <= slot_dir_start(after) by {
        if i != slot_id {
            assert(slot_at(after, i) == slot_at(buf, i));
        }
    }
    assert forall|i: int| 0 <= i < n - 1 implies (#[trigger] slot_at(after, i)).end() <= slot_at(
        after,
        i + 1,
    ).off by {
        assert(slot_at(buf, i).end() <= slot_at(buf, i + 1).off);
        if i != slot_id {
            assert(slot_at(after, i) == slot_at(buf, i));
        }
        if i + 1 != slot_id {
            assert(slot_at(after, i + 1) == slot_at(buf, i + 1));
        }
    }
}

/// Overwriting a slot of a page of this layer a second time with the same
/// payload is allowed and changes nothing.
pub proof fn lemma_overwrite_idempotent(buf: Seq<u8>, slot_id: int, payload: Seq<u8>)
    requires
        page_wf(buf),
        0 <= slot_id,
        overwrite_outcome(buf, slot_id, payload.len()) == Ok::<bool, PageError>(true),
    ensures
        overwrite_outcome(overwritten(buf, slot_id, payload), slot_id, payload.len()) == Ok::<
            bool,
            PageError,
        >(true),
        overwritten(overwritten(buf, slot_id, payload), slot_id, payload) == overwritten(
            buf,
            slot_id,
            payload,
        ),
{
    let once = overwritten(buf, slot_id, payload);
    lemma_overwrite(buf, slot_id, payload);
    lemma_auto_spec_u16_to_from_le_bytes();
    assert(slot_pos(once, slot_id) == slot_pos(buf, slot_id));
    assert(overwritten(once, slot_id, payload) =~= once);
}

/// A page after slot `slot_id` has been tombstoned.
pub open spec fn tombstoned(buf: Seq<u8>, slot_id: int) -> Seq<u8> {
    buf.update(slot_pos(buf, slot_id) + 4, SLOT_TOMBSTONE)
}

/// Marks a slot as a tombstone; its payload stays where it is. `BadSlot`
/// where the slot does not exist, `CorruptPage` where the buffer is no page;
/// a refused page is not changed.
pub fn page_set_tombstone(buf: &mut Vec<u8>, slot_id: u16) -> (done: Result<(), PageError>)
    ensures
        match done {
            Ok(()) => is_page(old(buf)@) && old(buf)@.len() == PAGE_SIZE && slot_id
                < record_count(old(buf)@) && final(buf)@ == tombstoned(old(buf)@, slot_id as int),
            Err(e) => final(buf)@ == old(buf)@ && e == if is_page(old(buf)@) && old(buf)@.len()
                == PAGE_SIZE {
                PageError::BadSlot
            } else {
                PageError::CorruptPage
            } && !(is_page(old(buf)@) && old(buf)@.len() == PAGE_SIZE && slot_id < record_count(
                old(buf)@,
            )),
        },
{
    match page_free_bytes(buf.as_slice()) {
        Ok(_) => {},
        Err(e) => {
            return Err(e);
        },
    }
    if buf.len() != PAGE_SIZE {
        return Err(PageError::CorruptPage);
    }
    let rc = read_u16(buf.as_slice(), 12);
    if slot_id >= rc {
        return Err(PageError::BadSlot);
    }
    let pos = PAGE_SIZE - (rc as usize) * SLOT_LEN + (slot_id as usize) * SLOT_LEN;
    buf.set(pos + 4, SLOT_TOMBSTONE);
    Ok(())
}

/// After a tombstone in a page of this layer the slot is no longer live but
/// points where it pointed; every other slot and every payload is as it was;
/// the free bytes are as they were; and the page is still a page of this
/// layer.
pub proof fn lemma_tombstone(buf: Seq<u8>, slot_id: int)
    requires
        page_wf(buf),
        0 <= slot_id < record_count(buf),
    ensures
        page_wf(tombstoned(buf, slot_id)),
        record_count(tombstoned(buf, slot_id)) == record_count(buf),
        slot_at(tombstoned(buf, slot_id), slot_id) == (Slot {
            flags: SLOT_TOMBSTONE,
            ..slot_at(buf, slot_id)
        }),
        forall|i: int|
            0 <= i < record_count(buf) && i != slot_id ==> #[trigger] slot_at(
                tombstoned(buf, slot_id),
                i,
            ) == slot_at(buf, i),
        forall|i: int|
            0 <= i < record_count(buf) ==> slot_payload(
                tombstoned(buf, slot_id),
                #[trigger] slot_at(buf, i),
            ) == slot_payload(buf, slot_at(buf, i)),
        payload_end(tombstoned(buf, slot_id)) == payload_end(buf),
        free_bytes(tombstoned(buf, slot_id)) == free_bytes(buf),
{
    let after = tombstoned(buf, slot_id);
    let pos = slot_pos(buf, slot_id);
    let n = record_count(buf);
    let s = slot_dir_start(buf);
    assert(s <= pos && pos + SLOT_LEN <= PAGE_SIZE) by (nonlinear_arith)
        requires
            pos == s + slot_id * 5,
            s == PAGE_SIZE - n * 5,
            0 <= slot_id < n,
    ;
    assert(after.subrange(0, 4) =~= buf.subrange(0, 4));
    assert(after.subrange(12, 14) =~= buf.subrange(12, 14));
    assert(record_count(after) == n);
    assert forall|i: int| 0 <= i < n implies slot_at(after, i).off == slot_at(buf, i).off
        && slot_at(after, i).len == slot_at(buf, i).len && (i != slot_id ==> slot_at(after, i)
        == slot_at(buf, i)) by {
        let q = slot_pos(buf, i);
        assert(s <= q && q + SLOT_LEN <= PAGE_SIZE) by (nonlinear_arith)
            requires
                q == s + i * 5,
                s == PAGE_SIZE - n * 5,
                0 <= i < n,
        ;
        assert(i != slot_id ==> q + SLOT_LEN <= pos || pos + SLOT_LEN <= q) by (nonlinear_arith)
            requires
                q == s + i * 5,
                pos == s + slot_id * 5,
        ;
        assert(after.subrange(q, q + 2) =~= buf.subrange(q, q + 2));
        assert(after.subrange(q + 2, q + 4) =~= buf.subrange(q + 2, q + 4));
    }
    assert forall|i: int| 0 <= i < n implies slot_payload(after, #[trigger] slot_at(buf, i))
        == slot_payload(buf, slot_at(buf, i)) by {
        assert(slot_payload(after, slot_at(buf, i)) =~= slot_payload(buf, slot_at(buf, i)));
    }
    assert forall|i: int| 0 <= i < n - 1 implies (#[trigger] slot_at(after, i)).end() <= slot_at(
        after,
        i + 1,
    ).off by {
        assert(slot_at(buf, i).end() <= slot_at(buf, i + 1).off);
    }
    lemma_max_end_ignores_flags(page_slots(after), page_slots(buf));
}

/// The end of the payload area does not depend on the flags of the slots.
pub proof fn lemma_max_end_ignores_flags(a: Seq<Slot>, b: Seq<Slot>)
    requires
        a.len() == b.len(),
        forall|i: int| 0 <= i < a.len() ==> a[i].off == b[i].off && a[i].len == b[i].len,
    ensures
        max_end(a) == max_end(b),
    decreases a.len(),
{
    if a.len() > 0 {
        lemma_max_end_ignores_flags(a.drop_last(), b.drop_last());
    }
}

/// Slot `slot_id` of a page.
pub fn read_slot(buf: &[u8], slot_id: u16) -> (slot: Slot)
    requires
        is_page(buf@),
        slot_id < record_count(buf@),
    ensures
        slot == slot_at(buf@, slot_id as int),
{
    let rc = read_u16(buf, 12) as usize;
    let pos = PAGE_SIZE - rc * SLOT_LEN + (slot_id as usize) * SLOT_LEN;
    Slot { off: read_u16(buf, pos), len: read_u16(buf, pos + 2), flags: buf[pos + 4] }
}

/// The number of slots of a page.
pub fn page_record_count(buf: &[u8]) -> (count: u16)
    requires
        is_page(buf@),
    ensures
        count == record_count(buf@),
{
    read_u16(buf, 12)
}

/// Whether a buffer is a page of this layer.
#[verifier::rlimit(80)]
#[verifier::spinoff_prover]
pub fn check_page(buf: &[u8]) -> (ok: bool)
    ensures
        ok == page_wf(buf@),
{
    if buf.len() != PAGE_SIZE {
        return false;
    }
    match page_free_bytes(buf) {
        Ok(_) => {},
        Err(_) => {
            return false;
        },
    }
    let rc = read_u16(buf, 12);
    let dir_start = PAGE_SIZE - (rc as usize) * SLOT_LEN;
    let mut prev_end: usize = HEADER_LEN;
    let mut i: u16 = 0;
    while i < rc
        invariant
            i <= rc,
            rc == record_count(buf@),
            dir_start == slot_dir_start(buf@),
            is_page(buf@),
            buf@.len() == PAGE_SIZE,
            HEADER_LEN <= prev_end <= dir_start,
            i == 0 ==> prev_end == HEADER_LEN,
            i > 0 ==> prev_end == slot_at(buf@, i - 1).end(),
            forall|j: int|
                0 <= j < i ==> HEADER_LEN <= (#[trigger] slot_at(buf@, j)).off && slot_at(
                    buf@,
                    j,
                ).end() <= slot_dir_start(buf@),
            forall|j: int|
                0 <= j < i - 1 ==> (#[trigger] slot_at(buf@, j)).end() <= slot_at(buf@, j + 1).off,
        decreases rc - i,
    {
        let slot = read_slot(buf, i);
        let off = slot.off as usize;
        let end = off + slot.len as usize;
        if off < prev_end || end > dir_start {
            proof {
                if off < HEADER_LEN || end > dir_start {
                    assert(!(HEADER_LEN <= slot_at(buf@, i as int).off && slot_at(
                        buf@,
                        i as int,
                    ).end() <= slot_dir_start(buf@)));
                } else {
                    assert(i > 0);
                    assert(!(slot_at(buf@, i - 1).end() <= slot_at(buf@, (i - 1) + 1).off));
                }
            }
            return false;
        }
        prev_end = end;
        i += 1;
    }
    true
}

} // verus!
