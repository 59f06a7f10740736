//! A table in memory: its schema, the pages of its heap segment, and the
//! state that goes with them: where each live row lies, how much room each
//! page has, and which page and row identifiers come next.

use std::collections::HashMap;
use vstd::prelude::*;
use vstd::std_specs::hash::*;
use crate::error::{CatalogError, PageError};
use crate::le::{read_u64, u64_at};
use crate::page::{
    appended, overwrite_outcome, fresh_page, free_bytes, lemma_append, lemma_append_wf,
    lemma_fresh_page, lemma_overwrite, lemma_tombstone, new_page, overwritten, page_append,
    page_free_bytes, page_overwrite_if_fits, page_record_count, page_set_tombstone, page_wf,
    read_slot, record_count, slot_at, slot_payload, tombstoned, HEADER_LEN, PAGE_SIZE,
    SLOT_LEN,
};
use crate::record::Record;
use crate::record_codec::{
    lemma_record_round_trip, record_decoding, record_payload, row_values,
    serialize_record_for_page, value_bytes, values_bytes,
};
use crate::types::{column_views, Column, ColumnView, RowId, TupleLoc};
use crate::value::ValueView;

verus! {

broadcast use vstd::std_specs::hash::group_hash_axioms;

/// The number of the only heap segment of a table.
pub const HEAP_SEGMENT: u32 = 1;

/// What a table keeps in memory about its heap.
#[derive(Debug, Clone)]
pub struct TableState {
    /// Where the live copy of each row lies.
    pub row_index: HashMap<RowId, TupleLoc>,
    /// The free bytes of each page.
    pub free_space: HashMap<u32, usize>,
    /// The identifier that the next new page gets.
    pub next_page_id: u32,
    /// The identifier that the next new row gets.
    pub next_row_id: RowId,
}

/// A table with its heap: the schema, every page of the segment in the
/// order of the page identifiers, and the state.
#[derive(Debug, Clone)]
pub struct TableStore {
    pub name: String,
    pub columns: Vec<Column>,
    pub pages: Vec<Vec<u8>>,
    pub state: TableState,
}

/// The pages of a heap as byte sequences.
pub open spec fn heap_view(pages: Seq<Vec<u8>>) -> Seq<Seq<u8>> {
    Seq::new(pages.len(), |i: int| pages[i]@)
}

/// The location of slot `sid` of page `pid`.
pub open spec fn loc_of(pid: int, sid: int) -> TupleLoc {
    TupleLoc { seg: HEAP_SEGMENT, page_id: pid as u32, slot_id: sid as u16, flags: 0 }
}

/// Whether slot `sid` of page `pid` exists and is live.
pub open spec fn live_at(heap: Seq<Seq<u8>>, pid: int, sid: int) -> bool {
    &&& 0 <= pid < heap.len()
    &&& 0 <= sid < record_count(heap[pid])
    &&& slot_at(heap[pid], sid).live()
}

/// The payload of slot `sid` of page `pid`.
pub open spec fn payload_at(heap: Seq<Seq<u8>>, pid: int, sid: int) -> Seq<u8> {
    slot_payload(heap[pid], slot_at(heap[pid], sid))
}

/// The row identifier that a payload starts with.
pub open spec fn row_id_of(payload: Seq<u8>) -> u64 {
    u64_at(payload, 0)
}

/// Whether every page of a heap is a page of the page layer, and the heap
/// has no more pages than page identifiers.
#[verifier::opaque]
pub open spec fn pages_wf(heap: Seq<Seq<u8>>) -> bool {
    &&& heap.len() <= u32::MAX
    &&& forall|pid: int| 0 <= pid < heap.len() ==> page_wf(#[trigger] heap[pid])
}

/// Whether every live payload of a heap can be read under the schema.
#[verifier::opaque]
pub open spec fn rows_wf(heap: Seq<Seq<u8>>, cols: Seq<ColumnView>) -> bool {
    forall|pid: int, sid: int| #[trigger]
        live_at(heap, pid, sid) ==> record_decoding(payload_at(heap, pid, sid), cols) is Ok
}

/// Whether every entry of an index points at a live slot that holds the
/// row.
#[verifier::opaque]
pub open spec fn index_points(heap: Seq<Seq<u8>>, index: Map<RowId, TupleLoc>) -> bool {
    forall|row_id: RowId| #[trigger]
        index.contains_key(row_id) ==> {
            let loc = index[row_id];
            &&& loc == loc_of(loc.page_id as int, loc.slot_id as int)
            &&& live_at(heap, loc.page_id as int, loc.slot_id as int)
            &&& row_id_of(payload_at(heap, loc.page_id as int, loc.slot_id as int)) == row_id
        }
}

/// Whether a slot is what the index has for the row that it holds.
pub open spec fn indexed(heap: Seq<Seq<u8>>, index: Map<RowId, TupleLoc>, pid: int, sid: int) -> bool {
    index.contains_key(row_id_of(payload_at(heap, pid, sid))) && index[row_id_of(
        payload_at(heap, pid, sid),
    )] == loc_of(pid, sid)
}

/// Whether every live slot, but for slot `sid` of page `pid`, is what the
/// index has for the row that it holds.
#[verifier::opaque]
pub open spec fn index_covers_but(
    heap: Seq<Seq<u8>>,
    index: Map<RowId, TupleLoc>,
    pid: int,
    sid: int,
) -> bool {
    forall|p: int, s: int| #[trigger]
        live_at(heap, p, s) ==> (p == pid && s == sid) || indexed(heap, index, p, s)
}

/// Whether every live slot is what the index has for the row that it holds.
pub open spec fn index_covers(heap: Seq<Seq<u8>>, index: Map<RowId, TupleLoc>) -> bool {
    index_covers_but(heap, index, -1, -1)
}

/// Whether an index and a heap agree: every entry of the index points at a
/// live slot that holds the row, and every live slot is what the index has
/// for the row it holds. So each row has one live copy.
pub open spec fn index_wf(heap: Seq<Seq<u8>>, index: Map<RowId, TupleLoc>) -> bool {
    index_points(heap, index) && index_covers(heap, index)
}

/// Whether a free-space map is that of a heap: it knows exactly the pages
/// of the heap, and for each the free bytes of the page as it is.
#[verifier::opaque]
pub open spec fn free_wf(heap: Seq<Seq<u8>>, free: Map<u32, usize>) -> bool {
    &&& forall|pid: u32| #[trigger] free.contains_key(pid) <==> pid < heap.len()
    &&& forall|pid: u32|
        pid < heap.len() ==> (#[trigger] free[pid]) == free_bytes(heap[pid as int])
}

/// Whether every row of an index is below the next row identifier, unless
/// the identifiers have run out.
#[verifier::opaque]
pub open spec fn ids_below(index: Map<RowId, TupleLoc>, next: RowId) -> bool {
    forall|row_id: RowId| #[trigger]
        index.contains_key(row_id) ==> row_id < next || next == u64::MAX
}

/// Whether two heaps have as many pages, and every slot but slot `sid` of
/// page `pid` is live in the one if it is in the other and has the same
/// payload in both.
#[verifier::opaque]
pub open spec fn same_but(heap: Seq<Seq<u8>>, heap2: Seq<Seq<u8>>, pid: int, sid: int) -> bool {
    &&& heap2.len() == heap.len()
    &&& forall|p: int, s: int|
        #![trigger live_at(heap2, p, s)]
        #![trigger live_at(heap, p, s)]
        !(p == pid && s == sid) ==> (live_at(heap2, p, s) <==> live_at(heap, p, s))
    &&& forall|p: int, s: int|
        #![trigger payload_at(heap2, p, s)]
        !(p == pid && s == sid) && live_at(heap, p, s) ==> payload_at(heap2, p, s) == payload_at(
            heap,
            p,
            s,
        )
}

/// Whether a heap is another one as it is or with a page without slots
/// added.
pub open spec fn extends(heap: Seq<Seq<u8>>, heap2: Seq<Seq<u8>>) -> bool {
    heap2 == heap || heap2 == heap.push(fresh_page())
}

/// Whether a page is known to have at least `need` free bytes.
pub open spec fn has_room(free: Map<u32, usize>, pid: int, need: int) -> bool {
    0 <= pid <= u32::MAX && free.contains_key(pid as u32) && free[pid as u32] >= need
}

/// Whether page `pid` is the best fit for `need` bytes among the pages
/// from page `from` to before page `pages`: it has the room, no page of
/// them that has the room has less free, and of those with as much free it
/// has the lowest identifier.
pub open spec fn is_best_fit_from(
    free: Map<u32, usize>,
    from: int,
    pages: int,
    need: int,
    pid: int,
) -> bool {
    &&& from <= pid < pages
    &&& has_room(free, pid, need)
    &&& forall|q: int|
        from <= q < pages && #[trigger] has_room(free, q, need) ==> free[pid as u32]
            < free[q as u32] || (free[pid as u32] == free[q as u32] && pid <= q)
}

/// Whether none of the pages from page `from` to before page `pages` has
/// `need` free bytes.
pub open spec fn no_room_from(free: Map<u32, usize>, from: int, pages: int, need: int) -> bool {
    forall|q: int| from <= q < pages ==> !#[trigger] has_room(free, q, need)
}

/// Whether page `pid` is the best fit for `need` bytes among the first
/// `pages` pages.
pub open spec fn is_best_fit(free: Map<u32, usize>, pages: int, need: int, pid: int) -> bool {
    is_best_fit_from(free, 0, pages, need, pid)
}

/// Whether none of the first `pages` pages has `need` free bytes.
pub open spec fn no_room(free: Map<u32, usize>, pages: int, need: int) -> bool {
    no_room_from(free, 0, pages, need)
}

/// Whether `after` is `before` with one live slot more, behind the others,
/// that holds `payload`; the other slots and their payloads are as they
/// were.
pub open spec fn gains_slot(before: Seq<u8>, after: Seq<u8>, payload: Seq<u8>) -> bool {
    &&& record_count(after) == record_count(before) + 1
    &&& forall|s: int|
        0 <= s < record_count(before) ==> #[trigger] slot_at(after, s) == slot_at(before, s)
            && slot_payload(after, slot_at(before, s)) == slot_payload(before, slot_at(before, s))
    &&& slot_at(after, record_count(before)).live()
    &&& slot_payload(after, slot_at(after, record_count(before))) == payload
}

/// Whether `after` is `before` with the payload of slot `sid` replaced by
/// `payload`; the slot is live before and after, and every other slot and
/// its payload is as it was.
pub open spec fn rewrites_slot(before: Seq<u8>, after: Seq<u8>, sid: int, payload: Seq<u8>) -> bool {
    &&& record_count(after) == record_count(before)
    &&& 0 <= sid < record_count(before)
    &&& forall|s: int|
        0 <= s < record_count(before) && s != sid ==> #[trigger] slot_at(after, s) == slot_at(
            before,
            s,
        ) && slot_payload(after, slot_at(before, s)) == slot_payload(before, slot_at(before, s))
    &&& slot_at(before, sid).live()
    &&& slot_at(after, sid).live()
    &&& slot_payload(after, slot_at(after, sid)) == payload
}

/// Whether `after` is `before` with slot `sid` tombstoned; every other slot
/// and every payload is as it was.
pub open spec fn drops_slot(before: Seq<u8>, after: Seq<u8>, sid: int) -> bool {
    &&& record_count(after) == record_count(before)
    &&& 0 <= sid < record_count(before)
    &&& forall|s: int|
        0 <= s < record_count(before) && s != sid ==> #[trigger] slot_at(after, s) == slot_at(
            before,
            s,
        ) && slot_payload(after, slot_at(before, s)) == slot_payload(before, slot_at(before, s))
    &&& !slot_at(after, sid).live()
}

/// A page gains a slot by an append.
pub proof fn lemma_append_gains_slot(page: Seq<u8>, payload: Seq<u8>)
    requires
        page_wf(page),
        payload.len() + SLOT_LEN <= free_bytes(page),
    ensures
        gains_slot(page, appended(page, payload), payload),
        page_wf(appended(page, payload)),
{
    let after = appended(page, payload);
    let n = record_count(page);
    lemma_append(page, payload);
    lemma_append_wf(page, payload);
    assert forall|s: int| 0 <= s < n implies #[trigger] slot_at(after, s) == slot_at(page, s)
        && slot_payload(after, slot_at(page, s)) == slot_payload(page, slot_at(page, s)) by {
        assert(crate::page::page_slots(after)[s] == slot_at(after, s));
        assert(crate::page::page_slots(page)[s] == slot_at(page, s));
    }
    assert(crate::page::page_slots(after)[n] == slot_at(after, n));
}

/// A page has a slot rewritten by an overwrite that fits.
pub proof fn lemma_overwrite_rewrites_slot(page: Seq<u8>, sid: int, payload: Seq<u8>)
    requires
        page_wf(page),
        0 <= sid < record_count(page),
        slot_at(page, sid).live(),
        payload.len() <= slot_at(page, sid).len,
    ensures
        rewrites_slot(page, overwritten(page, sid, payload), sid, payload),
        page_wf(overwritten(page, sid, payload)),
{
    lemma_overwrite(page, sid, payload);
}

/// A page has a slot dropped by a tombstone.
pub proof fn lemma_tombstone_drops_slot(page: Seq<u8>, sid: int)
    requires
        page_wf(page),
        0 <= sid < record_count(page),
    ensures
        drops_slot(page, tombstoned(page, sid), sid),
        page_wf(tombstoned(page, sid)),
        free_bytes(tombstoned(page, sid)) == free_bytes(page),
{
    lemma_tombstone(page, sid);
}

/// Putting a page that has gained, rewritten or dropped slot `sid` in the
/// place of the page it came from changes the heap in that slot only.
pub proof fn lemma_step(heap: Seq<Seq<u8>>, pid: int, after: Seq<u8>, sid: int, payload: Seq<u8>)
    requires
        0 <= pid < heap.len(),
        gains_slot(heap[pid], after, payload) && sid == record_count(heap[pid]) || rewrites_slot(
            heap[pid],
            after,
            sid,
            payload,
        ) || drops_slot(heap[pid], after, sid),
    ensures
        same_but(heap, heap.update(pid, after), pid, sid),
        gains_slot(heap[pid], after, payload) && sid == record_count(heap[pid]) ==> !live_at(
            heap,
            pid,
            sid,
        ) && live_at(heap.update(pid, after), pid, sid) && payload_at(
            heap.update(pid, after),
            pid,
            sid,
        ) == payload,
        rewrites_slot(heap[pid], after, sid, payload) ==> live_at(heap, pid, sid) && live_at(
            heap.update(pid, after),
            pid,
            sid,
        ) && payload_at(heap.update(pid, after), pid, sid) == payload,
        drops_slot(heap[pid], after, sid) ==> !live_at(heap.update(pid, after), pid, sid),
{
    reveal(same_but);
    let heap2 = heap.update(pid, after);
    let page = heap[pid];
    assert forall|p: int, s: int| !(p == pid && s == sid) implies (live_at(heap2, p, s)
        <==> live_at(heap, p, s)) by {
        if p == pid && 0 <= s < record_count(page) {
            assert(slot_at(after, s) == slot_at(page, s));
        }
    }
    assert forall|p: int, s: int| !(p == pid && s == sid) && live_at(heap, p, s) implies payload_at(
        heap2,
        p,
        s,
    ) == payload_at(heap, p, s) by {
        if p == pid {
            assert(slot_at(after, s) == slot_at(page, s));
        }
    }
}

/// A heap without pages is well formed under any schema, with an index and
/// a free-space map that hold nothing.
pub proof fn lemma_empty_heap(cols: Seq<ColumnView>, next: RowId)
    ensures
        pages_wf(Seq::<Seq<u8>>::empty()),
        rows_wf(Seq::<Seq<u8>>::empty(), cols),
        index_wf(Seq::<Seq<u8>>::empty(), Map::<RowId, TupleLoc>::empty()),
        free_wf(Seq::<Seq<u8>>::empty(), Map::<u32, usize>::empty()),
        ids_below(Map::<RowId, TupleLoc>::empty(), next),
{
    reveal(pages_wf);
    reveal(rows_wf);
    reveal(index_points);
    reveal(index_covers_but);
    reveal(free_wf);
    reveal(ids_below);
}

/// In a heap whose pages are pages, each page is a page, and there are no
/// more pages than page identifiers.
pub proof fn lemma_pages_get(heap: Seq<Seq<u8>>, pid: int)
    requires
        pages_wf(heap),
    ensures
        heap.len() <= u32::MAX,
        0 <= pid < heap.len() ==> page_wf(heap[pid]),
{
    reveal(pages_wf);
}

/// A heap whose pages are pages stays one when a page is put in the place
/// of one of its pages.
pub proof fn lemma_pages_step(heap: Seq<Seq<u8>>, pid: int, after: Seq<u8>)
    requires
        pages_wf(heap),
        0 <= pid < heap.len(),
        page_wf(after),
    ensures
        pages_wf(heap.update(pid, after)),
{
    reveal(pages_wf);
    let heap2 = heap.update(pid, after);
    assert forall|p: int| 0 <= p < heap2.len() implies page_wf(#[trigger] heap2[p]) by {
        if p != pid {
            assert(heap2[p] == heap[p]);
        }
    }
}

/// A well-formed heap with its index and free-space map stays well formed
/// when a page without slots is added.
pub proof fn lemma_push(
    heap: Seq<Seq<u8>>,
    cols: Seq<ColumnView>,
    index: Map<RowId, TupleLoc>,
    free: Map<u32, usize>,
)
    requires
        pages_wf(heap),
        rows_wf(heap, cols),
        index_wf(heap, index),
        free_wf(heap, free),
        heap.len() < u32::MAX,
    ensures
        pages_wf(heap.push(fresh_page())),
        rows_wf(heap.push(fresh_page()), cols),
        index_wf(heap.push(fresh_page()), index),
        free_wf(
            heap.push(fresh_page()),
            free.insert(heap.len() as u32, (PAGE_SIZE - HEADER_LEN) as usize),
        ),
{
    reveal(pages_wf);
    reveal(rows_wf);
    reveal(index_points);
    reveal(index_covers_but);
    reveal(free_wf);
    lemma_fresh_page();
    let heap2 = heap.push(fresh_page());
    assert forall|p: int, s: int| live_at(heap2, p, s) implies live_at(heap, p, s) && payload_at(
        heap2,
        p,
        s,
    ) == payload_at(heap, p, s) by {
        if p == heap.len() {
            assert(record_count(heap2[p]) == 0);
        }
    }
    assert forall|p: int, s: int| live_at(heap, p, s) implies live_at(heap2, p, s) && payload_at(
        heap2,
        p,
        s,
    ) == payload_at(heap, p, s) by {}
    assert forall|p: int, s: int| #[trigger] live_at(heap2, p, s) implies record_decoding(
        payload_at(heap2, p, s),
        cols,
    ) is Ok by {
        assert(live_at(heap, p, s));
    }
    assert forall|r: RowId| #[trigger] index.contains_key(r) implies {
        let l = index[r];
        &&& l == loc_of(l.page_id as int, l.slot_id as int)
        &&& live_at(heap2, l.page_id as int, l.slot_id as int)
        &&& row_id_of(payload_at(heap2, l.page_id as int, l.slot_id as int)) == r
    } by {
        let l = index[r];
        assert(live_at(heap, l.page_id as int, l.slot_id as int));
    }
    assert forall|p: int, s: int| #[trigger] live_at(heap2, p, s) implies indexed(
        heap2,
        index,
        p,
        s,
    ) by {
        assert(live_at(heap, p, s));
        assert(indexed(heap, index, p, s));
    }
    assert forall|p: int| 0 <= p < heap2.len() implies page_wf(#[trigger] heap2[p]) by {
        if p < heap.len() {
            assert(heap2[p] == heap[p]);
        }
    }
}

/// In a heap whose live payloads can be read, the payload of a live slot
/// can be read.
pub proof fn lemma_rows_get(heap: Seq<Seq<u8>>, cols: Seq<ColumnView>, pid: int, sid: int)
    requires
        rows_wf(heap, cols),
        live_at(heap, pid, sid),
    ensures
        record_decoding(payload_at(heap, pid, sid), cols) is Ok,
{
    reveal(rows_wf);
}

/// A heap whose live payloads can be read stays one when it changes in one
/// slot only and that slot is then not live or can be read.
pub proof fn lemma_rows_step(
    heap: Seq<Seq<u8>>,
    heap2: Seq<Seq<u8>>,
    cols: Seq<ColumnView>,
    pid: int,
    sid: int,
)
    requires
        rows_wf(heap, cols),
        same_but(heap, heap2, pid, sid),
        live_at(heap2, pid, sid) ==> record_decoding(payload_at(heap2, pid, sid), cols) is Ok,
    ensures
        rows_wf(heap2, cols),
{
    reveal(rows_wf);
    reveal(same_but);
    assert forall|p: int, s: int| #[trigger] live_at(heap2, p, s) implies record_decoding(
        payload_at(heap2, p, s),
        cols,
    ) is Ok by {
        if !(p == pid && s == sid) {
            assert(live_at(heap, p, s));
            assert(payload_at(heap2, p, s) == payload_at(heap, p, s));
        }
    }
}

/// What a free-space map of a heap knows of a page.
pub proof fn lemma_free_get(heap: Seq<Seq<u8>>, free: Map<u32, usize>, pid: u32)
    requires
        free_wf(heap, free),
    ensures
        free.contains_key(pid) <==> pid < heap.len(),
        pid < heap.len() ==> free[pid] == free_bytes(heap[pid as int]),
{
    reveal(free_wf);
}

/// The free-space map of a heap is still one when a page is put in the
/// place of a page and the map is given the free bytes of the new page.
pub proof fn lemma_free_step(
    heap: Seq<Seq<u8>>,
    free: Map<u32, usize>,
    pid: u32,
    after: Seq<u8>,
    room: usize,
)
    requires
        free_wf(heap, free),
        pid < heap.len(),
        room == free_bytes(after),
    ensures
        free_wf(heap.update(pid as int, after), free.insert(pid, room)),
        free.contains_key(pid) && free[pid] == room ==> free_wf(
            heap.update(pid as int, after),
            free,
        ),
{
    reveal(free_wf);
    let heap2 = heap.update(pid as int, after);
    let free2 = free.insert(pid, room);
    assert forall|q: u32| q < heap2.len() implies (#[trigger] free2[q]) == free_bytes(
        heap2[q as int],
    ) by {
        if q != pid {
            assert(heap2[q as int] == heap[q as int]);
        }
    }
    if free.contains_key(pid) && free[pid] == room {
        assert(free2 =~= free);
    }
}

/// What an index knows of one of its rows.
pub proof fn lemma_index_get(heap: Seq<Seq<u8>>, index: Map<RowId, TupleLoc>, row_id: RowId)
    requires
        index_points(heap, index),
        index.contains_key(row_id),
    ensures
        index[row_id] == loc_of(index[row_id].page_id as int, index[row_id].slot_id as int),
        live_at(heap, index[row_id].page_id as int, index[row_id].slot_id as int),
        row_id_of(
            payload_at(heap, index[row_id].page_id as int, index[row_id].slot_id as int),
        ) == row_id,
{
    reveal(index_points);
}

/// What an index knows of a live slot.
pub proof fn lemma_index_has(heap: Seq<Seq<u8>>, index: Map<RowId, TupleLoc>, pid: int, sid: int)
    requires
        index_covers(heap, index),
        live_at(heap, pid, sid),
    ensures
        indexed(heap, index, pid, sid),
{
    reveal(index_covers_but);
}

/// Where a heap changes in one slot only, and the index is pointed at that
/// slot for the row that the slot then holds, every entry of the index
/// still points at a live slot that holds its row, and every live slot but
/// the one that held the row before is what the index has for its row.
pub proof fn lemma_index_step_put(
    heap: Seq<Seq<u8>>,
    heap2: Seq<Seq<u8>>,
    index: Map<RowId, TupleLoc>,
    pid: int,
    sid: int,
    row_id: RowId,
)
    requires
        index_wf(heap, index),
        same_but(heap, heap2, pid, sid),
        heap.len() <= u32::MAX,
        0 <= pid <= u32::MAX,
        0 <= sid <= u16::MAX,
        live_at(heap2, pid, sid),
        row_id_of(payload_at(heap2, pid, sid)) == row_id,
        live_at(heap, pid, sid) ==> row_id_of(payload_at(heap, pid, sid)) == row_id,
    ensures
        index_points(heap2, index.insert(row_id, loc_of(pid, sid))),
        !index.contains_key(row_id) || live_at(heap, pid, sid) ==> index_covers(
            heap2,
            index.insert(row_id, loc_of(pid, sid)),
        ),
        index.contains_key(row_id) ==> index_covers_but(
            heap2,
            index.insert(row_id, loc_of(pid, sid)),
            index[row_id].page_id as int,
            index[row_id].slot_id as int,
        ),
{
    reveal(index_points);
    reveal(index_covers_but);
    reveal(same_but);
    let index2 = index.insert(row_id, loc_of(pid, sid));
    assert forall|r: RowId| #[trigger] index2.contains_key(r) implies {
        let l = index2[r];
        &&& l == loc_of(l.page_id as int, l.slot_id as int)
        &&& live_at(heap2, l.page_id as int, l.slot_id as int)
        &&& row_id_of(payload_at(heap2, l.page_id as int, l.slot_id as int)) == r
    } by {
        if r != row_id {
            assert(index.contains_key(r));
            let l = index[r];
            assert(live_at(heap, l.page_id as int, l.slot_id as int));
            if l.page_id as int == pid && l.slot_id as int == sid {
                assert(row_id_of(payload_at(heap, pid, sid)) == r);
                assert(false);
            }
            assert(live_at(heap2, l.page_id as int, l.slot_id as int));
            assert(payload_at(heap2, l.page_id as int, l.slot_id as int) == payload_at(
                heap,
                l.page_id as int,
                l.slot_id as int,
            ));
        }
    }
    let opid = index[row_id].page_id as int;
    let osid = index[row_id].slot_id as int;
    assert forall|p: int, s: int| #[trigger] live_at(heap2, p, s) implies (index.contains_key(row_id)
        && p == opid && s == osid) || indexed(heap2, index2, p, s) by {
        if !(p == pid && s == sid) {
            assert(live_at(heap, p, s));
            assert(payload_at(heap2, p, s) == payload_at(heap, p, s));
            assert(indexed(heap, index, p, s));
            let r = row_id_of(payload_at(heap, p, s));
            if r == row_id {
                assert(index[row_id] == loc_of(p, s));
                assert(p == opid && s == osid);
            }
        }
    }
    if !index.contains_key(row_id) || live_at(heap, pid, sid) {
        assert forall|p: int, s: int| #[trigger] live_at(heap2, p, s) implies indexed(
            heap2,
            index2,
            p,
            s,
        ) by {
            if index.contains_key(row_id) && p == opid && s == osid && !(p == pid && s == sid) {
                assert(live_at(heap, pid, sid));
                assert(indexed(heap, index, pid, sid));
                assert(index[row_id] == loc_of(pid, sid));
                assert(false);
            }
        }
    }
}

/// Where a heap changes in one slot only, that slot is then not live, no
/// entry of the index points at it, and every other live slot was what the
/// index has for its row, heap and index agree.
pub proof fn lemma_index_step_retire(
    heap: Seq<Seq<u8>>,
    heap2: Seq<Seq<u8>>,
    index: Map<RowId, TupleLoc>,
    pid: int,
    sid: int,
)
    requires
        index_points(heap, index),
        same_but(heap, heap2, pid, sid),
        !live_at(heap2, pid, sid),
        index_covers_but(heap, index, pid, sid),
        forall|r: RowId| #[trigger]
            index.contains_key(r) ==> !(index[r].page_id as int == pid && index[r].slot_id as int
                == sid),
    ensures
        index_wf(heap2, index),
{
    reveal(index_points);
    reveal(index_covers_but);
    reveal(same_but);
    assert forall|r: RowId| #[trigger] index.contains_key(r) implies {
        let l = index[r];
        &&& l == loc_of(l.page_id as int, l.slot_id as int)
        &&& live_at(heap2, l.page_id as int, l.slot_id as int)
        &&& row_id_of(payload_at(heap2, l.page_id as int, l.slot_id as int)) == r
    } by {
        let l = index[r];
        assert(live_at(heap, l.page_id as int, l.slot_id as int));
        assert(payload_at(heap2, l.page_id as int, l.slot_id as int) == payload_at(
            heap,
            l.page_id as int,
            l.slot_id as int,
        ));
    }
    assert forall|p: int, s: int| #[trigger] live_at(heap2, p, s) implies indexed(
        heap2,
        index,
        p,
        s,
    ) by {
        assert(!(p == pid && s == sid));
        assert(live_at(heap, p, s));
        assert(payload_at(heap2, p, s) == payload_at(heap, p, s));
        assert(indexed(heap, index, p, s));
    }
}

/// The entries of an index that point at `loc`.
pub open spec fn pointing_at(index: Map<RowId, TupleLoc>, loc: TupleLoc) -> Set<RowId> {
    Set::new(|r: RowId| index.contains_key(r) && index[r] == loc)
}

/// In a well-formed heap the only entry of the index that can point at a
/// location is the entry of the row that lies there, and it does where the
/// slot is live and the location is written as the index writes it.
pub proof fn lemma_pointing_at(heap: Seq<Seq<u8>>, index: Map<RowId, TupleLoc>, loc: TupleLoc)
    requires
        index_wf(heap, index),
        heap.len() <= u32::MAX,
    ensures
        live_at(heap, loc.page_id as int, loc.slot_id as int) && loc == loc_of(
            loc.page_id as int,
            loc.slot_id as int,
        ) ==> pointing_at(index, loc) == set![row_id_of(
            payload_at(heap, loc.page_id as int, loc.slot_id as int),
        )],
        !(live_at(heap, loc.page_id as int, loc.slot_id as int) && loc == loc_of(
            loc.page_id as int,
            loc.slot_id as int,
        )) ==> pointing_at(index, loc) == Set::<RowId>::empty(),
{
    reveal(index_points);
    reveal(index_covers_but);
    let pid = loc.page_id as int;
    let sid = loc.slot_id as int;
    if live_at(heap, pid, sid) && loc == loc_of(pid, sid) {
        let rid = row_id_of(payload_at(heap, pid, sid));
        assert(indexed(heap, index, pid, sid));
        assert(pointing_at(index, loc) =~= set![rid]);
    } else {
        assert(pointing_at(index, loc) =~= Set::<RowId>::empty());
    }
}

/// A row that is written without error fits its schema.
pub proof fn lemma_written_row_fits(values: Seq<ValueView>, cols: Seq<ColumnView>, k: nat)
    requires
        values.len() == cols.len(),
        k <= cols.len(),
        values_bytes(values, cols, k) is Ok,
    ensures
        forall|i: int| 0 <= i < k ==> value_bytes(#[trigger] values[i], cols[i].data_type) is Ok,
    decreases k,
{
    if k > 0 {
        lemma_written_row_fits(values, cols, (k - 1) as nat);
    }
}

/// The payload that a record is written to can be read back and gives the
/// record's row identifier and values.
pub proof fn lemma_payload_reads_back(
    row_id: RowId,
    entries: crate::record::Entries,
    cols: Seq<ColumnView>,
)
    requires
        record_payload(row_id, entries, cols) is Ok,
    ensures
        record_decoding(record_payload(row_id, entries, cols)->Ok_0, cols) == Ok::<
            (u64, Seq<ValueView>),
            crate::error::RecordError,
        >((row_id, row_values(entries, cols))),
        row_id_of(record_payload(row_id, entries, cols)->Ok_0) == row_id,
{
    let values = row_values(entries, cols);
    lemma_written_row_fits(values, cols, cols.len());
    lemma_record_round_trip(row_id, values, cols);
}

/// A payload that can be read starts with the row identifier that reading
/// it gives.
pub proof fn lemma_decoding_row_id(payload: Seq<u8>, cols: Seq<ColumnView>)
    requires
        record_decoding(payload, cols) is Ok,
    ensures
        record_decoding(payload, cols)->Ok_0.0 == row_id_of(payload),
        payload.len() >= 8,
{
}

/// Whether every row of an index has in the second heap the payload that
/// it has in the first, at the place where the index has it.
#[verifier::opaque]
pub open spec fn keeps_rows(
    heap: Seq<Seq<u8>>,
    heap2: Seq<Seq<u8>>,
    index: Map<RowId, TupleLoc>,
) -> bool {
    forall|r: RowId| #[trigger]
        index.contains_key(r) ==> payload_at(
            heap2,
            index[r].page_id as int,
            index[r].slot_id as int,
        ) == payload_at(heap, index[r].page_id as int, index[r].slot_id as int)
}

/// The rows of a heap under an index and a schema: for each row of the
/// index the values that its payload holds, in schema order.
pub open spec fn rows_of(
    heap: Seq<Seq<u8>>,
    cols: Seq<ColumnView>,
    index: Map<RowId, TupleLoc>,
) -> Map<RowId, Seq<ValueView>> {
    Map::new(
        |row_id: RowId| index.contains_key(row_id),
        |row_id: RowId|
            record_decoding(
                payload_at(heap, index[row_id].page_id as int, index[row_id].slot_id as int),
                cols,
            )->Ok_0.1,
    )
}

/// A heap that changes in one slot only keeps the rows of an index, but for
/// row `skip`, where that slot was not live or was the slot of that row.
pub proof fn lemma_keeps_step(
    heap: Seq<Seq<u8>>,
    heap2: Seq<Seq<u8>>,
    index: Map<RowId, TupleLoc>,
    pid: int,
    sid: int,
    skip: RowId,
)
    requires
        index_points(heap, index),
        same_but(heap, heap2, pid, sid),
        !live_at(heap, pid, sid) || row_id_of(payload_at(heap, pid, sid)) == skip,
    ensures
        keeps_rows(heap, heap2, index.remove(skip)),
        !live_at(heap, pid, sid) ==> keeps_rows(heap, heap2, index),
        forall|r: RowId| #[trigger]
            index.contains_key(r) && r != skip ==> !(index[r].page_id as int == pid
                && index[r].slot_id as int == sid),
{
    reveal(index_points);
    reveal(same_but);
    reveal(keeps_rows);
    assert forall|r: RowId| #[trigger] index.contains_key(r) && (r != skip || !live_at(
        heap,
        pid,
        sid,
    )) implies payload_at(heap2, index[r].page_id as int, index[r].slot_id as int) == payload_at(
        heap,
        index[r].page_id as int,
        index[r].slot_id as int,
    ) && !(index[r].page_id as int == pid && index[r].slot_id as int == sid) by {
        let l = index[r];
        assert(live_at(heap, l.page_id as int, l.slot_id as int));
    }
}

/// A heap with a page without slots added keeps the rows of an index.
pub proof fn lemma_keeps_push(heap: Seq<Seq<u8>>, heap2: Seq<Seq<u8>>, index: Map<RowId, TupleLoc>)
    requires
        index_points(heap, index),
        extends(heap, heap2),
    ensures
        keeps_rows(heap, heap2, index),
{
    reveal(index_points);
    reveal(keeps_rows);
    assert forall|r: RowId| #[trigger] index.contains_key(r) implies payload_at(
        heap2,
        index[r].page_id as int,
        index[r].slot_id as int,
    ) == payload_at(heap, index[r].page_id as int, index[r].slot_id as int) by {
        let l = index[r];
        assert(live_at(heap, l.page_id as int, l.slot_id as int));
    }
}

/// Keeping rows carries over two steps, and to an index with fewer rows.
pub proof fn lemma_keeps_chain(
    heap: Seq<Seq<u8>>,
    heap2: Seq<Seq<u8>>,
    heap3: Seq<Seq<u8>>,
    index: Map<RowId, TupleLoc>,
    skip: RowId,
)
    requires
        keeps_rows(heap, heap2, index) || keeps_rows(heap, heap2, index.remove(skip)),
        keeps_rows(heap2, heap3, index) || keeps_rows(heap2, heap3, index.remove(skip)),
    ensures
        keeps_rows(heap, heap3, index.remove(skip)),
{
    reveal(keeps_rows);
    assert forall|r: RowId| #[trigger] index.remove(skip).contains_key(r) implies payload_at(
        heap3,
        index.remove(skip)[r].page_id as int,
        index.remove(skip)[r].slot_id as int,
    ) == payload_at(
        heap,
        index.remove(skip)[r].page_id as int,
        index.remove(skip)[r].slot_id as int,
    ) by {
        assert(index.contains_key(r));
    }
}

/// Where a heap keeps the rows of an index but for one, and the index is
/// pointed at a slot whose payload reads as `values` for that row, the rows
/// are the rows that were, with the values of that row replaced.
pub proof fn lemma_rows_put(
    heap: Seq<Seq<u8>>,
    heap2: Seq<Seq<u8>>,
    cols: Seq<ColumnView>,
    index: Map<RowId, TupleLoc>,
    row_id: RowId,
    loc: TupleLoc,
    values: Seq<ValueView>,
)
    requires
        keeps_rows(heap, heap2, index.remove(row_id)),
        record_decoding(payload_at(heap2, loc.page_id as int, loc.slot_id as int), cols) == Ok::<
            (u64, Seq<ValueView>),
            crate::error::RecordError,
        >((row_id, values)),
    ensures
        rows_of(heap2, cols, index.insert(row_id, loc)) == rows_of(heap, cols, index).insert(
            row_id,
            values,
        ),
{
    reveal(keeps_rows);
    let wanted = rows_of(heap, cols, index).insert(row_id, values);
    let got = rows_of(heap2, cols, index.insert(row_id, loc));
    assert forall|r: RowId| wanted.contains_key(r) implies got.contains_key(r) && got[r]
        == wanted[r] by {
        if r != row_id {
            assert(index.remove(row_id).contains_key(r));
        }
    }
    assert(got =~= wanted);
}

/// Where a heap keeps the rows of an index but for some, and those are
/// taken out of the index, the rows are the rows that were without those.
pub proof fn lemma_rows_drop(
    heap: Seq<Seq<u8>>,
    heap2: Seq<Seq<u8>>,
    cols: Seq<ColumnView>,
    index: Map<RowId, TupleLoc>,
    gone: Set<RowId>,
)
    requires
        keeps_rows(heap, heap2, index.remove_keys(gone)),
    ensures
        rows_of(heap2, cols, index.remove_keys(gone)) == rows_of(heap, cols, index).remove_keys(
            gone,
        ),
{
    reveal(keeps_rows);
    let wanted = rows_of(heap, cols, index).remove_keys(gone);
    let got = rows_of(heap2, cols, index.remove_keys(gone));
    assert forall|r: RowId| wanted.contains_key(r) implies got.contains_key(r) && got[r]
        == wanted[r] by {
        assert(index.remove_keys(gone).contains_key(r));
    }
    assert(got =~= wanted);
}

/// Row identifiers stay below the next one when a row below it is put into
/// the index, when rows are taken out, and when the next one goes up.
pub proof fn lemma_ids(index: Map<RowId, TupleLoc>, next: RowId)
    requires
        ids_below(index, next),
    ensures
        forall|r: RowId, loc: TupleLoc|
            r < next || next == u64::MAX ==> ids_below(#[trigger] index.insert(r, loc), next),
        forall|gone: Set<RowId>| ids_below(#[trigger] index.remove_keys(gone), next),
        forall|r: RowId| index.contains_key(r) ==> r < next || next == u64::MAX,
        next < u64::MAX ==> ids_below(index, (next + 1) as u64),
{
    reveal(ids_below);
    assert forall|r: RowId, loc: TupleLoc| r < next || next == u64::MAX implies ids_below(
        #[trigger] index.insert(r, loc),
        next,
    ) by {}
    assert forall|gone: Set<RowId>| ids_below(#[trigger] index.remove_keys(gone), next) by {}
}

impl TableStore {
    /// The pages of the heap as byte sequences.
    pub open spec fn heap(&self) -> Seq<Seq<u8>> {
        heap_view(self.pages@)
    }

    /// The schema as mathematical values.
    pub open spec fn cols(&self) -> Seq<ColumnView> {
        column_views(self.columns@)
    }

    /// The index as a map.
    pub open spec fn index(&self) -> Map<RowId, TupleLoc> {
        self.state.row_index@
    }

    /// Whether the table is well formed: its pages are pages, its live
    /// payloads can be read, its index and its free-space map agree with the
    /// heap, the next page identifier is the number of pages, and the next
    /// row identifier is above every row of the index unless the identifiers
    /// have run out.
    pub open spec fn wf(&self) -> bool {
        &&& pages_wf(self.heap())
        &&& rows_wf(self.heap(), self.cols())
        &&& index_wf(self.heap(), self.index())
        &&& free_wf(self.heap(), self.state.free_space@)
        &&& self.state.next_page_id == self.pages@.len()
        &&& ids_below(self.index(), self.state.next_row_id)
    }

    /// The rows of the table: for each row of the index the values that its
    /// payload holds, in schema order.
    pub open spec fn rows(&self) -> Map<RowId, Seq<ValueView>> {
        rows_of(self.heap(), self.cols(), self.index())
    }

    /// Whether everything but the pages and the free-space map is as in
    /// `before`.
    pub open spec fn same_rows_as(&self, before: &TableStore) -> bool {
        &&& self.name == before.name
        &&& self.columns == before.columns
        &&& self.state.row_index == before.state.row_index
        &&& self.state.next_row_id == before.state.next_row_id
    }

    /// Whether the table is `before` with one page without slots added
    /// behind its pages.
    pub open spec fn grown_from(&self, before: &TableStore) -> bool {
        &&& self.same_rows_as(before)
        &&& self.heap() == before.heap().push(fresh_page())
        &&& self.state.free_space@ == before.state.free_space@.insert(
            before.state.next_page_id,
            (PAGE_SIZE - HEADER_LEN) as usize,
        )
        &&& self.state.next_page_id == before.state.next_page_id + 1
    }

    /// Whether the table is `before` in every part.
    pub open spec fn same_as(&self, before: &TableStore) -> bool {
        &&& self.same_rows_as(before)
        &&& self.heap() == before.heap()
        &&& self.state.free_space@ == before.state.free_space@
        &&& self.state.next_page_id == before.state.next_page_id
    }

    /// The heap in which a payload that needs `need` bytes is placed on
    /// page `from` or behind it: the heap as it is where one of those pages
    /// has the room, else the heap with a page without slots added.
    pub open spec fn heap_with_room_from(&self, from: int, need: int) -> Seq<Seq<u8>> {
        if no_room_from(self.state.free_space@, from, self.pages@.len() as int, need) {
            self.heap().push(fresh_page())
        } else {
            self.heap()
        }
    }

    /// The free-space map that goes with `heap_with_room_from`.
    pub open spec fn free_with_room_from(&self, from: int, need: int) -> Map<u32, usize> {
        if no_room_from(self.state.free_space@, from, self.pages@.len() as int, need) {
            self.state.free_space@.insert(
                self.state.next_page_id,
                (PAGE_SIZE - HEADER_LEN) as usize,
            )
        } else {
            self.state.free_space@
        }
    }

    /// Whether page `pid` is the page that a payload needing `need` bytes
    /// goes to where it has to lie on page `from` or behind it: the best
    /// fit among those pages, or the page that is added where none of them
    /// has the room.
    pub open spec fn is_target_from(&self, from: int, need: int, pid: int) -> bool {
        if no_room_from(self.state.free_space@, from, self.pages@.len() as int, need) {
            pid == self.pages@.len()
        } else {
            is_best_fit_from(self.state.free_space@, from, self.pages@.len() as int, need, pid)
        }
    }

    /// The heap in which a payload that needs `need` bytes is placed: the
    /// heap as it is where a page has the room, else the heap with a page
    /// without slots added.
    pub open spec fn heap_with_room(&self, need: int) -> Seq<Seq<u8>> {
        self.heap_with_room_from(0, need)
    }

    /// The free-space map that goes with `heap_with_room`.
    pub open spec fn free_with_room(&self, need: int) -> Map<u32, usize> {
        self.free_with_room_from(0, need)
    }

    /// Whether page `pid` is the page that a payload needing `need` bytes
    /// goes to: the best fit among the pages, or the page that is added
    /// where none has the room.
    pub open spec fn is_target(&self, need: int, pid: int) -> bool {
        self.is_target_from(0, need, pid)
    }

    /// Whether a row identifier can be given to a new row: the index does
    /// not know it, and it is below the next identifier unless identifiers
    /// have run out.
    pub open spec fn is_new_row(&self, row_id: RowId) -> bool {
        !self.index().contains_key(row_id) && (row_id < self.state.next_row_id
            || self.state.next_row_id == u64::MAX)
    }

    /// Whether the index has `loc` for row `row_id`.
    pub open spec fn lies_at(&self, row_id: RowId, loc: TupleLoc) -> bool {
        self.index().contains_key(row_id) && self.index()[row_id] == loc
    }

    /// Whether the table is what comes of appending `payload` to page
    /// `loc.page_id` of the heap `heap` with the free-space map `free`,
    /// pointing the index of `before` at the new slot, `loc`, for row
    /// `row_id`, and leaving the rest as in `before`.
    pub open spec fn placed_in(
        &self,
        before: &TableStore,
        heap: Seq<Seq<u8>>,
        free: Map<u32, usize>,
        row_id: RowId,
        payload: Seq<u8>,
        loc: TupleLoc,
    ) -> bool {
        let pid = loc.page_id as int;
        &&& 0 <= pid < heap.len()
        &&& payload.len() + SLOT_LEN <= free_bytes(heap[pid])
        &&& loc == loc_of(pid, record_count(heap[pid]))
        &&& self.heap() == heap.update(pid, appended(heap[pid], payload))
        &&& self.index() == before.index().insert(row_id, loc)
        &&& self.state.free_space@ == free.insert(
            loc.page_id,
            free_bytes(appended(heap[pid], payload)) as usize,
        )
        &&& self.state.next_page_id == heap.len()
        &&& self.state.next_row_id == before.state.next_row_id
        &&& self.name == before.name
        &&& self.columns == before.columns
    }

    /// Whether the table is `before` after the payload of the slot at `loc`
    /// has been rewritten in place with `payload`, the free bytes of the
    /// page brought up to date, and the index pointed at the slot for row
    /// `row_id`.
    pub open spec fn rewritten_in(
        &self,
        before: &TableStore,
        row_id: RowId,
        payload: Seq<u8>,
        loc: TupleLoc,
    ) -> bool {
        let pid = loc.page_id as int;
        let sid = loc.slot_id as int;
        &&& loc == loc_of(pid, sid)
        &&& self.heap() == before.heap().update(pid, overwritten(before.heap()[pid], sid, payload))
        &&& self.index() == before.index().insert(row_id, loc)
        &&& self.state.free_space@ == before.state.free_space@.insert(
            loc.page_id,
            free_bytes(overwritten(before.heap()[pid], sid, payload)) as usize,
        )
        &&& self.state.next_page_id == before.state.next_page_id
        &&& self.state.next_row_id == before.state.next_row_id
        &&& self.name == before.name
        &&& self.columns == before.columns
    }

    /// Whether the table is `before` after `payload` has been placed at
    /// `loc` as a new version of row `row_id`, on the page of `old_loc` or
    /// behind it, so that it comes after `old_loc` in a scan, and the slot
    /// at `old_loc` has then been tombstoned.
    pub open spec fn relocated_in(
        &self,
        before: &TableStore,
        row_id: RowId,
        payload: Seq<u8>,
        old_loc: TupleLoc,
        loc: TupleLoc,
    ) -> bool {
        let need = payload.len() + SLOT_LEN;
        let old_pid = old_loc.page_id as int;
        let room = before.heap_with_room_from(old_pid, need);
        let pid = loc.page_id as int;
        let placed = room.update(pid, appended(room[pid], payload));
        &&& before.is_target_from(old_pid, need, pid)
        &&& old_loc.before(&loc)
        &&& 0 <= pid < room.len()
        &&& need <= free_bytes(room[pid])
        &&& loc == loc_of(pid, record_count(room[pid]))
        &&& self.heap() == placed.update(
            old_pid,
            tombstoned(placed[old_pid], old_loc.slot_id as int),
        )
        &&& self.index() == before.index().insert(row_id, loc)
        &&& self.state.free_space@ == before.free_with_room_from(old_pid, need).insert(
            loc.page_id,
            free_bytes(appended(room[pid], payload)) as usize,
        )
        &&& self.state.next_page_id == room.len()
        &&& self.state.next_row_id == before.state.next_row_id
        &&& self.name == before.name
        &&& self.columns == before.columns
    }

    /// Whether the table is what `append_record` makes of `before` with the
    /// named values of a record for row `row_id`, and `done` what it gives.
    pub open spec fn after_append(
        &self,
        before: &TableStore,
        row_id: RowId,
        entries: crate::record::Entries,
        done: Result<TupleLoc, CatalogError>,
    ) -> bool {
        match done {
                Ok(loc) => {
                    let payload = record_payload(row_id, entries, before.cols())->Ok_0;
                    let need = payload.len() + SLOT_LEN;
                    &&& record_payload(row_id, entries, before.cols()) is Ok
                    &&& before.is_target(need, loc.page_id as int)
                    &&& self.placed_in(
                        before,
                        before.heap_with_room(need),
                        before.free_with_room(need),
                        row_id,
                        payload,
                        loc,
                    )
                    &&& before.is_new_row(row_id) ==> self.wf() && self.rows()
                        == before.rows().insert(
                        row_id,
                        row_values(entries, before.cols()),
                    )
                },
                Err(e) => {
                    &&& self.wf()
                    &&& match record_payload(row_id, entries, before.cols()) {
                        Err(cause) => e == CatalogError::Record(cause) && self.same_as(
                            before,
                        ),
                        Ok(payload) => e == CatalogError::Page(PageError::PageFull) && no_room(
                            before.state.free_space@,
                            before.pages@.len() as int,
                            payload.len() + SLOT_LEN,
                        ) && if before.pages@.len() == u32::MAX {
                            self.same_as(before)
                        } else {
                            self.grown_from(before) && payload.len() + SLOT_LEN
                                > PAGE_SIZE - HEADER_LEN
                        },
                    }
                }
        }
    }

    /// Whether the table is what `tombstone` makes of `before` for the slot at
    /// `old_loc`, and `done` what it gives.
    pub open spec fn after_tombstone(
        &self,
        before: &TableStore,
        old_loc: TupleLoc,
        done: Result<(), CatalogError>,
    ) -> bool {
        match done {
                Ok(()) => {
                    let pid = old_loc.page_id as int;
                    let sid = old_loc.slot_id as int;
                    &&& pid < before.heap().len()
                    &&& sid < record_count(before.heap()[pid])
                    &&& self.heap() == before.heap().update(
                        pid,
                        tombstoned(before.heap()[pid], sid),
                    )
                    &&& self.index() == before.index().remove_keys(
                        pointing_at(before.index(), old_loc),
                    )
                    &&& self.state.free_space@ == before.state.free_space@
                    &&& self.state.next_page_id == before.state.next_page_id
                    &&& self.state.next_row_id == before.state.next_row_id
                    &&& self.name == before.name
                    &&& self.columns == before.columns
                    &&& old_loc == loc_of(pid, sid) || !live_at(before.heap(), pid, sid)
                        ==> self.wf() && self.rows() == before.rows().remove_keys(
                        pointing_at(before.index(), old_loc),
                    )
                },
                Err(e) => e == CatalogError::Page(PageError::BadSlot) && self.same_as(
                    before,
                ) && !(old_loc.page_id < before.heap().len() && old_loc.slot_id
                    < record_count(before.heap()[old_loc.page_id as int]))
        }
    }

    /// Whether the table is what `update_record` makes of `before` with the
    /// named values of a record for row `row_id`, whose live copy lies at
    /// `old_loc`, and `done` what it gives.
    pub open spec fn after_update_record(
        &self,
        before: &TableStore,
        old_loc: TupleLoc,
        row_id: RowId,
        entries: crate::record::Entries,
        done: Result<TupleLoc, CatalogError>,
    ) -> bool {
        let written = record_payload(row_id, entries, before.cols());
        match done {
            Ok(loc) => {
                let payload = written->Ok_0;
                let outcome = overwrite_outcome(
                    before.heap()[old_loc.page_id as int],
                    old_loc.slot_id as int,
                    payload.len(),
                );
                &&& written is Ok
                &&& old_loc.page_id < before.heap().len()
                &&& outcome is Ok
                &&& outcome->Ok_0 ==> loc.page_id == old_loc.page_id && loc.slot_id
                    == old_loc.slot_id && self.rewritten_in(before, row_id, payload, loc)
                &&& !outcome->Ok_0 ==> self.relocated_in(before, row_id, payload, old_loc, loc)
                &&& before.lies_at(row_id, old_loc) ==> self.wf() && self.rows()
                    == before.rows().insert(row_id, row_values(entries, before.cols()))
                &&& self.index() == before.index().insert(row_id, loc)
                &&& self.name == before.name
                &&& self.columns == before.columns
            },
            Err(e) => {
                &&& self.wf()
                &&& self.name == before.name
                &&& self.columns == before.columns
                &&& self.index() == before.index()
                &&& match written {
                    Err(cause) => e == CatalogError::Record(cause) && self.same_as(before),
                    Ok(payload) => if old_loc.page_id >= before.heap().len() {
                        e == CatalogError::Page(PageError::BadSlot) && self.same_as(before)
                    } else {
                        match overwrite_outcome(
                            before.heap()[old_loc.page_id as int],
                            old_loc.slot_id as int,
                            payload.len(),
                        ) {
                            Err(cause) => e == CatalogError::Page(cause) && self.same_as(before),
                            Ok(fits) => !fits && e == CatalogError::Page(PageError::PageFull)
                                && no_room_from(
                                before.state.free_space@,
                                old_loc.page_id as int,
                                before.pages@.len() as int,
                                payload.len() + SLOT_LEN,
                            ) && if before.pages@.len() == u32::MAX {
                                self.same_as(before)
                            } else {
                                self.grown_from(before) && payload.len() + SLOT_LEN > PAGE_SIZE
                                    - HEADER_LEN
                            },
                        }
                    },
                }
            },
        }
    }

    /// A table without pages and without rows; its first row will be row 1.
    pub fn new(name: String, columns: Vec<Column>) -> (store: TableStore)
        ensures
            store.wf(),
            store.name == name,
            store.columns == columns,
            store.pages@.len() == 0,
            store.index() == Map::<RowId, TupleLoc>::empty(),
            store.state.next_row_id == 1,
    {
        let store = TableStore {
            name,
            columns,
            pages: Vec::new(),
            state: TableState {
                row_index: HashMap::new(),
                free_space: HashMap::new(),
                next_page_id: 0,
                next_row_id: 1,
            },
        };
        proof {
            lemma_empty_heap(store.cols(), 1);
            assert(store.heap() =~= Seq::<Seq<u8>>::empty());
        }
        store
    }

    /// Gives out the next row identifier: identifiers go up by one from call
    /// to call until the last one, `u64::MAX`, which is then given again.
    pub fn next_row_id(&mut self) -> (row_id: RowId)
        ensures
            row_id == old(self).state.next_row_id,
            final(self).state.next_row_id == if row_id < u64::MAX {
                (row_id + 1) as u64
            } else {
                u64::MAX
            },
            final(self).state.row_index == old(self).state.row_index,
            final(self).state.free_space == old(self).state.free_space,
            final(self).state.next_page_id == old(self).state.next_page_id,
            final(self).pages == old(self).pages,
            final(self).columns == old(self).columns,
            final(self).name == old(self).name,
            old(self).wf() ==> final(self).wf() && (row_id < u64::MAX ==> final(self).is_new_row(
                row_id,
            )),
    {
        let rid = self.state.next_row_id;
        proof {
            if old(self).wf() {
                lemma_ids(self.index(), rid);
            }
        }
        if rid < u64::MAX {
            self.state.next_row_id = rid + 1;
        }
        rid
    }

    /// Where the live copy of a row lies, if the row is live.
    pub fn get_tuple_loc(&self, row_id: RowId) -> (found: Option<TupleLoc>)
        ensures
            found == if self.index().contains_key(row_id) {
                Some(self.index()[row_id])
            } else {
                None
            },
    {
        match self.state.row_index.get(&row_id) {
            Some(loc) => Some(*loc),
            None => None,
        }
    }

    /// The known page, from page `from` on, that fits `need` bytes best, if
    /// any does.
    fn best_fit(&self, need: usize, from: u32) -> (found: Option<u32>)
        requires
            self.wf(),
            from <= self.pages@.len(),
        ensures
            match found {
                Some(pid) => is_best_fit_from(
                    self.state.free_space@,
                    from as int,
                    self.pages@.len() as int,
                    need as int,
                    pid as int,
                ),
                None => no_room_from(
                    self.state.free_space@,
                    from as int,
                    self.pages@.len() as int,
                    need as int,
                ),
            },
    {
        let n = self.pages.len();
        let mut best: Option<(u32, usize)> = None;
        let mut pid: usize = from as usize;
        let ghost free = self.state.free_space@;
        proof {
            lemma_pages_get(self.heap(), 0);
        }
        while pid < n
            invariant
                from <= pid <= n,
                n == self.pages@.len(),
                n <= u32::MAX,
                free == self.state.free_space@,
                match best {
                    Some((b, room)) => is_best_fit_from(
                        free,
                        from as int,
                        pid as int,
                        need as int,
                        b as int,
                    ) && room == free[b],
                    None => no_room_from(free, from as int, pid as int, need as int),
                },
            decreases n - pid,
        {
            match self.state.free_space.get(&(pid as u32)) {
                Some(room) => {
                    if *room >= need {
                        assert(has_room(free, pid as int, need as int));
                        match best {
                            Some((_, least)) => {
                                if *room < least {
                                    best = Some((pid as u32, *room));
                                }
                            },
                            None => {
                                best = Some((pid as u32, *room));
                            },
                        }
                    }
                },
                None => {},
            }
            pid += 1;
        }
        match best {
            Some((b, _)) => Some(b),
            None => None,
        }
    }

    /// Adds a page without slots behind the pages of the heap and gives its
    /// identifier; `PageFull` where the page identifiers have run out.
    fn allocate_new_page(&mut self) -> (made: Result<u32, CatalogError>)
        requires
            old(self).wf(),
        ensures
            final(self).wf(),
            match made {
                Ok(pid) => pid == old(self).state.next_page_id && final(self).grown_from(old(self)),
                Err(e) => e == CatalogError::Page(PageError::PageFull) && final(self).same_as(
                    old(self),
                ) && old(self).pages@.len() == u32::MAX,
            },
    {
        let pid = self.state.next_page_id;
        if pid == u32::MAX {
            return Err(CatalogError::Page(PageError::PageFull));
        }
        let page = new_page();
        self.pages.push(page);
        self.state.free_space.insert(pid, PAGE_SIZE - HEADER_LEN);
        self.state.next_page_id = pid + 1;
        proof {
            assert(self.heap() =~= old(self).heap().push(fresh_page()));
            lemma_push(
                old(self).heap(),
                self.cols(),
                self.index(),
                old(self).state.free_space@,
            );
        }
        Ok(pid)
    }

    /// Picks the page for a payload of `need_bytes` bytes that has to lie on
    /// page `from` or behind it: of those pages with room for the payload
    /// and a slot the one with the least free bytes (and of several such the
    /// first), or a new page where none has room.
    fn choose_page_from(&mut self, need_bytes: usize, from: u32) -> (chosen: Result<
        u32,
        CatalogError,
    >)
        requires
            old(self).wf(),
            from <= old(self).pages@.len(),
        ensures
            final(self).wf(),
            match chosen {
                Ok(pid) => from <= pid < final(self).pages@.len() && old(self).is_target_from(
                    from as int,
                    need_bytes + SLOT_LEN,
                    pid as int,
                ) && final(self).heap() == old(self).heap_with_room_from(
                    from as int,
                    need_bytes + SLOT_LEN,
                ) && final(self).state.free_space@ == old(self).free_with_room_from(
                    from as int,
                    need_bytes + SLOT_LEN,
                ) && final(self).state.next_page_id == final(self).heap().len()
                    && final(self).same_rows_as(old(self)),
                Err(e) => e == CatalogError::Page(PageError::PageFull) && final(self).same_as(
                    old(self),
                ) && old(self).pages@.len() == u32::MAX && no_room_from(
                    old(self).state.free_space@,
                    from as int,
                    old(self).pages@.len() as int,
                    need_bytes + SLOT_LEN,
                ),
            },
    {
        if need_bytes <= usize::MAX - SLOT_LEN {
            match self.best_fit(need_bytes + SLOT_LEN, from) {
                Some(pid) => {
                    assert(has_room(
                        self.state.free_space@,
                        pid as int,
                        need_bytes + SLOT_LEN,
                    ));
                    return Ok(pid);
                },
                None => {},
            }
        }
        self.allocate_new_page()
    }

    /// Picks the page for a payload of `need_bytes` bytes: of the known
    /// pages with room for the payload and a slot the one with the least
    /// free bytes (and of several such the first), or a new page where none
    /// has room.
    pub fn choose_page_for(&mut self, need_bytes: usize) -> (chosen: Result<u32, CatalogError>)
        requires
            old(self).wf(),
        ensures
            final(self).wf(),
            match chosen {
                Ok(pid) => pid < final(self).pages@.len() && old(self).is_target(
                    need_bytes + SLOT_LEN,
                    pid as int,
                ) && final(self).heap() == old(self).heap_with_room(need_bytes + SLOT_LEN)
                    && final(self).state.free_space@ == old(self).free_with_room(
                    need_bytes + SLOT_LEN,
                ) && final(self).state.next_page_id == final(self).heap().len()
                    && final(self).same_rows_as(old(self)),
                Err(e) => e == CatalogError::Page(PageError::PageFull) && final(self).same_as(
                    old(self),
                ) && old(self).pages@.len() == u32::MAX && no_room(
                    old(self).state.free_space@,
                    old(self).pages@.len() as int,
                    need_bytes + SLOT_LEN,
                ),
            },
    {
        self.choose_page_from(need_bytes, 0)
    }

    /// Appends `payload` to page `pid`, brings the page's free bytes up to
    /// date and points the index at the new slot for row `row_id`.
    fn place(&mut self, pid: u32, row_id: RowId, payload: &Vec<u8>) -> (done: Result<
        TupleLoc,
        CatalogError,
    >)
        requires
            old(self).wf(),
            pid < old(self).pages@.len(),
            record_decoding(payload@, old(self).cols()) is Ok,
            row_id_of(payload@) == row_id,
        ensures
            match done {
                Ok(loc) => {
                    &&& loc.page_id == pid
                    &&& final(self).placed_in(
                        old(self),
                        old(self).heap(),
                        old(self).state.free_space@,
                        row_id,
                        payload@,
                        loc,
                    )
                    &&& pages_wf(final(self).heap())
                    &&& rows_wf(final(self).heap(), final(self).cols())
                    &&& index_points(final(self).heap(), final(self).index())
                    &&& free_wf(final(self).heap(), final(self).state.free_space@)
                    &&& keeps_rows(old(self).heap(), final(self).heap(), old(self).index())
                    &&& same_but(
                        old(self).heap(),
                        final(self).heap(),
                        pid as int,
                        loc.slot_id as int,
                    )
                    &&& !live_at(old(self).heap(), pid as int, loc.slot_id as int)
                    &&& live_at(final(self).heap(), pid as int, loc.slot_id as int)
                    &&& payload_at(final(self).heap(), pid as int, loc.slot_id as int) == payload@
                    &&& !old(self).index().contains_key(row_id) ==> index_covers(
                        final(self).heap(),
                        final(self).index(),
                    )
                    &&& old(self).index().contains_key(row_id) ==> index_covers_but(
                        final(self).heap(),
                        final(self).index(),
                        old(self).index()[row_id].page_id as int,
                        old(self).index()[row_id].slot_id as int,
                    )
                },
                Err(e) => e == CatalogError::Page(PageError::PageFull) && final(self).same_as(
                    old(self),
                ) && final(self).wf() && payload@.len() + SLOT_LEN > free_bytes(
                    old(self).heap()[pid as int],
                ),
            },
    {
        let ghost heap = self.heap();
        let ghost page = heap[pid as int];
        proof {
            lemma_pages_get(heap, pid as int);
        }
        let slot_id = match page_append(&mut self.pages[pid as usize], payload.as_slice()) {
            Ok(slot_id) => slot_id,
            Err(e) => {
                assert(self.heap() =~= heap);
                return Err(CatalogError::Page(e));
            },
        };
        let ghost after = appended(page, payload@);
        let ghost n = record_count(page);
        proof {
            lemma_append_gains_slot(page, payload@);
            assert(self.heap() =~= heap.update(pid as int, after));
        }
        let free = match page_free_bytes(self.pages[pid as usize].as_slice()) {
            Ok(free) => free,
            Err(_) => 0,
        };
        self.state.free_space.insert(pid, free);
        let loc = TupleLoc { seg: HEAP_SEGMENT, page_id: pid, slot_id, flags: 0 };
        self.state.row_index.insert(row_id, loc);
        proof {
            let heap2 = self.heap();
            lemma_step(heap, pid as int, after, n, payload@);
            lemma_pages_step(heap, pid as int, after);
            lemma_rows_step(heap, heap2, self.cols(), pid as int, n);
            lemma_free_step(heap, old(self).state.free_space@, pid, after, free);
            lemma_index_step_put(heap, heap2, old(self).index(), pid as int, n, row_id);
            lemma_keeps_step(heap, heap2, old(self).index(), pid as int, n, row_id);
        }
        Ok(loc)
    }

    /// Writes a record as a new version of row `row_id`: into the page that
    /// fits it best, or into a new page where none has the room, and points
    /// the index at it. The table stays well formed where the row is new.
    /// `Record(..)` where the record cannot be written under the schema;
    /// `Page(PageFull)` where the payload is too long for any page (a page
    /// may then have been added) or the page identifiers have run out.
    pub fn append_record(&mut self, row_id: RowId, rec: &Record) -> (done: Result<
        TupleLoc,
        CatalogError,
    >)
        requires
            old(self).wf(),
        ensures
            final(self).after_append(old(self), row_id, rec.entries(), done),
    {
        let payload = match serialize_record_for_page(row_id, rec, self.columns.as_slice()) {
            Ok(payload) => payload,
            Err(e) => {
                return Err(CatalogError::Record(e));
            },
        };
        proof {
            lemma_payload_reads_back(row_id, rec.entries(), self.cols());
        }
        let pid = match self.choose_page_for(payload.len()) {
            Ok(pid) => pid,
            Err(e) => {
                return Err(e);
            },
        };
        let ghost mid = *self;
        match self.place(pid, row_id, &payload) {
            Ok(loc) => {
                proof {
                    if old(self).is_new_row(row_id) {
                        let index = old(self).index();
                        lemma_ids(index, self.state.next_row_id);
                        lemma_keeps_push(old(self).heap(), mid.heap(), index);
                        lemma_keeps_chain(old(self).heap(), mid.heap(), self.heap(), index, row_id);
                        lemma_rows_put(
                            old(self).heap(),
                            self.heap(),
                            self.cols(),
                            index,
                            row_id,
                            loc,
                            row_values(rec.entries(), old(self).cols()),
                        );
                    }
                }
                Ok(loc)
            },
            Err(e) => {
                proof {
                    lemma_free_get(mid.heap(), mid.state.free_space@, pid);
                    lemma_fresh_page();
                    if !no_room(
                        old(self).state.free_space@,
                        old(self).pages@.len() as int,
                        payload@.len() + SLOT_LEN,
                    ) {
                        assert(has_room(
                            old(self).state.free_space@,
                            pid as int,
                            payload@.len() + SLOT_LEN,
                        ));
                    }
                }
                Err(e)
            },
        }
    }

    /// Tombstones slot `sid` of page `pid` and leaves the index as it is.
    pub(crate) fn retire(&mut self, pid: u32, sid: u16)
        requires
            pages_wf(old(self).heap()),
            rows_wf(old(self).heap(), old(self).cols()),
            free_wf(old(self).heap(), old(self).state.free_space@),
            pid < old(self).heap().len(),
            sid < record_count(old(self).heap()[pid as int]),
        ensures
            final(self).heap() == old(self).heap().update(
                pid as int,
                tombstoned(old(self).heap()[pid as int], sid as int),
            ),
            same_but(old(self).heap(), final(self).heap(), pid as int, sid as int),
            !live_at(final(self).heap(), pid as int, sid as int),
            pages_wf(final(self).heap()),
            rows_wf(final(self).heap(), final(self).cols()),
            free_wf(final(self).heap(), final(self).state.free_space@),
            final(self).state == old(self).state,
            final(self).name == old(self).name,
            final(self).columns == old(self).columns,
            final(self).pages@.len() == old(self).pages@.len(),
    {
        let ghost heap = self.heap();
        let ghost page = heap[pid as int];
        proof {
            lemma_pages_get(heap, pid as int);
        }
        match page_set_tombstone(&mut self.pages[pid as usize], sid) {
            Ok(()) => {},
            Err(_) => {},
        }
        proof {
            let after = tombstoned(page, sid as int);
            assert(self.heap() =~= heap.update(pid as int, after));
            lemma_tombstone_drops_slot(page, sid as int);
            lemma_step(heap, pid as int, after, sid as int, Seq::<u8>::empty());
            lemma_pages_step(heap, pid as int, after);
            lemma_rows_step(heap, self.heap(), self.cols(), pid as int, sid as int);
            lemma_free_get(heap, self.state.free_space@, pid);
            lemma_free_step(heap, self.state.free_space@, pid, after, self.state.free_space@[pid]);
        }
    }

    /// The row that a slot holds where the slot is live, nothing where it is
    /// a tombstone.
    pub(crate) fn row_at(&self, pid: u32, sid: u16) -> (found: Option<RowId>)
        requires
            pages_wf(self.heap()),
            rows_wf(self.heap(), self.cols()),
            pid < self.heap().len(),
            sid < record_count(self.heap()[pid as int]),
        ensures
            match found {
                Some(row_id) => live_at(self.heap(), pid as int, sid as int) && row_id
                    == row_id_of(payload_at(self.heap(), pid as int, sid as int)),
                None => !live_at(self.heap(), pid as int, sid as int),
            },
    {
        let ghost heap = self.heap();
        let ghost page = heap[pid as int];
        proof {
            lemma_pages_get(heap, pid as int);
        }
        let slot = read_slot(self.pages[pid as usize].as_slice(), sid);
        if slot.flags != 0 {
            return None;
        }
        proof {
            lemma_rows_get(heap, self.cols(), pid as int, sid as int);
            lemma_decoding_row_id(payload_at(heap, pid as int, sid as int), self.cols());
            assert(slot_at(page, sid as int).end() <= PAGE_SIZE);
            assert(page.subrange(slot.off as int, slot.off + 8) =~= payload_at(
                heap,
                pid as int,
                sid as int,
            ).subrange(0, 8));
        }
        Some(read_u64(self.pages[pid as usize].as_slice(), slot.off as usize))
    }

    /// Tombstones the slot at a location and takes out of the index the
    /// entry that points at it. The payload stays in its page and the free
    /// bytes of the page stay as they are. The table stays well formed where
    /// the location is written as the index writes it (segment 1, flags 0)
    /// or the slot was a tombstone already. `Page(BadSlot)` where the page or
    /// the slot does not exist; the table is then not changed.
    pub fn tombstone(&mut self, old_loc: TupleLoc) -> (done: Result<(), CatalogError>)
        requires
            old(self).wf(),
        ensures
            final(self).after_tombstone(old(self), old_loc, done),
    {
        let pid = old_loc.page_id;
        let sid = old_loc.slot_id;
        if pid as usize >= self.pages.len() {
            return Err(CatalogError::Page(PageError::BadSlot));
        }
        let ghost heap = self.heap();
        proof {
            lemma_pages_get(heap, pid as int);
        }
        if sid >= page_record_count(self.pages[pid as usize].as_slice()) {
            return Err(CatalogError::Page(PageError::BadSlot));
        }
        let victim = self.row_at(pid, sid);
        self.retire(pid, sid);
        proof {
            lemma_pointing_at(heap, old(self).index(), old_loc);
        }
        match victim {
            Some(row_id) => {
                let points_here = match self.state.row_index.get(&row_id) {
                    Some(loc) => *loc == old_loc,
                    None => false,
                };
                if points_here {
                    self.state.row_index.remove(&row_id);
                }
                proof {
                    lemma_index_has(heap, old(self).index(), pid as int, sid as int);
                }
            },
            None => {},
        }
        proof {
            let index = old(self).index();
            let gone = pointing_at(index, old_loc);
            assert(self.index() =~= index.remove_keys(gone));
            if old_loc == loc_of(pid as int, sid as int) || !live_at(heap, pid as int, sid as int) {
                lemma_tombstone_keeps(heap, self.heap(), self.cols(), index, old_loc);
                lemma_ids(index, self.state.next_row_id);
            }
        }
        Ok(())
    }

    /// Rewrites the payload of the slot at `old_loc` in place where `payload`
    /// is no longer than the payload that is there, and then brings the free
    /// bytes of the page up to date and points the index at the slot for row
    /// `row_id`. Gives the location where it did, nothing where the payload
    /// is longer.
    fn rewrite(&mut self, old_loc: TupleLoc, row_id: RowId, payload: &Vec<u8>) -> (done: Result<
        Option<TupleLoc>,
        CatalogError,
    >)
        requires
            old(self).wf(),
            old_loc.page_id < old(self).heap().len(),
            record_decoding(payload@, old(self).cols()) is Ok,
            row_id_of(payload@) == row_id,
        ensures
            match done {
                Ok(Some(loc)) => {
                    &&& overwrite_outcome(
                        old(self).heap()[old_loc.page_id as int],
                        old_loc.slot_id as int,
                        payload@.len(),
                    ) == Ok::<bool, PageError>(true)
                    &&& loc.page_id == old_loc.page_id
                    &&& loc.slot_id == old_loc.slot_id
                    &&& final(self).rewritten_in(old(self), row_id, payload@, loc)
                    &&& old(self).lies_at(row_id, old_loc) ==> final(self).wf() && final(
                        self).rows() == old(self).rows().insert(
                        row_id,
                        record_decoding(payload@, old(self).cols())->Ok_0.1,
                    )
                },
                Ok(None) => overwrite_outcome(
                    old(self).heap()[old_loc.page_id as int],
                    old_loc.slot_id as int,
                    payload@.len(),
                ) == Ok::<bool, PageError>(false) && final(self).same_as(old(self)) && final(
                    self).wf(),
                Err(e) => overwrite_outcome(
                    old(self).heap()[old_loc.page_id as int],
                    old_loc.slot_id as int,
                    payload@.len(),
                ) matches Err(cause) && e == CatalogError::Page(cause) && final(self).same_as(
                    old(self),
                ) && final(self).wf(),
            },
    {
        let pid = old_loc.page_id;
        let sid = old_loc.slot_id;
        let ghost heap = self.heap();
        let ghost page = heap[pid as int];
        proof {
            lemma_pages_get(heap, pid as int);
        }
        let fits = match page_overwrite_if_fits(
            &mut self.pages[pid as usize],
            sid,
            payload.as_slice(),
        ) {
            Ok(fits) => fits,
            Err(e) => {
                assert(self.heap() =~= heap);
                return Err(CatalogError::Page(e));
            },
        };
        if !fits {
            assert(self.heap() =~= heap);
            return Ok(None);
        }
        let ghost after = overwritten(page, sid as int, payload@);
        proof {
            lemma_overwrite_rewrites_slot(page, sid as int, payload@);
            assert(self.heap() =~= heap.update(pid as int, after));
        }
        let free = match page_free_bytes(self.pages[pid as usize].as_slice()) {
            Ok(free) => free,
            Err(_) => 0,
        };
        self.state.free_space.insert(pid, free);
        let loc = TupleLoc { seg: HEAP_SEGMENT, page_id: pid, slot_id: sid, flags: 0 };
        self.state.row_index.insert(row_id, loc);
        proof {
            if old(self).lies_at(row_id, old_loc) {
                let heap2 = self.heap();
                let index = old(self).index();
                lemma_index_get(heap, index, row_id);
                lemma_decoding_row_id(payload@, self.cols());
                lemma_step(heap, pid as int, after, sid as int, payload@);
                lemma_pages_step(heap, pid as int, after);
                lemma_rows_step(heap, heap2, self.cols(), pid as int, sid as int);
                lemma_free_step(heap, old(self).state.free_space@, pid, after, free);
                lemma_index_step_put(heap, heap2, index, pid as int, sid as int, row_id);
                lemma_keeps_step(heap, heap2, index, pid as int, sid as int, row_id);
                lemma_rows_put(
                    heap,
                    heap2,
                    self.cols(),
                    index,
                    row_id,
                    loc,
                    record_decoding(payload@, self.cols())->Ok_0.1,
                );
                lemma_ids(index, self.state.next_row_id);
            }
        }
        Ok(Some(loc))
    }

    /// Places `payload` as a new version of row `row_id` on the page of
    /// `old_loc` or behind it, and tombstones the slot at `old_loc`.
    fn relocate(&mut self, old_loc: TupleLoc, row_id: RowId, payload: &Vec<u8>) -> (done: Result<
        TupleLoc,
        CatalogError,
    >)
        requires
            old(self).wf(),
            old_loc.page_id < old(self).heap().len(),
            old_loc.slot_id < record_count(old(self).heap()[old_loc.page_id as int]),
            record_decoding(payload@, old(self).cols()) is Ok,
            row_id_of(payload@) == row_id,
        ensures
            match done {
                Ok(loc) => {
                    &&& final(self).relocated_in(old(self), row_id, payload@, old_loc, loc)
                    &&& old(self).lies_at(row_id, old_loc) ==> final(self).wf() && final(
                        self).rows() == old(self).rows().insert(
                        row_id,
                        record_decoding(payload@, old(self).cols())->Ok_0.1,
                    )
                },
                Err(e) => {
                    &&& final(self).wf()
                    &&& e == CatalogError::Page(PageError::PageFull)
                    &&& no_room_from(
                        old(self).state.free_space@,
                        old_loc.page_id as int,
                        old(self).pages@.len() as int,
                        payload@.len() + SLOT_LEN,
                    )
                    &&& if old(self).pages@.len() == u32::MAX {
                        final(self).same_as(old(self))
                    } else {
                        final(self).grown_from(old(self)) && payload@.len() + SLOT_LEN > PAGE_SIZE
                            - HEADER_LEN
                    }
                },
            },
    {
        let pid = old_loc.page_id;
        let sid = old_loc.slot_id;
        let ghost heap0 = self.heap();
        let ghost index = self.index();
        let target = match self.choose_page_from(payload.len(), pid) {
            Ok(target) => target,
            Err(e) => {
                return Err(e);
            },
        };
        let ghost mid = *self;
        let new_loc = match self.place(target, row_id, payload) {
            Ok(new_loc) => new_loc,
            Err(e) => {
                proof {
                    lemma_free_get(mid.heap(), mid.state.free_space@, target);
                    lemma_fresh_page();
                    if !no_room_from(
                        old(self).state.free_space@,
                        pid as int,
                        old(self).pages@.len() as int,
                        payload@.len() + SLOT_LEN,
                    ) {
                        assert(has_room(
                            old(self).state.free_space@,
                            target as int,
                            payload@.len() + SLOT_LEN,
                        ));
                    }
                }
                return Err(e);
            },
        };
        let ghost placed = *self;
        proof {
            assert(mid.heap()[pid as int] == heap0[pid as int]);
            if target == pid {
                lemma_pages_get(mid.heap(), pid as int);
                lemma_append(mid.heap()[pid as int], payload@);
            }
        }
        self.retire(pid, sid);
        proof {
            if old(self).lies_at(row_id, old_loc) {
                lemma_relocate_keeps(
                    heap0,
                    mid.heap(),
                    placed.heap(),
                    self.heap(),
                    self.cols(),
                    index,
                    row_id,
                    old_loc,
                    new_loc,
                );
                lemma_decoding_row_id(payload@, self.cols());
                lemma_rows_put(
                    heap0,
                    self.heap(),
                    self.cols(),
                    index,
                    row_id,
                    new_loc,
                    record_decoding(payload@, self.cols())->Ok_0.1,
                );
                lemma_ids(index, self.state.next_row_id);
                assert(self.index() == index.insert(row_id, new_loc));
                assert(placed.heap().len() == placed.pages@.len());
                assert(mid.heap().len() == mid.pages@.len());
                assert(self.wf());
                assert(self.rows() == old(self).rows().insert(
                    row_id,
                    record_decoding(payload@, old(self).cols())->Ok_0.1,
                ));
            }
            assert(self.relocated_in(old(self), row_id, payload@, old_loc, new_loc));
        }
        Ok(new_loc)
    }
}

/// A table that is another one as it is, or with a page added, has the rows
/// of the other.
pub proof fn lemma_unchanged_rows(before: TableStore, after: TableStore)
    requires
        before.wf(),
        after.same_as(&before) || after.grown_from(&before),
    ensures
        after.rows() == before.rows(),
{
    lemma_keeps_push(before.heap(), after.heap(), before.index());
    reveal(keeps_rows);
    assert(after.rows() =~= before.rows());
}

/// A heap that has had a slot tombstoned, with the entries that pointed at
/// the slot taken out of its index, agrees with its index as it did, and
/// has the rows that it had but for those.
pub proof fn lemma_tombstone_keeps(
    heap: Seq<Seq<u8>>,
    heap2: Seq<Seq<u8>>,
    cols: Seq<ColumnView>,
    index: Map<RowId, TupleLoc>,
    loc: TupleLoc,
)
    requires
        index_wf(heap, index),
        heap.len() <= u32::MAX,
        loc == loc_of(loc.page_id as int, loc.slot_id as int) || !live_at(
            heap,
            loc.page_id as int,
            loc.slot_id as int,
        ),
        same_but(heap, heap2, loc.page_id as int, loc.slot_id as int),
        !live_at(heap2, loc.page_id as int, loc.slot_id as int),
    ensures
        index_wf(heap2, index.remove_keys(pointing_at(index, loc))),
        rows_of(heap2, cols, index.remove_keys(pointing_at(index, loc))) == rows_of(
            heap,
            cols,
            index,
        ).remove_keys(pointing_at(index, loc)),
{
    let pid = loc.page_id as int;
    let sid = loc.slot_id as int;
    let gone = pointing_at(index, loc);
    let index2 = index.remove_keys(gone);
    let rid = row_id_of(payload_at(heap, pid, sid));
    lemma_pointing_at(heap, index, loc);
    lemma_keeps_step(heap, heap2, index, pid, sid, rid);
    if live_at(heap, pid, sid) {
        assert(index2 =~= index.remove(rid));
    } else {
        assert(index2 =~= index);
    }
    lemma_rows_drop(heap, heap2, cols, index, gone);
    assert(index_points(heap, index2)) by {
        reveal(index_points);
    }
    assert(index_covers_but(heap, index2, pid, sid)) by {
        reveal(index_covers_but);
        reveal(index_points);
        assert forall|p: int, s: int| #[trigger] live_at(heap, p, s) implies (p == pid && s == sid)
            || indexed(heap, index2, p, s) by {
            if !(p == pid && s == sid) {
                assert(indexed(heap, index, p, s));
                let r = row_id_of(payload_at(heap, p, s));
                if gone.contains(r) {
                    assert(index[r] == loc);
                    assert(loc == loc_of(p, s));
                    assert(false);
                }
            }
        }
    }
    assert forall|r: RowId| #[trigger] index2.contains_key(r) implies !(index2[r].page_id as int
        == pid && index2[r].slot_id as int == sid) by {
        assert(index.contains_key(r) && !gone.contains(r));
        if live_at(heap, pid, sid) {
            assert(r != rid);
        } else {
            reveal(index_points);
            let l = index[r];
            assert(live_at(heap, l.page_id as int, l.slot_id as int));
        }
    }
    lemma_index_step_retire(heap, heap2, index2, pid, sid);
}

/// A heap in which row `row_id` has been written anew at `new_loc`, after a
/// page may have been added, and tombstoned at `old_loc`, where the index
/// had it, agrees with the index pointed at `new_loc`, and keeps every
/// other row.
pub proof fn lemma_relocate_keeps(
    heap0: Seq<Seq<u8>>,
    heap1: Seq<Seq<u8>>,
    heap2: Seq<Seq<u8>>,
    heap3: Seq<Seq<u8>>,
    cols: Seq<ColumnView>,
    index: Map<RowId, TupleLoc>,
    row_id: RowId,
    old_loc: TupleLoc,
    new_loc: TupleLoc,
)
    requires
        index_wf(heap0, index),
        index.contains_key(row_id),
        index[row_id] == old_loc,
        extends(heap0, heap1),
        heap1.len() <= u32::MAX,
        same_but(heap1, heap2, new_loc.page_id as int, new_loc.slot_id as int),
        !live_at(heap1, new_loc.page_id as int, new_loc.slot_id as int),
        live_at(heap2, new_loc.page_id as int, new_loc.slot_id as int),
        index_points(heap2, index.insert(row_id, new_loc)),
        index_covers_but(
            heap2,
            index.insert(row_id, new_loc),
            old_loc.page_id as int,
            old_loc.slot_id as int,
        ),
        keeps_rows(heap1, heap2, index),
        same_but(heap2, heap3, old_loc.page_id as int, old_loc.slot_id as int),
        !live_at(heap3, old_loc.page_id as int, old_loc.slot_id as int),
    ensures
        index_wf(heap3, index.insert(row_id, new_loc)),
        keeps_rows(heap0, heap3, index.remove(row_id)),
        payload_at(heap3, new_loc.page_id as int, new_loc.slot_id as int) == payload_at(
            heap2,
            new_loc.page_id as int,
            new_loc.slot_id as int,
        ),
{
    let index2 = index.insert(row_id, new_loc);
    let opid = old_loc.page_id as int;
    let osid = old_loc.slot_id as int;
    let npid = new_loc.page_id as int;
    let nsid = new_loc.slot_id as int;
    lemma_index_get(heap0, index, row_id);
    lemma_fresh_page();
    assert(live_at(heap1, opid, osid) && payload_at(heap1, opid, osid) == payload_at(
        heap0,
        opid,
        osid,
    ));
    assert(!(opid == npid && osid == nsid));
    assert(live_at(heap2, opid, osid) && payload_at(heap2, opid, osid) == payload_at(
        heap1,
        opid,
        osid,
    )) by {
        reveal(same_but);
    }
    assert(payload_at(heap3, npid, nsid) == payload_at(heap2, npid, nsid)) by {
        reveal(same_but);
    }
    lemma_keeps_push(heap0, heap1, index);
    lemma_keeps_step(heap2, heap3, index2, opid, osid, row_id);
    assert(index2.remove(row_id) =~= index.remove(row_id));
    lemma_keeps_chain(heap0, heap1, heap2, index, row_id);
    assert(keeps_rows(heap0, heap3, index.remove(row_id))) by {
        reveal(keeps_rows);
    }
    assert forall|r: RowId| #[trigger] index2.contains_key(r) implies !(index2[r].page_id as int
        == opid && index2[r].slot_id as int == osid) by {
        if r == row_id {
            assert(index2[r] == new_loc);
        }
    }
    lemma_index_step_retire(heap2, heap3, index2, opid, osid);
}

impl TableStore {
    /// Writes a record as the new version of row `row_id`, whose live copy
    /// lies at `old_loc`: in place where the new payload is no longer than
    /// the old one, else on the page of `old_loc` or behind it, where it
    /// fits best, or on a new page, so that the new version comes after the
    /// old one in a scan; the old slot is then tombstoned. Gives the
    /// location of the new version. The table
    /// stays well formed, with the row's values replaced and every other row
    /// as it was, where the index has `old_loc` for the row.
    /// `Record(..)` where the record cannot be written under the schema;
    /// `Page(BadSlot)` where the page or slot of `old_loc` does not exist or
    /// the slot is a tombstone; `Page(PageFull)` where the new version has
    /// to move and is too long for any page (a page may then have been
    /// added) or the page identifiers have run out.
    pub fn update_record(&mut self, old_loc: TupleLoc, row_id: RowId, rec: &Record) -> (done:
        Result<TupleLoc, CatalogError>)
        requires
            old(self).wf(),
        ensures
            final(self).after_update_record(old(self), old_loc, row_id, rec.entries(), done),
    {
        let payload = match serialize_record_for_page(row_id, rec, self.columns.as_slice()) {
            Ok(payload) => payload,
            Err(e) => {
                return Err(CatalogError::Record(e));
            },
        };
        proof {
            lemma_payload_reads_back(row_id, rec.entries(), self.cols());
        }
        if old_loc.page_id as usize >= self.pages.len() {
            return Err(CatalogError::Page(PageError::BadSlot));
        }
        match self.rewrite(old_loc, row_id, &payload) {
            Ok(Some(loc)) => {
                return Ok(loc);
            },
            Ok(None) => {},
            Err(e) => {
                return Err(e);
            },
        }
        let ghost mid = *self;
        match self.relocate(old_loc, row_id, &payload) {
            Ok(loc) => {
                proof {
                    assert(mid.rows() == old(self).rows());
                    assert(self.relocated_in(old(self), row_id, payload@, old_loc, loc));
                    if old(self).lies_at(row_id, old_loc) {
                        assert(mid.lies_at(row_id, old_loc));
                        assert(self.wf());
                        assert(self.rows() == old(self).rows().insert(
                            row_id,
                            row_values(rec.entries(), old(self).cols()),
                        ));
                    }
                }
                Ok(loc)
            },
            Err(e) => Err(e),
        }
    }
}

/// An update of a row leaves every slot but the one at `old_loc` with its
/// place, its length and its flags.
#[verifier::rlimit(80)]
#[verifier::spinoff_prover]
pub proof fn lemma_update_keeps_slot(
    before: TableStore,
    after: TableStore,
    old_loc: TupleLoc,
    row_id: RowId,
    entries: crate::record::Entries,
    done: Result<TupleLoc, CatalogError>,
    p: int,
    s: int,
)
    requires
        before.wf(),
        after.after_update_record(&before, old_loc, row_id, entries, done),
        done is Ok,
        0 <= p < before.heap().len(),
        0 <= s < record_count(before.heap()[p]),
        !(p == old_loc.page_id && s == old_loc.slot_id),
    ensures
        p < after.heap().len(),
        s < record_count(after.heap()[p]),
        slot_at(after.heap()[p], s) == slot_at(before.heap()[p], s),
{
    let heap = before.heap();
    let payload = record_payload(row_id, entries, before.cols())->Ok_0;
    let op = old_loc.page_id as int;
    let os = old_loc.slot_id as int;
    let loc = done->Ok_0;
    lemma_pages_get(heap, p);
    lemma_pages_get(heap, op);
    let fits = overwrite_outcome(heap[op], os, payload.len())->Ok_0;
    if fits {
        lemma_overwrite_rewrites_slot(heap[op], os, payload);
    } else {
        let need = payload.len() + SLOT_LEN;
        let room = before.heap_with_room_from(op, need);
        let tp = loc.page_id as int;
        let placed = room.update(tp, appended(room[tp], payload));
        lemma_fresh_page();
        assert(room[p] == heap[p]);
        assert(room[op] == heap[op]);
        if tp < heap.len() {
            lemma_pages_get(heap, tp);
            assert(room[tp] == heap[tp]);
        }
        lemma_append_gains_slot(room[tp], payload);
        assert(slot_at(placed[p], s) == slot_at(heap[p], s));
        assert(page_wf(placed[op]));
        lemma_tombstone_drops_slot(placed[op], os);
    }
}

/// What an update of a row that lies where the index has it comes to: it
/// adds one page at most; it succeeds only where the row can be written
/// under the schema and fits its slot or an empty page; and it fails only
/// where the row cannot be written, or does not fit its slot and either no
/// empty page would hold it or the page identifiers have run out.
#[verifier::rlimit(80)]
#[verifier::spinoff_prover]
pub proof fn lemma_update_outcome(
    before: TableStore,
    after: TableStore,
    old_loc: TupleLoc,
    row_id: RowId,
    entries: crate::record::Entries,
    done: Result<TupleLoc, CatalogError>,
)
    requires
        before.wf(),
        before.lies_at(row_id, old_loc),
        after.after_update_record(&before, old_loc, row_id, entries, done),
    ensures
        before.heap().len() <= after.heap().len() <= before.heap().len() + 1,
        match record_payload(row_id, entries, before.cols()) {
            Err(cause) => done == Err::<TupleLoc, CatalogError>(CatalogError::Record(cause)),
            Ok(payload) => {
                let room = slot_at(
                    before.heap()[old_loc.page_id as int],
                    old_loc.slot_id as int,
                ).len;
                match done {
                    Ok(_) => payload.len() <= room || payload.len() + SLOT_LEN <= PAGE_SIZE
                        - HEADER_LEN,
                    Err(e) => e == CatalogError::Page(PageError::PageFull) && payload.len() > room
                        && (before.heap().len() == u32::MAX || payload.len() + SLOT_LEN > PAGE_SIZE
                        - HEADER_LEN),
                }
            },
        },
{
    let heap = before.heap();
    let op = old_loc.page_id as int;
    lemma_index_get(heap, before.index(), row_id);
    lemma_pages_get(heap, op);
    lemma_fresh_page();
    match record_payload(row_id, entries, before.cols()) {
        Err(_) => {},
        Ok(payload) => {
            let need = payload.len() + SLOT_LEN;
            match done {
                Ok(loc) => {
                    let fits = overwrite_outcome(heap[op], old_loc.slot_id as int, payload.len())->Ok_0;
                    if fits {
                        assert(after.heap().len() == heap.len());
                    } else {
                        let room = before.heap_with_room_from(op, need);
                        let tp = loc.page_id as int;
                        if tp < heap.len() {
                            lemma_pages_get(heap, tp);
                        }
                        crate::page::lemma_payload_end_bound(room[tp]);
                        assert(after.heap().len() == room.len());
                    }
                },
                Err(_) => {
                    assert(after.heap().len() == heap.len() || after.heap().len() == heap.len()
                        + 1);
                },
            }
        },
    }
}

/// A record that is written takes its length and a slot from the free
/// bytes of the page that it goes to, and nothing else: the page has one
/// slot more, and the free-space map has for it what it has left.
#[verifier::spinoff_prover]
pub proof fn lemma_append_accounts(
    before: TableStore,
    after: TableStore,
    row_id: RowId,
    entries: crate::record::Entries,
    loc: TupleLoc,
)
    requires
        before.wf(),
        after.after_append(&before, row_id, entries, Ok(loc)),
    ensures
        ({
            let payload = record_payload(row_id, entries, before.cols())->Ok_0;
            let room = before.heap_with_room(payload.len() + SLOT_LEN);
            let page = room[loc.page_id as int];
            &&& loc.slot_id == record_count(page)
            &&& record_count(after.heap()[loc.page_id as int]) == record_count(page) + 1
            &&& after.state.free_space@[loc.page_id] == free_bytes(page) - payload.len() - SLOT_LEN
            &&& after.state.next_row_id == before.state.next_row_id
        }),
{
    let payload = record_payload(row_id, entries, before.cols())->Ok_0;
    let room = before.heap_with_room(payload.len() + SLOT_LEN);
    let pid = loc.page_id as int;
    lemma_fresh_page();
    if pid < before.heap().len() {
        lemma_pages_get(before.heap(), pid);
    }
    lemma_append(room[pid], payload);
}

/// An update in place that is made a second time with the same record
/// succeeds again at the same place and changes nothing.
#[verifier::spinoff_prover]
pub proof fn lemma_update_in_place_twice(
    before: TableStore,
    once: TableStore,
    twice: TableStore,
    old_loc: TupleLoc,
    row_id: RowId,
    entries: crate::record::Entries,
    first: Result<TupleLoc, CatalogError>,
    second: Result<TupleLoc, CatalogError>,
)
    requires
        before.wf(),
        before.lies_at(row_id, old_loc),
        once.after_update_record(&before, old_loc, row_id, entries, first),
        first matches Ok(loc) && loc.page_id == old_loc.page_id && loc.slot_id == old_loc.slot_id,
        twice.after_update_record(&once, old_loc, row_id, entries, second),
    ensures
        first == Ok::<TupleLoc, CatalogError>(old_loc),
        second == first,
        twice.heap() == once.heap(),
        twice.index() == once.index(),
        twice.state.free_space@ == once.state.free_space@,
        twice.state.next_page_id == once.state.next_page_id,
        twice.state.next_row_id == once.state.next_row_id,
{
    let heap = before.heap();
    let p = old_loc.page_id as int;
    let s = old_loc.slot_id as int;
    let payload = record_payload(row_id, entries, before.cols())->Ok_0;
    lemma_index_get(heap, before.index(), row_id);
    lemma_pages_get(heap, p);
    let page = heap[p];
    let fits = overwrite_outcome(page, s, payload.len())->Ok_0;
    if !fits {
        // a row that moves comes to lie behind its old place
        assert(old_loc.before(&first->Ok_0));
        assert(false);
    }
    crate::page::lemma_overwrite_idempotent(page, s, payload);
    let written = overwritten(page, s, payload);
    assert(once.heap()[p] == written);
    assert(once.cols() == before.cols());
    assert(overwrite_outcome(once.heap()[p], s, payload.len()) == Ok::<bool, PageError>(true));
    assert(second is Ok);
    assert(twice.heap() =~= once.heap());
    assert(twice.index() =~= once.index());
    assert(twice.state.free_space@ =~= once.state.free_space@);
}

} // verus!
