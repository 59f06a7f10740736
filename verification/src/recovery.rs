//! Rebuilding the state of a table from the pages of its heap.

use std::collections::HashMap;
use vstd::prelude::*;
use vstd::slice::*;
use vstd::std_specs::hash::*;
use vstd::std_specs::iter::IteratorSpec;
use crate::error::{CatalogError, PageError, RecordError};
use crate::le::read_u64;
use crate::page::{
    check_page, free_bytes, page_free_bytes, page_record_count, page_wf, read_slot,
    record_count, slot_at, PAGE_SIZE,
};
use crate::record_codec::{deserialize_record_for_page, record_decoding};
use crate::scan::{
    comes_before, lemma_scan_page_error_stays, live_rows, scan_page, Found,
};
use crate::store::{
    free_wf, heap_view, ids_below, index_covers_but, index_points, index_wf,
    indexed, lemma_decoding_row_id, live_at, loc_of, pages_wf, payload_at,
    row_id_of, rows_wf, TableState, TableStore, HEAP_SEGMENT,
};
use crate::types::{column_views, Column, ColumnView, RowId, TupleLoc};
use crate::value::ValueView;

verus! {

broadcast use vstd::std_specs::hash::group_hash_axioms;

/// What recovery has found after the first `n` pages of a heap: for each
/// row the last live version. A buffer that is no page of the page layer
/// ends recovery with `Page(CorruptPage)`, a live payload that cannot be
/// read with `Record(..)`.
pub open spec fn recovery(heap: Seq<Seq<u8>>, cols: Seq<ColumnView>, n: nat) -> Result<
    Found,
    CatalogError,
>
    decreases n,
{
    if n == 0 {
        Ok(Map::<RowId, (TupleLoc, Seq<ValueView>)>::empty())
    } else {
        match recovery(heap, cols, (n - 1) as nat) {
            Err(e) => Err(e),
            Ok(acc) => if !page_wf(heap[n - 1]) {
                Err(CatalogError::Page(PageError::CorruptPage))
            } else {
                match scan_page(heap, cols, None, n - 1, record_count(heap[n - 1]) as nat, acc) {
                    Err(e) => Err(CatalogError::Record(e)),
                    Ok(found) => Ok(found),
                }
            },
        }
    }
}

/// Once recovery has failed, recovering more pages fails the same way.
pub proof fn lemma_recovery_error_stays(
    heap: Seq<Seq<u8>>,
    cols: Seq<ColumnView>,
    failed: nat,
    n: nat,
)
    requires
        failed <= n,
        recovery(heap, cols, failed) is Err,
    ensures
        recovery(heap, cols, n) == recovery(heap, cols, failed),
    decreases n,
{
    if failed < n {
        lemma_recovery_error_stays(heap, cols, failed, (n - 1) as nat);
    }
}

/// Whether an index holds the places of the rows that were found, and
/// nothing else.
pub open spec fn index_of(index: Map<RowId, TupleLoc>, found: Found) -> bool {
    &&& forall|r: RowId| #[trigger] index.contains_key(r) <==> found.contains_key(r)
    &&& forall|r: RowId| #[trigger] index.contains_key(r) ==> index[r] == found[r].0
}

/// Whether `top` is the largest row of an index, or 0 for an index without
/// rows.
pub open spec fn is_top(index: Map<RowId, TupleLoc>, top: RowId) -> bool {
    &&& forall|r: RowId| #[trigger] index.contains_key(r) ==> r <= top
    &&& index.contains_key(top) || (top == 0 && forall|r: RowId| !#[trigger] index.contains_key(r))
}

/// Whether two live slots before slot `sid` of page `pid` hold the same row.
pub open spec fn met_twice(heap: Seq<Seq<u8>>, pid: int, sid: int) -> bool {
    exists|p: int, s: int, q: int, t: int|
        #![trigger live_at(heap, p, s), live_at(heap, q, t)]
        live_at(heap, p, s) && live_at(heap, q, t) && !(p == q && s == t) && (p < pid || (p == pid
            && s < sid)) && (q < pid || (q == pid && t < sid)) && row_id_of(payload_at(heap, p, s))
            == row_id_of(payload_at(heap, q, t))
}

/// Whether two live slots of a heap hold the same row: one of them is then
/// a version that a later one supersedes.
pub open spec fn has_stale(heap: Seq<Seq<u8>>) -> bool {
    met_twice(heap, heap.len() as int, 0)
}

/// Whether an index is what recovery has built from the slots before slot
/// `sid` of page `pid`: its entries point at live slots among them that
/// hold their rows; each live payload among them can be read; and, unless a
/// row was met twice, each live slot among them is what the index has for
/// its row.
pub open spec fn built_upto(
    heap: Seq<Seq<u8>>,
    cols: Seq<ColumnView>,
    index: Map<RowId, TupleLoc>,
    pid: int,
    sid: int,
    single: bool,
) -> bool {
    &&& forall|r: RowId| #[trigger]
        index.contains_key(r) ==> {
            let loc = index[r];
            &&& loc == loc_of(loc.page_id as int, loc.slot_id as int)
            &&& comes_before(loc, pid, sid)
            &&& live_at(heap, loc.page_id as int, loc.slot_id as int)
            &&& row_id_of(payload_at(heap, loc.page_id as int, loc.slot_id as int)) == r
        }
    &&& forall|p: int, s: int| #[trigger]
        live_at(heap, p, s) && (p < pid || (p == pid && s < sid)) ==> record_decoding(
            payload_at(heap, p, s),
            cols,
        ) is Ok
    &&& single ==> forall|p: int, s: int| #[trigger]
        live_at(heap, p, s) && (p < pid || (p == pid && s < sid)) ==> indexed(heap, index, p, s)
    &&& !single ==> met_twice(heap, pid, sid)
}

/// Two slots that were met before a slot were met before every later slot.
pub proof fn lemma_met_twice_later(heap: Seq<Seq<u8>>, pid: int, sid: int, pid2: int, sid2: int)
    requires
        pid < pid2 || (pid == pid2 && sid <= sid2),
    ensures
        met_twice(heap, pid, sid) ==> met_twice(heap, pid2, sid2),
{
    if met_twice(heap, pid, sid) {
        let (p, s, q, t) = choose|p: int, s: int, q: int, t: int|
            #![trigger live_at(heap, p, s), live_at(heap, q, t)]
            live_at(heap, p, s) && live_at(heap, q, t) && !(p == q && s == t) && (p < pid || (p
                == pid && s < sid)) && (q < pid || (q == pid && t < sid)) && row_id_of(
                payload_at(heap, p, s),
            ) == row_id_of(payload_at(heap, q, t));
        assert(live_at(heap, p, s) && live_at(heap, q, t));
    }
}

/// In a heap that agrees with an index no two live slots hold the same row.
pub proof fn lemma_no_stale(heap: Seq<Seq<u8>>, index: Map<RowId, TupleLoc>)
    requires
        index_wf(heap, index),
        heap.len() <= u32::MAX,
    ensures
        !has_stale(heap),
{
    reveal(index_covers_but);
    if has_stale(heap) {
        let (p, s, q, t) = choose|p: int, s: int, q: int, t: int|
            #![trigger live_at(heap, p, s), live_at(heap, q, t)]
            live_at(heap, p, s) && live_at(heap, q, t) && !(p == q && s == t) && (p < heap.len()
                || (p == heap.len() && s < 0)) && (q < heap.len() || (q == heap.len() && t < 0))
                && row_id_of(payload_at(heap, p, s)) == row_id_of(payload_at(heap, q, t));
        assert(indexed(heap, index, p, s));
        assert(indexed(heap, index, q, t));
        assert(loc_of(p, s) == loc_of(q, t));
    }
}

/// Takes the live slots of one page into the index.
#[verifier::loop_isolation(false)]
fn index_page(
    page: &[u8],
    pid: u32,
    columns: &[Column],
    index: &mut HashMap<RowId, TupleLoc>,
    top: &mut RowId,
    seen: &mut RowId,
    single: &mut bool,
    Ghost(heap): Ghost<Seq<Seq<u8>>>,
    Ghost(acc): Ghost<Found>,
) -> (done: Result<Ghost<Found>, RecordError>)
    requires
        pid < heap.len() <= u32::MAX,
        heap[pid as int] == page@,
        page_wf(page@),
        index_of(old(index)@, acc),
        is_top(old(index)@, *old(top)),
        seen_upto(heap, pid as int, 0, *old(seen)),
        *old(top) <= *old(seen),
        built_upto(heap, column_views(columns@), old(index)@, pid as int, 0, *old(single)),
    ensures
        match done {
            Ok(found) => scan_page(
                heap,
                column_views(columns@),
                None,
                pid as int,
                record_count(page@) as nat,
                acc,
            ) == Ok::<Found, RecordError>(found@) && index_of(final(index)@, found@) && is_top(
                final(index)@,
                *final(top),
            ) && seen_upto(heap, pid + 1, 0, *final(seen)) && *final(top) <= *final(seen)
                && built_upto(
                heap,
                column_views(columns@),
                final(index)@,
                pid + 1,
                0,
                *final(single),
            ),
            Err(e) => scan_page(
                heap,
                column_views(columns@),
                None,
                pid as int,
                record_count(page@) as nat,
                acc,
            ) == Err::<Found, RecordError>(e),
        },
{
    let ghost cols = column_views(columns@);
    let count = page_record_count(page);
    let ghost mut found = acc;
    let mut sid: u16 = 0;
    while sid < count
        invariant
            sid <= count,
            count == record_count(page@),
            scan_page(heap, cols, None, pid as int, sid as nat, acc) == Ok::<Found, RecordError>(
                found,
            ),
            index_of(index@, found),
            is_top(index@, *top),
            seen_upto(heap, pid as int, sid as int, *seen),
            *top <= *seen,
            built_upto(heap, cols, index@, pid as int, sid as int, *single),
        decreases count - sid,
    {
        let slot = read_slot(page, sid);
        let ghost before = index@;
        let ghost seen_before = *seen;
        assert(slot_at(page@, sid as int).end() <= PAGE_SIZE);
        if slot.len >= 8 {
            assert(page@.subrange(slot.off as int, slot.off + 8) =~= payload_at(
                heap,
                pid as int,
                sid as int,
            ).subrange(0, 8));
            let carried = read_u64(page, slot.off as usize);
            if carried > *seen {
                *seen = carried;
            }
        }
        proof {
            lemma_seen_step(heap, pid as int, sid as int, seen_before, *seen);
        }
        if slot.flags == 0 {
            let start = slot.off as usize;
            let end = start + slot.len as usize;
            assert(slot_at(page@, sid as int).end() <= PAGE_SIZE);
            let payload = slice_subrange(page, start, end);
            assert(payload@ == payload_at(heap, pid as int, sid as int));
            match deserialize_record_for_page(payload, columns) {
                Ok((row_id, _record)) => {
                    proof {
                        lemma_decoding_row_id(payload@, cols);
                        assert(payload@.len() == slot.len);
                    }
                    let loc = TupleLoc {
                        seg: HEAP_SEGMENT,
                        page_id: pid,
                        slot_id: sid,
                        flags: 0,
                    };
                    match index.insert(row_id, loc) {
                        Some(_) => {
                            *single = false;
                        },
                        None => {},
                    }
                    if row_id > *top {
                        *top = row_id;
                    }
                    proof {
                        let values = record_decoding(payload@, cols)->Ok_0.1;
                        assert(record_decoding(payload@, cols)->Ok_0 == (row_id, values));
                        found = found.insert(row_id, (loc, values));
                        assert(loc == loc_of(pid as int, sid as int));
                        assert(live_at(heap, pid as int, sid as int));
                        if before.contains_key(row_id) {
                            let was = before[row_id];
                            assert(live_at(heap, was.page_id as int, was.slot_id as int));
                            assert(met_twice(heap, pid as int, sid + 1));
                        }
                        if met_twice(heap, pid as int, sid as int) {
                            let (p, s, q, t) = choose|p: int, s: int, q: int, t: int|
                                #![trigger live_at(heap, p, s), live_at(heap, q, t)]
                                live_at(heap, p, s) && live_at(heap, q, t) && !(p == q && s == t)
                                    && (p < pid || (p == pid && s < sid)) && (q < pid || (q == pid
                                    && t < sid)) && row_id_of(payload_at(heap, p, s)) == row_id_of(
                                    payload_at(heap, q, t),
                                );
                            assert(live_at(heap, p, s) && live_at(heap, q, t));
                            assert(met_twice(heap, pid as int, sid + 1));
                        }
                        assert forall|p: int, s: int| #[trigger]
                            live_at(heap, p, s) && (p < pid || (p == pid && s < sid + 1))
                                && *single implies indexed(heap, index@, p, s) by {
                            if !(p == pid && s == sid) {
                                assert(indexed(heap, before, p, s));
                            }
                        }
                    }
                },
                Err(e) => {
                    proof {
                        lemma_scan_page_error_stays(
                            heap,
                            cols,
                            None,
                            pid as int,
                            (sid + 1) as nat,
                            count as nat,
                            acc,
                        );
                    }
                    return Err(e);
                },
            }
        } else {
            proof {
                lemma_met_twice_later(heap, pid as int, sid as int, pid as int, sid + 1);
            }
        }
        sid += 1;
    }
    proof {
        assert forall|r: RowId| #[trigger] index@.contains_key(r) implies comes_before(
            index@[r],
            pid + 1,
            0,
        ) by {}
        lemma_met_twice_later(heap, pid as int, count as int, pid + 1, 0);
        lemma_seen_page(heap, pid as int, count as int, *seen);
    }
    Ok(Ghost(found))
}

/// Whether slot `sid` of page `pid` exists and its payload is long enough
/// to carry a row identifier, be the slot live or a tombstone.
pub open spec fn carries(heap: Seq<Seq<u8>>, pid: int, sid: int) -> bool {
    &&& 0 <= pid < heap.len()
    &&& 0 <= sid < record_count(heap[pid])
    &&& slot_at(heap[pid], sid).len >= 8
}

/// Whether `top` is the largest row identifier that a slot before slot
/// `sid` of page `pid` carries, live or tombstoned, or 0 where none
/// carries one.
#[verifier::opaque]
pub open spec fn seen_upto(heap: Seq<Seq<u8>>, pid: int, sid: int, top: RowId) -> bool {
    &&& forall|p: int, s: int| #[trigger]
        carries(heap, p, s) && (p < pid || (p == pid && s < sid)) ==> row_id_of(
            payload_at(heap, p, s),
        ) <= top
    &&& top == 0 || exists|p: int, s: int| #[trigger]
        carries(heap, p, s) && (p < pid || (p == pid && s < sid)) && row_id_of(
            payload_at(heap, p, s),
        ) == top
}

/// Whether `next` is the row identifier that follows the largest one that
/// a slot of the heap carries, live or tombstoned: one more than it,
/// `u64::MAX` where that is the largest, and 1 for a heap whose slots carry
/// none.
pub open spec fn follows(heap: Seq<Seq<u8>>, next: RowId) -> bool {
    exists|top: RowId| #[trigger]
        seen_upto(heap, heap.len() as int, 0, top) && next == if top < u64::MAX {
            (top + 1) as u64
        } else {
            u64::MAX
        }
}

/// No slot lies before the first.
pub proof fn lemma_seen_start(heap: Seq<Seq<u8>>)
    ensures
        seen_upto(heap, 0, 0, 0),
{
    reveal(seen_upto);
}

/// One slot more: the largest row identifier is that of the slot where the
/// slot carries a larger one, and as it was where it does not.
pub proof fn lemma_seen_step(heap: Seq<Seq<u8>>, pid: int, sid: int, top: RowId, now: RowId)
    requires
        seen_upto(heap, pid, sid, top),
        now == if carries(heap, pid, sid) && row_id_of(payload_at(heap, pid, sid)) > top {
            row_id_of(payload_at(heap, pid, sid))
        } else {
            top
        },
    ensures
        seen_upto(heap, pid, sid + 1, now),
{
    reveal(seen_upto);
    if now != top {
        assert(carries(heap, pid, sid));
    } else if top != 0 {
        let (p, s) = choose|p: int, s: int| #[trigger]
            carries(heap, p, s) && (p < pid || (p == pid && s < sid)) && row_id_of(
                payload_at(heap, p, s),
            ) == top;
        assert(carries(heap, p, s));
    }
}

/// What was seen up to the end of a page was seen up to the start of the
/// next.
pub proof fn lemma_seen_page(heap: Seq<Seq<u8>>, pid: int, sid: int, top: RowId)
    requires
        seen_upto(heap, pid, sid, top),
        0 <= pid < heap.len() ==> sid >= record_count(heap[pid]),
    ensures
        seen_upto(heap, pid + 1, 0, top),
{
    reveal(seen_upto);
    if top != 0 {
        let (p, s) = choose|p: int, s: int| #[trigger]
            carries(heap, p, s) && (p < pid || (p == pid && s < sid)) && row_id_of(
                payload_at(heap, p, s),
            ) == top;
        assert(carries(heap, p, s));
    }
}

/// Every row identifier that a slot of the heap carries, live or
/// tombstoned, is below the identifier that follows, unless the identifiers
/// have run out.
pub proof fn lemma_follows_above(heap: Seq<Seq<u8>>, next: RowId, pid: int, sid: int)
    requires
        follows(heap, next),
        carries(heap, pid, sid),
    ensures
        row_id_of(payload_at(heap, pid, sid)) < next || next == u64::MAX,
{
    reveal(seen_upto);
}

/// The row identifier that follows is the same whichever slots are live:
/// tombstoning changes no payload and no slot length.
pub proof fn lemma_follows_one(heap: Seq<Seq<u8>>, a: RowId, b: RowId)
    requires
        follows(heap, a),
        follows(heap, b),
    ensures
        a == b,
{
    reveal(seen_upto);
    let ta = choose|top: RowId| #[trigger]
        seen_upto(heap, heap.len() as int, 0, top) && a == if top < u64::MAX {
            (top + 1) as u64
        } else {
            u64::MAX
        };
    let tb = choose|top: RowId| #[trigger]
        seen_upto(heap, heap.len() as int, 0, top) && b == if top < u64::MAX {
            (top + 1) as u64
        } else {
            u64::MAX
        };
    if ta != tb {
        if ta != 0 {
            let (p, s) = choose|p: int, s: int| #[trigger]
                carries(heap, p, s) && (p < heap.len() || (p == heap.len() && s < 0)) && row_id_of(
                    payload_at(heap, p, s),
                ) == ta;
            assert(carries(heap, p, s));
        }
        if tb != 0 {
            let (p, s) = choose|p: int, s: int| #[trigger]
                carries(heap, p, s) && (p < heap.len() || (p == heap.len() && s < 0)) && row_id_of(
                    payload_at(heap, p, s),
                ) == tb;
            assert(carries(heap, p, s));
        }
    }
}

/// Rebuilds the state of a table from its schema and the pages of its
/// heap: the index has for each row the last live slot that holds it, the
/// free-space map the free bytes of each page, the next page identifier is
/// the number of pages, and the next row identifier follows the largest row
/// identifier that a slot carries, live or tombstoned. With the state come
/// whether no row was met in two live slots, and the largest row of the
/// index. The errors are those of `recover`.
#[verifier::loop_isolation(false)]
pub fn rebuild(columns: &[Column], pages: &Vec<Vec<u8>>) -> (done: Result<
    (TableState, bool, RowId),
    CatalogError,
>)
    ensures
        match done {
            Ok((state, single, top)) => {
                let heap = heap_view(pages@);
                let cols = column_views(columns@);
                &&& pages@.len() <= u32::MAX
                &&& recovery(heap, cols, pages@.len()) is Ok
                &&& index_of(state.row_index@, recovery(heap, cols, pages@.len())->Ok_0)
                &&& pages_wf(heap)
                &&& rows_wf(heap, cols)
                &&& index_points(heap, state.row_index@)
                &&& free_wf(heap, state.free_space@)
                &&& state.next_page_id == pages@.len()
                &&& follows(heap, state.next_row_id)
                &&& ids_below(state.row_index@, state.next_row_id)
                &&& is_top(state.row_index@, top)
                &&& single ==> index_wf(heap, state.row_index@)
                &&& single <==> !has_stale(heap)
            },
            Err(e) => if pages@.len() > u32::MAX {
                e == CatalogError::Page(PageError::CorruptPage)
            } else {
                recovery(heap_view(pages@), column_views(columns@), pages@.len()) == Err::<
                    Found,
                    CatalogError,
                >(e)
            },
        },
{
    let n = pages.len();
    if n > u32::MAX as usize {
        return Err(CatalogError::Page(PageError::CorruptPage));
    }
    let ghost heap = heap_view(pages@);
    let ghost cols = column_views(columns@);
    let mut index: HashMap<RowId, TupleLoc> = HashMap::new();
    let mut free_space: HashMap<u32, usize> = HashMap::new();
    let mut top: RowId = 0;
    let mut seen: RowId = 0;
    let mut single = true;
    proof {
        lemma_seen_start(heap);
    }
    let ghost mut found: Found = Map::empty();
    let mut pid: usize = 0;
    while pid < n
        invariant
            pid <= n,
            recovery(heap, cols, pid as nat) == Ok::<Found, CatalogError>(found),
            index_of(index@, found),
            is_top(index@, top),
            seen_upto(heap, pid as int, 0, seen),
            top <= seen,
            built_upto(heap, cols, index@, pid as int, 0, single),
            forall|q: int| 0 <= q < pid ==> page_wf(#[trigger] heap[q]),
            forall|q: u32| #[trigger] free_space@.contains_key(q) <==> q < pid,
            forall|q: u32| q < pid ==> (#[trigger] free_space@[q]) == free_bytes(heap[q as int]),
        decreases n - pid,
    {
        let page = pages[pid].as_slice();
        assert(heap[pid as int] == page@);
        if !check_page(page) {
            proof {
                lemma_recovery_error_stays(heap, cols, (pid + 1) as nat, n as nat);
            }
            return Err(CatalogError::Page(PageError::CorruptPage));
        }
        match index_page(
            page,
            pid as u32,
            columns,
            &mut index,
            &mut top,
            &mut seen,
            &mut single,
            Ghost(heap),
            Ghost(found),
        ) {
            Ok(now) => {
                proof {
                    found = now@;
                }
            },
            Err(e) => {
                proof {
                    lemma_recovery_error_stays(heap, cols, (pid + 1) as nat, n as nat);
                }
                return Err(CatalogError::Record(e));
            },
        }
        let free = match page_free_bytes(page) {
            Ok(free) => free,
            Err(_) => 0,
        };
        free_space.insert(pid as u32, free);
        pid += 1;
    }
    let next_row_id = if seen < u64::MAX {
        seen + 1
    } else {
        u64::MAX
    };
    let state = TableState { row_index: index, free_space, next_page_id: n as u32, next_row_id };
    proof {
        reveal(pages_wf);
        reveal(rows_wf);
        reveal(index_points);
        reveal(index_covers_but);
        reveal(free_wf);
        reveal(ids_below);
        assert forall|p: int, s: int| #[trigger] live_at(heap, p, s) implies p < n by {}
        if single {
            lemma_no_stale(heap, state.row_index@);
        }
    }
    Ok((state, single, top))
}

/// Rebuilds a table from its schema and the pages of its heap: the index has
/// for each row the last live slot that holds it, the free-space map the
/// free bytes of each page, the next page identifier is the number of
/// pages, and the next row identifier follows the largest row identifier
/// that a slot carries, live or tombstoned. With the table comes whether no
/// row was met in two live slots; the table is then well formed.
/// `Page(CorruptPage)` for the first buffer that is no page of the page
/// layer, or for a heap with more pages than page identifiers; `Record(..)`
/// for the first live payload that cannot be read.
pub fn recover(name: String, columns: Vec<Column>, pages: Vec<Vec<u8>>) -> (done: Result<
    (TableStore, bool),
    CatalogError,
>)
    ensures
        match done {
            Ok((store, single)) => {
                &&& store.name == name
                &&& store.columns == columns
                &&& store.pages == pages
                &&& pages@.len() <= u32::MAX
                &&& recovery(store.heap(), store.cols(), pages@.len()) is Ok
                &&& index_of(store.index(), recovery(store.heap(), store.cols(), pages@.len())->Ok_0)
                &&& pages_wf(store.heap())
                &&& rows_wf(store.heap(), store.cols())
                &&& index_points(store.heap(), store.index())
                &&& free_wf(store.heap(), store.state.free_space@)
                &&& store.state.next_page_id == pages@.len()
                &&& follows(store.heap(), store.state.next_row_id)
                &&& ids_below(store.index(), store.state.next_row_id)
                &&& single ==> store.wf()
                &&& single <==> !has_stale(store.heap())
            },
            Err(e) => if pages@.len() > u32::MAX {
                e == CatalogError::Page(PageError::CorruptPage)
            } else {
                recovery(heap_view(pages@), column_views(columns@), pages@.len()) == Err::<
                    Found,
                    CatalogError,
                >(e)
            },
        },
{
    match rebuild(columns.as_slice(), &pages) {
        Ok((state, single, _)) => Ok((TableStore { name, columns, pages, state }, single)),
        Err(e) => Err(e),
    }
}

impl TableStore {
    /// Whether the table is well formed.
    pub fn check(&self) -> (ok: bool)
        ensures
            ok == self.wf(),
    {
        let ghost heap = self.heap();
        let ghost index = self.index();
        proof {
            assert(heap == heap_view(self.pages@));
            assert(self.cols() == column_views(self.columns@));
            if self.wf() {
                lemma_recovery_finds_index(*self);
                lemma_recovered_is_sound(*self);
                crate::store::lemma_pages_get(heap, 0);
            }
        }
        match rebuild(self.columns.as_slice(), &self.pages) {
            Ok((state, single, top)) => {
                let places = same_places(&state.row_index, &self.state.row_index);
                let room = same_room(&state.free_space, &self.state.free_space);
                let count = self.state.next_page_id as usize == self.pages.len();
                let none = self.state.row_index.len() == 0;
                let below = none || top < self.state.next_row_id || self.state.next_row_id
                    == u64::MAX;
                let ok = single && places && room && count && below;
                proof {
                    if self.wf() {
                        let found = recovery(heap, self.cols(), heap.len())->Ok_0;
                        assert(state.row_index@ =~= index) by {
                            assert forall|r: RowId| state.row_index@.contains_key(r) implies (
                            #[trigger] index.contains_key(r)) && state.row_index@[r]
                                == index[r] by {
                                assert(found.contains_key(r));
                            }
                            assert forall|r: RowId| index.contains_key(
                                r,
                            ) implies #[trigger] state.row_index@.contains_key(r) by {
                                assert(found.contains_key(r));
                            }
                        }
                        lemma_free_space_is_of_pages(heap, state.free_space@, self.state.free_space@);
                        assert(below) by {
                            reveal(ids_below);
                            if !none {
                                if !index.contains_key(top) {
                                    assert(index.dom() =~= Set::<RowId>::empty());
                                }
                            }
                        }
                        assert(ok);
                    }
                    if ok {
                        assert(index == state.row_index@);
                        assert(ids_below(index, self.state.next_row_id)) by {
                            reveal(ids_below);
                            if none {
                                assert(index.dom().len() == 0);
                                assert(index.dom() =~= Set::<RowId>::empty());
                            }
                        }
                        assert(self.wf());
                    }
                }
                ok
            },
            Err(e) => {
                proof {
                    if self.wf() {
                        reveal(pages_wf);
                    }
                }
                false
            },
        }
    }
}

/// Whether two indexes hold the same rows at the same places.
fn same_places(a: &HashMap<RowId, TupleLoc>, b: &HashMap<RowId, TupleLoc>) -> (same: bool)
    ensures
        same == (a@ == b@),
{
    if a.len() != b.len() {
        return false;
    }
    let mut ids: Vec<RowId> = Vec::new();
    let keys = a.keys();
    let ghost listed = keys.remaining().unref();
    for id in it: keys
        invariant
            ids@.len() == it.index(),
            forall|j: int| 0 <= j < ids@.len() ==> ids@[j] == *(#[trigger] it.seq()[j]),
    {
        ids.push(*id);
    }
    assert(ids@ =~= listed);
    assert(listed.to_set() == a@.dom());
    let mut i: usize = 0;
    while i < ids.len()
        invariant
            i <= ids@.len(),
            ids@ == listed,
            listed.to_set() == a@.dom(),
            forall|j: int|
                0 <= j < i ==> b@.contains_key(#[trigger] ids@[j]) && b@[ids@[j]] == a@[ids@[j]],
        decreases ids@.len() - i,
    {
        let key = ids[i];
        assert(listed.contains(key));
        assert(a@.dom().contains(key));
        let here = a.get(&key);
        match b.get(&key) {
            Some(there) => {
                match here {
                    Some(loc) => {
                        if *loc != *there {
                            assert(a@[key] != b@[key]);
                            return false;
                        }
                    },
                    None => {
                        return false;
                    },
                }
            },
            None => {
                assert(!b@.contains_key(key));
                return false;
            },
        }
        i += 1;
    }
    proof {
        assert(a@.dom().subset_of(b@.dom())) by {
            assert forall|k: RowId| a@.dom().contains(k) implies b@.dom().contains(k) by {
                assert(listed.contains(k));
                let j = choose|j: int| 0 <= j < listed.len() && listed[j] == k;
            }
        }
        vstd::set_lib::lemma_subset_equality(a@.dom(), b@.dom());
        assert(a@ =~= b@) by {
            assert forall|k: RowId| a@.dom().contains(k) implies a@[k] == b@[k] by {
                assert(listed.contains(k));
                let j = choose|j: int| 0 <= j < listed.len() && listed[j] == k;
            }
        }
    }
    true
}

/// Whether two free-space maps give the same pages the same room.
fn same_room(a: &HashMap<u32, usize>, b: &HashMap<u32, usize>) -> (same: bool)
    ensures
        same == (a@ == b@),
{
    if a.len() != b.len() {
        return false;
    }
    let mut ids: Vec<u32> = Vec::new();
    let keys = a.keys();
    let ghost listed = keys.remaining().unref();
    for id in it: keys
        invariant
            ids@.len() == it.index(),
            forall|j: int| 0 <= j < ids@.len() ==> ids@[j] == *(#[trigger] it.seq()[j]),
    {
        ids.push(*id);
    }
    assert(ids@ =~= listed);
    assert(listed.to_set() == a@.dom());
    let mut i: usize = 0;
    while i < ids.len()
        invariant
            i <= ids@.len(),
            ids@ == listed,
            listed.to_set() == a@.dom(),
            forall|j: int|
                0 <= j < i ==> b@.contains_key(#[trigger] ids@[j]) && b@[ids@[j]] == a@[ids@[j]],
        decreases ids@.len() - i,
    {
        let key = ids[i];
        assert(listed.contains(key));
        assert(a@.dom().contains(key));
        let here = a.get(&key);
        match b.get(&key) {
            Some(there) => {
                match here {
                    Some(room) => {
                        if *room != *there {
                            assert(a@[key] != b@[key]);
                            return false;
                        }
                    },
                    None => {
                        return false;
                    },
                }
            },
            None => {
                assert(!b@.contains_key(key));
                return false;
            },
        }
        i += 1;
    }
    proof {
        assert(a@.dom().subset_of(b@.dom())) by {
            assert forall|k: u32| a@.dom().contains(k) implies b@.dom().contains(k) by {
                assert(listed.contains(k));
                let j = choose|j: int| 0 <= j < listed.len() && listed[j] == k;
            }
        }
        vstd::set_lib::lemma_subset_equality(a@.dom(), b@.dom());
        assert(a@ =~= b@) by {
            assert forall|k: u32| a@.dom().contains(k) implies a@[k] == b@[k] by {
                assert(listed.contains(k));
                let j = choose|j: int| 0 <= j < listed.len() && listed[j] == k;
            }
        }
    }
    true
}

/// Recovery of the heap of a well-formed table finds its index: every row at
/// the place where the index has it, and no other row. So a table that is
/// rebuilt from its pages has the rows that it had.
pub proof fn lemma_recovery_finds_index(store: TableStore)
    requires
        store.wf(),
    ensures
        recovery(store.heap(), store.cols(), store.heap().len()) == Ok::<Found, CatalogError>(
            live_rows(store.heap(), store.cols(), store.index(), None),
        ),
        index_of(store.index(), live_rows(store.heap(), store.cols(), store.index(), None)),
{
    lemma_recovery_is_scan(store.heap(), store.cols(), store.heap().len());
    crate::scan::lemma_scan_finds_live_rows(store, None);
}

/// On a heap whose pages are pages of the page layer, recovery finds what a
/// scan without a clause finds.
pub proof fn lemma_recovery_is_scan(heap: Seq<Seq<u8>>, cols: Seq<ColumnView>, n: nat)
    requires
        pages_wf(heap),
        n <= heap.len(),
    ensures
        recovery(heap, cols, n) == crate::scan::scan_heap(heap, cols, None, n),
    decreases n,
{
    if n > 0 {
        lemma_recovery_is_scan(heap, cols, (n - 1) as nat);
        crate::store::lemma_pages_get(heap, n - 1);
    }
}

/// Two free-space maps of the same heap are the same map: the free-space
/// map is a function of the pages.
pub proof fn lemma_free_space_is_of_pages(
    heap: Seq<Seq<u8>>,
    a: Map<u32, usize>,
    b: Map<u32, usize>,
)
    requires
        free_wf(heap, a),
        free_wf(heap, b),
    ensures
        a == b,
{
    reveal(free_wf);
    assert(a =~= b);
}

/// A table that is rebuilt from the pages of a well-formed table is found
/// without a row met twice, so it is well formed too.
pub proof fn lemma_recovered_is_sound(store: TableStore)
    requires
        store.wf(),
    ensures
        !has_stale(store.heap()),
{
    crate::store::lemma_pages_get(store.heap(), 0);
    lemma_no_stale(store.heap(), store.index());
}

/// A table that is rebuilt from the schema and the pages of a well-formed
/// table has its index, its free-space map and its rows: what a scan finds
/// after reopening is what it found before.
pub proof fn lemma_recovery_equivalence(store: TableStore, rebuilt: TableStore)
    requires
        store.wf(),
        rebuilt.heap() == store.heap(),
        rebuilt.cols() == store.cols(),
        index_of(
            rebuilt.index(),
            recovery(store.heap(), store.cols(), store.heap().len())->Ok_0,
        ),
        free_wf(rebuilt.heap(), rebuilt.state.free_space@),
    ensures
        rebuilt.index() == store.index(),
        rebuilt.state.free_space@ == store.state.free_space@,
        rebuilt.rows() == store.rows(),
        forall|clause: Option<crate::ast::Condition>|
            live_rows(rebuilt.heap(), rebuilt.cols(), rebuilt.index(), clause) == live_rows(
                store.heap(),
                store.cols(),
                store.index(),
                clause,
            ),
{
    lemma_recovery_finds_index(store);
    let found = live_rows(store.heap(), store.cols(), store.index(), None);
    assert forall|r: RowId| rebuilt.index().contains_key(r) <==> store.index().contains_key(
        r,
    ) by {
        assert(rebuilt.index().contains_key(r) <==> found.contains_key(r));
        assert(store.index().contains_key(r) <==> found.contains_key(r));
    }
    assert forall|r: RowId| rebuilt.index().contains_key(r) implies rebuilt.index()[r]
        == store.index()[r] by {
        assert(found.contains_key(r));
    }
    assert(rebuilt.index() =~= store.index());
    lemma_free_space_is_of_pages(store.heap(), rebuilt.state.free_space@, store.state.free_space@);
}

/// The free bytes that a well-formed table keeps for each of its pages are
/// the page less its slot directory less its header and payloads.
pub proof fn lemma_free_space_consistent(store: TableStore, pid: u32)
    requires
        store.wf(),
        pid < store.heap().len(),
    ensures
        store.state.free_space@.contains_key(pid),
        store.state.free_space@[pid] == PAGE_SIZE - record_count(store.heap()[pid as int])
            * crate::page::SLOT_LEN - crate::page::payload_end(store.heap()[pid as int]),
{
    crate::store::lemma_free_get(store.heap(), store.state.free_space@, pid);
    crate::store::lemma_pages_get(store.heap(), pid as int);
    let page = store.heap()[pid as int];
    crate::page::lemma_payload_end_bound(page);
}

/// The row identifier that is given out after `row_id`.
pub open spec fn id_after(row_id: RowId) -> RowId {
    if row_id < u64::MAX {
        (row_id + 1) as u64
    } else {
        u64::MAX
    }
}

/// Row identifiers that are given out one after the other go up, as long as
/// they have not run out: `next_row_id` gives the next identifier of the
/// table and leaves `id_after` of it as the next.
pub proof fn lemma_row_ids_increase(first: RowId)
    requires
        first < u64::MAX,
    ensures
        first < id_after(first),
{
}

/// The next row identifier of a rebuilt table is above every row
/// identifier that a slot of its heap carries, live or tombstoned, unless
/// the largest of them is the last identifier: no identifier that was given
/// out and written is given out again.
pub proof fn lemma_rebuilt_ids_above(heap: Seq<Seq<u8>>, next: RowId, pid: int, sid: int)
    requires
        follows(heap, next),
        carries(heap, pid, sid),
        row_id_of(payload_at(heap, pid, sid)) < u64::MAX,
    ensures
        row_id_of(payload_at(heap, pid, sid)) < next,
{
    lemma_follows_above(heap, next, pid, sid);
    reveal(seen_upto);
}

} // verus!
