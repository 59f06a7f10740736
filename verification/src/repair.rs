//! Reopening a table whose heap may hold versions of rows that a later
//! version has superseded: what an update leaves behind that was cut short
//! after it had written the new version and before it had tombstoned the
//! old one.

use vstd::prelude::*;
use vstd::std_specs::hash::*;
use crate::error::{CatalogError, PageError};
use crate::page::{page_record_count, page_wf, record_count, tombstoned};
use crate::recovery::{follows, has_stale, index_of, lemma_no_stale, recover, recovery};
use crate::scan::{scan_page, scan_slot, Found};
use crate::store::{
    free_wf, heap_view, ids_below, index_covers_but, index_points, index_wf,
    indexed, lemma_decoding_row_id, lemma_index_get, lemma_pages_get, live_at, loc_of, pages_wf,
    payload_at, row_id_of, rows_of, rows_wf, same_but, TableStore,
};
use crate::types::{column_views, Column, ColumnView, RowId, TupleLoc};

verus! {

broadcast use vstd::std_specs::hash::group_hash_axioms;

/// Whether every live slot of a heap holds a row that the index knows.
#[verifier::opaque]
pub open spec fn index_knows(heap: Seq<Seq<u8>>, index: Map<RowId, TupleLoc>) -> bool {
    forall|p: int, s: int| #[trigger]
        live_at(heap, p, s) ==> index.contains_key(row_id_of(payload_at(heap, p, s)))
}

/// Whether every live slot before slot `sid` of page `pid` is what the
/// index has for the row that it holds.
#[verifier::opaque]
pub open spec fn settled_upto(
    heap: Seq<Seq<u8>>,
    index: Map<RowId, TupleLoc>,
    pid: int,
    sid: int,
) -> bool {
    forall|p: int, s: int| #[trigger]
        live_at(heap, p, s) && (p < pid || (p == pid && s < sid)) ==> indexed(heap, index, p, s)
}

/// Whether `heap2` is `heap` with live slots tombstoned that the index does
/// not point at: it has as many pages; what is live in it was live and has
/// its payload; and what the index points at is live in it if it was.
#[verifier::opaque]
pub open spec fn thinned(heap: Seq<Seq<u8>>, heap2: Seq<Seq<u8>>, index: Map<RowId, TupleLoc>) -> bool {
    &&& heap2.len() == heap.len()
    &&& forall|p: int, s: int| #[trigger]
        live_at(heap2, p, s) ==> live_at(heap, p, s) && payload_at(heap2, p, s) == payload_at(
            heap,
            p,
            s,
        )
    &&& forall|p: int, s: int| #[trigger]
        live_at(heap, p, s) && indexed(heap, index, p, s) ==> live_at(heap2, p, s)
}

/// Whether every slot from slot `sid` of page `pid` on is live in the one
/// heap if it is in the other, and the pages of the two have as many
/// slots.
#[verifier::opaque]
pub open spec fn untouched_from(
    heap: Seq<Seq<u8>>,
    heap2: Seq<Seq<u8>>,
    pid: int,
    sid: int,
) -> bool {
    &&& heap2.len() == heap.len()
    &&& forall|p: int|
        0 <= p < heap.len() ==> record_count(#[trigger] heap2[p]) == record_count(heap[p])
    &&& forall|p: int, s: int|
        #![trigger live_at(heap2, p, s)]
        #![trigger live_at(heap, p, s)]
        (p > pid || (p == pid && s >= sid)) ==> (live_at(heap2, p, s) <==> live_at(heap, p, s))
}

/// Page `pid` of a heap after each of its first `k` slots has been
/// tombstoned that is live and is not what the index has for its row.
pub open spec fn settled_page(
    heap: Seq<Seq<u8>>,
    index: Map<RowId, TupleLoc>,
    pid: int,
    k: nat,
) -> Seq<u8>
    decreases k,
{
    if k == 0 {
        heap[pid]
    } else {
        let before = settled_page(heap, index, pid, (k - 1) as nat);
        if live_at(heap, pid, k - 1) && !indexed(heap, index, pid, k - 1) {
            tombstoned(before, k - 1)
        } else {
            before
        }
    }
}

/// A heap after the slots before slot `sid` of page `pid` have been
/// tombstoned that are live and are not what the index has for their rows.
pub open spec fn settled_heap_upto(
    heap: Seq<Seq<u8>>,
    index: Map<RowId, TupleLoc>,
    pid: int,
    sid: nat,
) -> Seq<Seq<u8>> {
    Seq::new(
        heap.len(),
        |p: int|
            if p < pid {
                settled_page(heap, index, p, record_count(heap[p]) as nat)
            } else if p == pid {
                settled_page(heap, index, p, sid)
            } else {
                heap[p]
            },
    )
}

/// A heap after every live slot has been tombstoned that is not what the
/// index has for its row.
pub open spec fn settled_heap(heap: Seq<Seq<u8>>, index: Map<RowId, TupleLoc>) -> Seq<Seq<u8>> {
    Seq::new(heap.len(), |p: int| settled_page(heap, index, p, record_count(heap[p]) as nat))
}

/// A scan of a page keeps what it had found and finds the row of every live
/// slot.
pub proof fn lemma_scan_page_knows(
    heap: Seq<Seq<u8>>,
    cols: Seq<ColumnView>,
    pid: int,
    k: nat,
    acc: Found,
)
    requires
        0 <= pid < heap.len(),
        page_wf(heap[pid]),
        k <= record_count(heap[pid]),
        scan_page(heap, cols, None, pid, k, acc) is Ok,
    ensures
        forall|r: RowId|
            acc.contains_key(r) ==> #[trigger] scan_page(
                heap,
                cols,
                None,
                pid,
                k,
                acc,
            )->Ok_0.contains_key(r),
        forall|s: int|
            0 <= s < k && #[trigger] live_at(heap, pid, s) ==> scan_page(
                heap,
                cols,
                None,
                pid,
                k,
                acc,
            )->Ok_0.contains_key(row_id_of(payload_at(heap, pid, s))),
    decreases k,
{
    if k > 0 {
        lemma_scan_page_knows(heap, cols, pid, (k - 1) as nat, acc);
        let before = scan_page(heap, cols, None, pid, (k - 1) as nat, acc)->Ok_0;
        let after = scan_page(heap, cols, None, pid, k, acc)->Ok_0;
        assert(scan_slot(heap, cols, None, pid, k - 1, before) == Ok::<
            Found,
            crate::error::RecordError,
        >(after));
        assert forall|r: RowId| before.contains_key(r) implies after.contains_key(r) by {}
        if live_at(heap, pid, k - 1) {
            assert(crate::page::slot_at(heap[pid], k - 1).end() <= crate::page::slot_dir_start(heap[pid]));
            lemma_decoding_row_id(payload_at(heap, pid, k - 1), cols);
            assert(after.contains_key(row_id_of(payload_at(heap, pid, k - 1))));
        }
    }
}

/// Recovery finds the row of every live slot.
pub proof fn lemma_recovery_knows(heap: Seq<Seq<u8>>, cols: Seq<ColumnView>, n: nat)
    requires
        n <= heap.len(),
        recovery(heap, cols, n) is Ok,
    ensures
        forall|p: int, s: int|
            0 <= p < n && #[trigger] live_at(heap, p, s) ==> recovery(
                heap,
                cols,
                n,
            )->Ok_0.contains_key(row_id_of(payload_at(heap, p, s))),
    decreases n,
{
    if n > 0 {
        lemma_recovery_knows(heap, cols, (n - 1) as nat);
        let acc = recovery(heap, cols, (n - 1) as nat)->Ok_0;
        lemma_scan_page_knows(heap, cols, n - 1, record_count(heap[n - 1]) as nat, acc);
    }
}

/// Nothing lies before the first slot, and a heap is itself thinned and
/// untouched.
pub proof fn lemma_settle_start(heap: Seq<Seq<u8>>, index: Map<RowId, TupleLoc>)
    ensures
        settled_upto(heap, index, 0, 0),
        thinned(heap, heap, index),
        untouched_from(heap, heap, 0, 0),
        settled_heap_upto(heap, index, 0, 0) == heap,
{
    reveal(settled_upto);
    reveal(thinned);
    reveal(untouched_from);
    assert(settled_heap_upto(heap, index, 0, 0) =~= heap);
}

/// What is untouched from a slot on is untouched from every later slot on,
/// and a slot that was not touched is live if it was.
pub proof fn lemma_untouched_later(
    heap: Seq<Seq<u8>>,
    heap2: Seq<Seq<u8>>,
    pid: int,
    sid: int,
    pid2: int,
    sid2: int,
)
    requires
        untouched_from(heap, heap2, pid, sid),
        pid < pid2 || (pid == pid2 && sid <= sid2),
    ensures
        untouched_from(heap, heap2, pid2, sid2),
        live_at(heap2, pid, sid) <==> live_at(heap, pid, sid),
        0 <= pid < heap.len() ==> record_count(heap2[pid]) == record_count(heap[pid]),
{
    reveal(untouched_from);
}

/// Tombstoning slot `sid` of page `pid` leaves what comes after it
/// untouched.
pub proof fn lemma_untouched_drop(
    heap0: Seq<Seq<u8>>,
    heap: Seq<Seq<u8>>,
    heap2: Seq<Seq<u8>>,
    pid: int,
    sid: int,
)
    requires
        untouched_from(heap0, heap, pid, sid),
        same_but(heap, heap2, pid, sid),
        0 <= pid < heap.len(),
        heap2 == heap.update(pid, tombstoned(heap[pid], sid)),
        record_count(tombstoned(heap[pid], sid)) == record_count(heap[pid]),
    ensures
        untouched_from(heap0, heap2, pid, sid + 1),
{
    reveal(untouched_from);
    reveal(same_but);
    assert forall|p: int| 0 <= p < heap0.len() implies record_count(#[trigger] heap2[p])
        == record_count(heap0[p]) by {
        assert(record_count(heap[p]) == record_count(heap0[p]));
    }
    assert forall|p: int, s: int|
        #![trigger live_at(heap2, p, s)]
        #![trigger live_at(heap0, p, s)]
        (p > pid || (p == pid && s >= sid + 1)) implies (live_at(heap2, p, s) <==> live_at(
        heap0,
        p,
        s,
    )) by {
        assert(live_at(heap2, p, s) <==> live_at(heap, p, s));
        assert(live_at(heap, p, s) <==> live_at(heap0, p, s));
    }
}

/// One slot more of a heap that is being settled: the page with the slot
/// tombstoned where it is stale, as it is where it is not.
pub proof fn lemma_settled_heap_step(
    heap0: Seq<Seq<u8>>,
    index: Map<RowId, TupleLoc>,
    pid: int,
    sid: nat,
)
    requires
        0 <= pid < heap0.len(),
    ensures
        settled_heap_upto(heap0, index, pid, sid + 1) == if live_at(heap0, pid, sid as int)
            && !indexed(heap0, index, pid, sid as int) {
            settled_heap_upto(heap0, index, pid, sid).update(
                pid,
                tombstoned(settled_heap_upto(heap0, index, pid, sid)[pid], sid as int),
            )
        } else {
            settled_heap_upto(heap0, index, pid, sid)
        },
        sid == record_count(heap0[pid]) ==> settled_heap_upto(heap0, index, pid + 1, 0)
            == settled_heap_upto(heap0, index, pid, sid),
        settled_heap_upto(heap0, index, heap0.len() as int, 0) == settled_heap(heap0, index),
{
    let now = settled_heap_upto(heap0, index, pid, sid);
    let next = settled_heap_upto(heap0, index, pid, sid + 1);
    if live_at(heap0, pid, sid as int) && !indexed(heap0, index, pid, sid as int) {
        assert(next =~= now.update(pid, tombstoned(now[pid], sid as int)));
    } else {
        assert(next =~= now);
    }
    if sid == record_count(heap0[pid]) {
        assert(settled_heap_upto(heap0, index, pid + 1, 0) =~= now);
    }
    assert(settled_heap_upto(heap0, index, heap0.len() as int, 0) =~= settled_heap(heap0, index));
}

/// A slot that is no live slot, or is what the index has for its row,
/// leaves the heap settled up to the next slot.
pub proof fn lemma_settle_skip(heap: Seq<Seq<u8>>, index: Map<RowId, TupleLoc>, pid: int, sid: int)
    requires
        settled_upto(heap, index, pid, sid),
        !live_at(heap, pid, sid) || indexed(heap, index, pid, sid),
    ensures
        settled_upto(heap, index, pid, sid + 1),
{
    reveal(settled_upto);
}

/// A heap that is settled up to the end of a page is settled up to the
/// start of the next.
pub proof fn lemma_settle_page(heap: Seq<Seq<u8>>, index: Map<RowId, TupleLoc>, pid: int, sid: int)
    requires
        settled_upto(heap, index, pid, sid),
        0 <= pid < heap.len() ==> sid >= record_count(heap[pid]),
    ensures
        settled_upto(heap, index, pid + 1, 0),
{
    reveal(settled_upto);
}

/// A heap that is settled up to its end agrees with the index.
pub proof fn lemma_settle_end(heap: Seq<Seq<u8>>, index: Map<RowId, TupleLoc>)
    requires
        index_points(heap, index),
        settled_upto(heap, index, heap.len() as int, 0),
    ensures
        index_wf(heap, index),
{
    reveal(settled_upto);
    reveal(index_covers_but);
}

/// Tombstoning a live slot that is not what the index has for its row
/// leaves what the index points at as it is, and the heap settled up to
/// the next slot. A later version of the row is then live in the heap as it
/// was at first.
pub proof fn lemma_settle_drop(
    heap0: Seq<Seq<u8>>,
    heap: Seq<Seq<u8>>,
    heap2: Seq<Seq<u8>>,
    index: Map<RowId, TupleLoc>,
    pid: int,
    sid: int,
)
    requires
        index_points(heap, index),
        index_knows(heap, index),
        settled_upto(heap, index, pid, sid),
        thinned(heap0, heap, index),
        same_but(heap, heap2, pid, sid),
        live_at(heap, pid, sid),
        !live_at(heap2, pid, sid),
        !indexed(heap, index, pid, sid),
        heap.len() <= u32::MAX,
        sid <= u16::MAX,
    ensures
        index_points(heap2, index),
        index_knows(heap2, index),
        settled_upto(heap2, index, pid, sid + 1),
        thinned(heap0, heap2, index),
        has_stale(heap0),
{
    reveal(index_points);
    reveal(index_knows);
    reveal(settled_upto);
    reveal(thinned);
    reveal(same_but);
    let row_id = row_id_of(payload_at(heap, pid, sid));
    assert(index.contains_key(row_id));
    let loc = index[row_id];
    let p = loc.page_id as int;
    let s = loc.slot_id as int;
    assert(live_at(heap, p, s));
    assert(!(p == pid && s == sid));
    assert forall|r: RowId| #[trigger] index.contains_key(r) implies {
        let at = index[r];
        &&& at == loc_of(at.page_id as int, at.slot_id as int)
        &&& live_at(heap2, at.page_id as int, at.slot_id as int)
        &&& row_id_of(payload_at(heap2, at.page_id as int, at.slot_id as int)) == r
    } by {
        let at = index[r];
        assert(live_at(heap, at.page_id as int, at.slot_id as int));
        if at.page_id as int == pid && at.slot_id as int == sid {
            assert(indexed(heap, index, pid, sid));
        }
    }
    assert forall|q: int, t: int| #[trigger] live_at(heap2, q, t) implies index.contains_key(
        row_id_of(payload_at(heap2, q, t)),
    ) by {
        assert(live_at(heap, q, t));
    }
    assert forall|q: int, t: int| #[trigger]
        live_at(heap2, q, t) && (q < pid || (q == pid && t < sid + 1)) implies indexed(
        heap2,
        index,
        q,
        t,
    ) by {
        assert(live_at(heap, q, t));
        assert(indexed(heap, index, q, t));
    }
    assert forall|q: int, t: int| #[trigger] live_at(heap2, q, t) implies live_at(heap0, q, t)
        && payload_at(heap2, q, t) == payload_at(heap0, q, t) by {
        assert(live_at(heap, q, t));
    }
    assert forall|q: int, t: int| #[trigger]
        live_at(heap0, q, t) && indexed(heap0, index, q, t) implies live_at(heap2, q, t) by {
        assert(live_at(heap, q, t));
        assert(payload_at(heap, q, t) == payload_at(heap0, q, t));
    }
    assert(live_at(heap0, pid, sid) && live_at(heap0, p, s));
    assert(row_id_of(payload_at(heap0, pid, sid)) == row_id_of(payload_at(heap0, p, s)));
}

/// What is live in a thinned heap was live, with the payload that it has.
pub proof fn lemma_thinned_live(
    heap0: Seq<Seq<u8>>,
    heap: Seq<Seq<u8>>,
    index: Map<RowId, TupleLoc>,
    pid: int,
    sid: int,
)
    requires
        thinned(heap0, heap, index),
        live_at(heap, pid, sid),
    ensures
        live_at(heap0, pid, sid),
        payload_at(heap, pid, sid) == payload_at(heap0, pid, sid),
        indexed(heap, index, pid, sid) <==> indexed(heap0, index, pid, sid),
{
    reveal(thinned);
}

/// The rows of an index are in a thinned heap what they were.
pub proof fn lemma_thinned_rows(
    heap0: Seq<Seq<u8>>,
    heap: Seq<Seq<u8>>,
    cols: Seq<ColumnView>,
    index: Map<RowId, TupleLoc>,
)
    requires
        index_points(heap0, index),
        thinned(heap0, heap, index),
    ensures
        rows_of(heap, cols, index) == rows_of(heap0, cols, index),
{
    reveal(index_points);
    reveal(thinned);
    assert forall|r: RowId| index.contains_key(r) implies payload_at(
        heap,
        index[r].page_id as int,
        index[r].slot_id as int,
    ) == payload_at(heap0, index[r].page_id as int, index[r].slot_id as int) by {
        let at = index[r];
        assert(live_at(heap0, at.page_id as int, at.slot_id as int));
        assert(indexed(heap0, index, at.page_id as int, at.slot_id as int));
        assert(live_at(heap, at.page_id as int, at.slot_id as int));
    }
    assert(rows_of(heap, cols, index) =~= rows_of(heap0, cols, index));
}

impl TableStore {
    /// Whether the table is as recovery builds it: well formed, but that a
    /// row may lie in more live slots than the one that the index has for
    /// it.
    pub open spec fn rebuilt(&self) -> bool {
        &&& pages_wf(self.heap())
        &&& rows_wf(self.heap(), self.cols())
        &&& index_points(self.heap(), self.index())
        &&& index_knows(self.heap(), self.index())
        &&& free_wf(self.heap(), self.state.free_space@)
        &&& self.state.next_page_id == self.pages@.len()
        &&& ids_below(self.index(), self.state.next_row_id)
    }

    /// Tombstones every live slot that is not what the index has for its
    /// row, and says whether there was one.
    pub(crate) fn settle(&mut self) -> (mended: bool)
        requires
            old(self).rebuilt(),
        ensures
            final(self).wf(),
            final(self).name == old(self).name,
            final(self).columns == old(self).columns,
            final(self).state == old(self).state,
            final(self).heap() == settled_heap(old(self).heap(), old(self).index()),
            thinned(old(self).heap(), final(self).heap(), old(self).index()),
            final(self).rows() == rows_of(old(self).heap(), old(self).cols(), old(self).index()),
            mended ==> has_stale(old(self).heap()),
            !mended ==> final(self).heap() == old(self).heap(),
    {
        let ghost heap0 = self.heap();
        let ghost index = self.index();
        let n = self.pages.len();
        let mut mended = false;
        let mut pid: usize = 0;
        proof {
            lemma_settle_start(heap0, index);
            lemma_pages_get(heap0, 0);
        }
        while pid < n
            invariant
                pid <= n,
                n == self.pages@.len(),
                n <= u32::MAX,
                self.rebuilt(),
                self.name == old(self).name,
                self.columns == old(self).columns,
                self.state == old(self).state,
                index == old(self).index(),
                heap0 == old(self).heap(),
                settled_upto(self.heap(), index, pid as int, 0),
                thinned(heap0, self.heap(), index),
                untouched_from(heap0, self.heap(), pid as int, 0),
                self.heap() == settled_heap_upto(heap0, index, pid as int, 0),
                mended ==> has_stale(heap0),
                !mended ==> self.heap() == heap0,
            decreases n - pid,
        {
            proof {
                lemma_pages_get(self.heap(), pid as int);
                lemma_untouched_later(heap0, self.heap(), pid as int, 0, pid as int, 0);
            }
            let count = page_record_count(self.pages[pid].as_slice());
            let mut sid: u16 = 0;
            while sid < count
                invariant
                    pid < n,
                    n == self.pages@.len(),
                    n <= u32::MAX,
                    sid <= count,
                    count == record_count(self.heap()[pid as int]),
                    count == record_count(heap0[pid as int]),
                    heap0.len() == n,
                    untouched_from(heap0, self.heap(), pid as int, sid as int),
                    self.heap() == settled_heap_upto(heap0, index, pid as int, sid as nat),
                    self.rebuilt(),
                    self.name == old(self).name,
                    self.columns == old(self).columns,
                    self.state == old(self).state,
                    index == old(self).index(),
                    heap0 == old(self).heap(),
                    settled_upto(self.heap(), index, pid as int, sid as int),
                    thinned(heap0, self.heap(), index),
                    mended ==> has_stale(heap0),
                    !mended ==> self.heap() == heap0,
                decreases count - sid,
            {
                let ghost heap = self.heap();
                let stale = match self.row_at(pid as u32, sid) {
                    Some(row_id) => match self.state.row_index.get(&row_id) {
                        Some(loc) => !(loc.page_id == pid as u32 && loc.slot_id == sid),
                        None => true,
                    },
                    None => false,
                };
                proof {
                    lemma_untouched_later(heap0, heap, pid as int, sid as int, pid as int, sid + 1);
                    lemma_settled_heap_step(heap0, index, pid as int, sid as nat);
                    if live_at(heap, pid as int, sid as int) {
                        let row_id = row_id_of(payload_at(heap, pid as int, sid as int));
                        assert(index.contains_key(row_id)) by {
                            reveal(index_knows);
                        }
                        lemma_index_get(heap, index, row_id);
                        assert(stale == !indexed(heap, index, pid as int, sid as int));
                        lemma_thinned_live(heap0, heap, index, pid as int, sid as int);
                    }
                    assert(stale == (live_at(heap0, pid as int, sid as int) && !indexed(
                        heap0,
                        index,
                        pid as int,
                        sid as int,
                    )));
                }
                if stale {
                    self.retire(pid as u32, sid);
                    proof {
                        lemma_settle_drop(heap0, heap, self.heap(), index, pid as int, sid as int);
                        lemma_pages_get(heap, pid as int);
                        crate::store::lemma_tombstone_drops_slot(heap[pid as int], sid as int);
                        lemma_untouched_drop(heap0, heap, self.heap(), pid as int, sid as int);
                    }
                    mended = true;
                } else {
                    proof {
                        lemma_settle_skip(heap, index, pid as int, sid as int);
                    }
                }
                sid += 1;
            }
            proof {
                lemma_settle_page(self.heap(), index, pid as int, sid as int);
                lemma_untouched_later(heap0, self.heap(), pid as int, sid as int, pid + 1, 0);
                lemma_settled_heap_step(heap0, index, pid as int, sid as nat);
            }
            pid += 1;
        }
        proof {
            lemma_settle_end(self.heap(), index);
            lemma_thinned_rows(heap0, self.heap(), self.cols(), index);
            if n > 0 {
                lemma_settled_heap_step(heap0, index, 0, 0);
            } else {
                assert(settled_heap_upto(heap0, index, 0, 0) =~= settled_heap(heap0, index));
            }
        }
        mended
    }
}

/// Rebuilds a table from its schema and the pages of its heap as `recover`
/// does, and then tombstones every version of a row that a later version
/// has superseded, so that the table is well formed: its index has for each
/// row the last live slot that held it, its rows are what the given pages
/// hold there, and no other slot is live. With the table comes whether
/// anything was tombstoned; the pages are as they were given where nothing
/// was. The errors are those of `recover`.
pub fn reopen(name: String, columns: Vec<Column>, pages: Vec<Vec<u8>>) -> (done: Result<
    (TableStore, bool),
    CatalogError,
>)
    ensures
        match done {
            Ok((store, mended)) => {
                let heap0 = heap_view(pages@);
                let cols = column_views(columns@);
                &&& store.name == name
                &&& store.columns == columns
                &&& store.wf()
                &&& pages@.len() <= u32::MAX
                &&& recovery(heap0, cols, pages@.len()) is Ok
                &&& index_of(store.index(), recovery(heap0, cols, pages@.len())->Ok_0)
                &&& store.rows() == rows_of(heap0, cols, store.index())
                &&& store.heap() == settled_heap(heap0, store.index())
                &&& thinned(heap0, store.heap(), store.index())
                &&& follows(heap0, store.state.next_row_id)
                &&& mended <==> has_stale(heap0)
                &&& !mended ==> store.heap() == heap0
            },
            Err(e) => if pages@.len() > u32::MAX {
                e == CatalogError::Page(PageError::CorruptPage)
            } else {
                recovery(heap_view(pages@), column_views(columns@), pages@.len()) == Err::<
                    Found,
                    CatalogError,
                >(e)
            },
        },
{
    let ghost heap0 = heap_view(pages@);
    let ghost cols = column_views(columns@);
    match recover(name, columns, pages) {
        Ok((store, single)) => {
            let mut store = store;
            let ghost index = store.index();
            proof {
                assert(store.heap() == heap0);
                assert(store.cols() == cols);
                lemma_recovery_knows(heap0, cols, heap0.len());
                assert(index_knows(heap0, index)) by {
                    reveal(index_knows);
                }
            }
            let mended = store.settle();
            proof {
                if !mended {
                    lemma_pages_get(heap0, 0);
                    lemma_no_stale(heap0, index);
                }
            }
            Ok((store, mended))
        },
        Err(e) => Err(e),
    }
}

} // verus!
