//! Reading a heap front to back: for each row the version in the last live
//! slot that holds it.

use std::collections::HashMap;
use vstd::prelude::*;
use vstd::slice::*;
use vstd::std_specs::hash::*;
use crate::ast::Condition;
use crate::error::{CatalogError, PageError, RecordError};
use crate::page::{
    is_page, iter_slots, page_wf, record_count, slot_at, slot_payload, Slot, };
use crate::record::{holds, Record};
use crate::record_codec::{deserialize_record_for_page, entries_from, record_decoding};
use crate::store::{
    heap_view, index_wf, lemma_decoding_row_id, lemma_index_get, lemma_index_has, lemma_pages_get, lemma_rows_get,
    live_at, loc_of, pages_wf, payload_at, row_id_of, rows_wf, TableStore, HEAP_SEGMENT,
};
use crate::types::{column_views, Column, ColumnView, RowId, TupleLoc};
use crate::value::ValueView;

verus! {

broadcast use vstd::std_specs::hash::group_hash_axioms;

/// One row that a scan found: where its version lies, its identifier, and
/// the record read from the payload.
#[derive(Debug)]
pub struct ScanRow {
    pub loc: TupleLoc,
    pub row_id: RowId,
    pub record: Record,
}

/// What a scan has found: for each row the place of its version and the
/// values of that version, in schema order.
pub type Found = Map<RowId, (TupleLoc, Seq<ValueView>)>;

/// Whether a row with the given values passes a `WHERE` clause; every row
/// passes where there is none.
pub open spec fn passes(cols: Seq<ColumnView>, values: Seq<ValueView>, clause: Option<Condition>) -> bool {
    match clause {
        None => true,
        Some(condition) => holds(entries_from(cols, values, cols.len()), condition),
    }
}

/// What a scan has found after slot `sid` of page `pid`, having found `acc`
/// before it. A tombstone and a slot that points outside the page are
/// passed over; a live payload that cannot be read ends the scan; a row
/// that passes the clause takes the place of what was found for it before.
pub open spec fn scan_slot(
    heap: Seq<Seq<u8>>,
    cols: Seq<ColumnView>,
    clause: Option<Condition>,
    pid: int,
    sid: int,
    acc: Found,
) -> Result<Found, RecordError> {
    let slot = slot_at(heap[pid], sid);
    if !slot.live() || slot.end() > heap[pid].len() {
        Ok(acc)
    } else {
        match record_decoding(slot_payload(heap[pid], slot), cols) {
            Err(e) => Err(e),
            Ok((row_id, values)) => if passes(cols, values, clause) {
                Ok(acc.insert(row_id, (loc_of(pid, sid), values)))
            } else {
                Ok(acc)
            },
        }
    }
}

/// What a scan has found after the first `k` slots of page `pid`, having
/// found `acc` before the page.
pub open spec fn scan_page(
    heap: Seq<Seq<u8>>,
    cols: Seq<ColumnView>,
    clause: Option<Condition>,
    pid: int,
    k: nat,
    acc: Found,
) -> Result<Found, RecordError>
    decreases k,
{
    if k == 0 {
        Ok(acc)
    } else {
        match scan_page(heap, cols, clause, pid, (k - 1) as nat, acc) {
            Err(e) => Err(e),
            Ok(found) => scan_slot(heap, cols, clause, pid, k - 1, found),
        }
    }
}

/// What a scan has found after the first `n` pages of a heap: for each row
/// that passes the clause, the last live version that does. A buffer that
/// cannot be read as a page ends the scan with `Page(CorruptPage)`, a live
/// payload that cannot be read with `Record(..)`.
pub open spec fn scan_heap(
    heap: Seq<Seq<u8>>,
    cols: Seq<ColumnView>,
    clause: Option<Condition>,
    n: nat,
) -> Result<Found, CatalogError>
    decreases n,
{
    if n == 0 {
        Ok(Map::<RowId, (TupleLoc, Seq<ValueView>)>::empty())
    } else {
        match scan_heap(heap, cols, clause, (n - 1) as nat) {
            Err(e) => Err(e),
            Ok(acc) => if !is_page(heap[n - 1]) {
                Err(CatalogError::Page(PageError::CorruptPage))
            } else {
                match scan_page(
                    heap,
                    cols,
                    clause,
                    n - 1,
                    record_count(heap[n - 1]) as nat,
                    acc,
                ) {
                    Err(e) => Err(CatalogError::Record(e)),
                    Ok(found) => Ok(found),
                }
            },
        }
    }
}

/// Once a scan of a page has failed, scanning more of its slots fails the
/// same way.
pub proof fn lemma_scan_page_error_stays(
    heap: Seq<Seq<u8>>,
    cols: Seq<ColumnView>,
    clause: Option<Condition>,
    pid: int,
    failed: nat,
    k: nat,
    acc: Found,
)
    requires
        failed <= k,
        scan_page(heap, cols, clause, pid, failed, acc) is Err,
    ensures
        scan_page(heap, cols, clause, pid, k, acc) == scan_page(heap, cols, clause, pid, failed, acc),
    decreases k,
{
    if failed < k {
        lemma_scan_page_error_stays(heap, cols, clause, pid, failed, (k - 1) as nat, acc);
    }
}

/// Once a scan of a heap has failed, scanning more of its pages fails the
/// same way.
pub proof fn lemma_scan_heap_error_stays(
    heap: Seq<Seq<u8>>,
    cols: Seq<ColumnView>,
    clause: Option<Condition>,
    failed: nat,
    n: nat,
)
    requires
        failed <= n,
        scan_heap(heap, cols, clause, failed) is Err,
    ensures
        scan_heap(heap, cols, clause, n) == scan_heap(heap, cols, clause, failed),
    decreases n,
{
    if failed < n {
        lemma_scan_heap_error_stays(heap, cols, clause, failed, (n - 1) as nat);
    }
}

/// Whether a list of rows is what a scan has found: each row of the list is
/// a row that was found, with its place, its identifier and a record of its
/// values; each row that was found is in the list; and it is there once.
pub open spec fn lists(rows: Seq<ScanRow>, found: Found, cols: Seq<ColumnView>) -> bool {
    &&& forall|i: int|
        0 <= i < rows.len() ==> found.contains_key((#[trigger] rows[i]).row_id) && found[rows[i].row_id].0
            == rows[i].loc && rows[i].record.id == rows[i].row_id && rows[i].record.entries()
            == entries_from(cols, found[rows[i].row_id].1, cols.len())
    &&& forall|r: RowId|
        found.contains_key(r) ==> exists|i: int| 0 <= i < rows.len() && (#[trigger] rows[i]).row_id == r
    &&& forall|i: int, j: int|
        0 <= i < j < rows.len() ==> (#[trigger] rows[i]).row_id != (#[trigger] rows[j]).row_id
}

/// Whether `seen` says for each row that was found where it stands in the
/// list.
pub open spec fn places(seen: Map<RowId, usize>, rows: Seq<ScanRow>, found: Found) -> bool {
    &&& forall|r: RowId| #[trigger] seen.contains_key(r) <==> found.contains_key(r)
    &&& forall|r: RowId| #[trigger]
        seen.contains_key(r) ==> seen[r] < rows.len() && rows[seen[r] as int].row_id == r
    &&& forall|i: int|
        0 <= i < rows.len() ==> seen.contains_key((#[trigger] rows[i]).row_id) && seen[rows[i].row_id]
            == i
}

/// Takes one row that passes into the list of what a scan has found.
fn take_row(
    rows: &mut Vec<ScanRow>,
    seen: &mut HashMap<RowId, usize>,
    row: ScanRow,
    Ghost(found): Ghost<Found>,
    Ghost(cols): Ghost<Seq<ColumnView>>,
    Ghost(values): Ghost<Seq<ValueView>>,
)
    requires
        row.record.id == row.row_id,
        lists(old(rows)@, found, cols),
        places(old(seen)@, old(rows)@, found),
        row.record.entries() == entries_from(cols, values, cols.len()),
    ensures
        lists(final(rows)@, found.insert(row.row_id, (row.loc, values)), cols),
        places(final(seen)@, final(rows)@, found.insert(row.row_id, (row.loc, values))),
{
    let ghost row_id = row.row_id;
    let ghost loc = row.loc;
    let ghost entries = row.record.entries();
    let at = match seen.get(&row.row_id) {
        Some(at) => Some(*at),
        None => None,
    };
    match at {
        Some(at) => {
            if at < rows.len() {
                rows.set(at, row);
            }
        },
        None => {
            let at = rows.len();
            seen.insert(row.row_id, at);
            rows.push(row);
        },
    }
    proof {
        let found2 = found.insert(row_id, (loc, values));
        if old(seen)@.contains_key(row_id) {
            let k = old(seen)@[row_id] as int;
            assert(rows@ == old(rows)@.update(k, rows@[k]));
            assert forall|i: int| 0 <= i < rows@.len() implies found2.contains_key(
                (#[trigger] rows@[i]).row_id,
            ) && found2[rows@[i].row_id].0 == rows@[i].loc && rows@[i].record.id == rows@[i].row_id
                && rows@[i].record.entries() == entries_from(
                cols,
                found2[rows@[i].row_id].1,
                cols.len(),
            ) by {
                if i != k {
                    assert(rows@[i] == old(rows)@[i]);
                    assert(old(rows)@[i].row_id != old(rows)@[k].row_id);
                }
            }
            assert forall|r: RowId| found2.contains_key(r) implies exists|i: int|
                0 <= i < rows@.len() && (#[trigger] rows@[i]).row_id == r by {
                if r == row_id {
                    assert(rows@[k].row_id == r);
                } else {
                    let i = choose|i: int|
                        0 <= i < old(rows)@.len() && (#[trigger] old(rows)@[i]).row_id == r;
                    assert(rows@[i].row_id == r);
                }
            }
            assert forall|i: int, j: int| 0 <= i < j < rows@.len() implies (#[trigger] rows@[i]).row_id
                != (#[trigger] rows@[j]).row_id by {
                assert(rows@[i].row_id == old(rows)@[i].row_id);
                assert(rows@[j].row_id == old(rows)@[j].row_id);
            }
            assert forall|i: int| 0 <= i < rows@.len() implies seen@.contains_key(
                (#[trigger] rows@[i]).row_id,
            ) && seen@[rows@[i].row_id] == i by {
                assert(rows@[i].row_id == old(rows)@[i].row_id);
            }
        } else {
            let k = old(rows)@.len() as int;
            assert(rows@ == old(rows)@.push(rows@[k]));
            assert forall|i: int| 0 <= i < rows@.len() implies found2.contains_key(
                (#[trigger] rows@[i]).row_id,
            ) && found2[rows@[i].row_id].0 == rows@[i].loc && rows@[i].record.id == rows@[i].row_id
                && rows@[i].record.entries() == entries_from(
                cols,
                found2[rows@[i].row_id].1,
                cols.len(),
            ) by {
                if i != k {
                    assert(rows@[i] == old(rows)@[i]);
                    assert(found.contains_key(old(rows)@[i].row_id));
                }
            }
            assert forall|r: RowId| found2.contains_key(r) implies exists|i: int|
                0 <= i < rows@.len() && (#[trigger] rows@[i]).row_id == r by {
                if r == row_id {
                    assert(rows@[k].row_id == r);
                } else {
                    let i = choose|i: int|
                        0 <= i < old(rows)@.len() && (#[trigger] old(rows)@[i]).row_id == r;
                    assert(rows@[i].row_id == r);
                }
            }
            assert forall|i: int, j: int| 0 <= i < j < rows@.len() implies (#[trigger] rows@[i]).row_id
                != (#[trigger] rows@[j]).row_id by {
                assert(rows@[i] == old(rows)@[i]);
                if j != k {
                    assert(rows@[j] == old(rows)@[j]);
                } else {
                    assert(found.contains_key(old(rows)@[i].row_id));
                }
            }
            assert forall|i: int| 0 <= i < rows@.len() implies seen@.contains_key(
                (#[trigger] rows@[i]).row_id,
            ) && seen@[rows@[i].row_id] == i by {
                if i != k {
                    assert(rows@[i] == old(rows)@[i]);
                    assert(found.contains_key(old(rows)@[i].row_id));
                }
            }
        }
    }
}

/// The clause that a scan is given, as a value.
pub open spec fn clause_of(where_clause: Option<&Condition>) -> Option<Condition> {
    match where_clause {
        Some(condition) => Some(*condition),
        None => None,
    }
}

/// Reads the pages of a heap front to back and gives, for each row that
/// passes the clause, the last live version that does: its place, its
/// identifier, and the record read from its payload. The rows come in the
/// order in which their first version was met. Tombstones are passed over.
/// `Page(CorruptPage)` for a buffer that cannot be read as a page,
/// `Record(..)` for a live payload that cannot be read under the schema.
#[verifier::loop_isolation(false)]
pub fn scan_pages(columns: &[Column], pages: &Vec<Vec<u8>>, where_clause: Option<&Condition>) -> (done:
    Result<Vec<ScanRow>, CatalogError>)
    ensures
        match done {
            Ok(rows) => scan_heap(
                heap_view(pages@),
                column_views(columns@),
                clause_of(where_clause),
                pages@.len(),
            ) is Ok && lists(
                rows@,
                scan_heap(
                    heap_view(pages@),
                    column_views(columns@),
                    clause_of(where_clause),
                    pages@.len(),
                )->Ok_0,
                column_views(columns@),
            ),
            Err(e) => scan_heap(
                heap_view(pages@),
                column_views(columns@),
                clause_of(where_clause),
                pages@.len(),
            ) == Err::<Found, CatalogError>(e),
        },
{
    let ghost heap = heap_view(pages@);
    let ghost cols = column_views(columns@);
    let ghost clause = clause_of(where_clause);
    let n = pages.len();
    let mut rows: Vec<ScanRow> = Vec::new();
    let mut seen: HashMap<RowId, usize> = HashMap::new();
    let ghost mut found: Found = Map::empty();
    let mut pid: usize = 0;
    while pid < n
        invariant
            pid <= n,
            scan_heap(heap, cols, clause, pid as nat) == Ok::<Found, CatalogError>(found),
            lists(rows@, found, cols),
            places(seen@, rows@, found),
        decreases n - pid,
    {
        let page = pages[pid].as_slice();
        assert(heap[pid as int] == page@);
        let slots = match iter_slots(page) {
            Ok(slots) => slots,
            Err(e) => {
                proof {
                    lemma_scan_heap_error_stays(heap, cols, clause, (pid + 1) as nat, n as nat);
                }
                return Err(CatalogError::Page(e));
            },
        };
        let ghost before = found;
        let count = slots.len();
        let mut sid: usize = 0;
        while sid < count
            invariant
                sid <= count,
                count == record_count(page@),
                scan_page(heap, cols, clause, pid as int, sid as nat, before) == Ok::<
                    Found,
                    RecordError,
                >(found),
                lists(rows@, found, cols),
                places(seen@, rows@, found),
            decreases count - sid,
        {
            let (off, len, flags) = slots[sid];
            let start = off as usize;
            let end = start + len as usize;
            assert(slot_at(page@, sid as int) == (Slot { off, len, flags }));
            if flags == 0 && end <= page.len() {
                let payload = slice_subrange(page, start, end);
                match deserialize_record_for_page(payload, columns) {
                    Ok((row_id, record)) => {
                        let keep = match where_clause {
                            Some(condition) => record.evaluate_condition(condition),
                            None => true,
                        };
                        if keep {
                            let ghost values = record_decoding(payload@, cols)->Ok_0.1;
                            let loc = TupleLoc {
                                seg: HEAP_SEGMENT,
                                page_id: pid as u32,
                                slot_id: sid as u16,
                                flags: 0,
                            };
                            take_row(
                                &mut rows,
                                &mut seen,
                                ScanRow { loc, row_id, record },
                                Ghost(found),
                                Ghost(cols),
                                Ghost(values),
                            );
                            proof {
                                found = found.insert(row_id, (loc, values));
                            }
                        }
                    },
                    Err(e) => {
                        proof {
                            lemma_scan_page_error_stays(
                                heap,
                                cols,
                                clause,
                                pid as int,
                                (sid + 1) as nat,
                                count as nat,
                                before,
                            );
                            lemma_scan_heap_error_stays(
                                heap,
                                cols,
                                clause,
                                (pid + 1) as nat,
                                n as nat,
                            );
                        }
                        return Err(CatalogError::Record(e));
                    },
                }
            }
            sid += 1;
        }
        pid += 1;
    }
    Ok(rows)
}

/// Whether a location comes before slot `sid` of page `pid` in a scan.
pub open spec fn comes_before(loc: TupleLoc, pid: int, sid: int) -> bool {
    loc.page_id < pid || (loc.page_id == pid && loc.slot_id < sid)
}

/// The values of the version of a row that lies at a location.
pub open spec fn values_at(heap: Seq<Seq<u8>>, cols: Seq<ColumnView>, loc: TupleLoc) -> Seq<
    ValueView,
> {
    record_decoding(payload_at(heap, loc.page_id as int, loc.slot_id as int), cols)->Ok_0.1
}

/// The rows of an index that pass a clause and lie before slot `sid` of
/// page `pid`, each with its place and its values.
pub open spec fn live_rows_upto(
    heap: Seq<Seq<u8>>,
    cols: Seq<ColumnView>,
    index: Map<RowId, TupleLoc>,
    clause: Option<Condition>,
    pid: int,
    sid: int,
) -> Found {
    Map::new(
        |r: RowId|
            index.contains_key(r) && comes_before(index[r], pid, sid) && passes(
                cols,
                values_at(heap, cols, index[r]),
                clause,
            ),
        |r: RowId| (index[r], values_at(heap, cols, index[r])),
    )
}

/// The rows of an index that pass a clause, each with its place and its
/// values.
pub open spec fn live_rows(
    heap: Seq<Seq<u8>>,
    cols: Seq<ColumnView>,
    index: Map<RowId, TupleLoc>,
    clause: Option<Condition>,
) -> Found {
    Map::new(
        |r: RowId| index.contains_key(r) && passes(cols, values_at(heap, cols, index[r]), clause),
        |r: RowId| (index[r], values_at(heap, cols, index[r])),
    )
}

/// In a well-formed heap a scan that has found the live rows before a slot
/// has after it found the live rows before the next slot.
pub proof fn lemma_scan_slot_finds(
    heap: Seq<Seq<u8>>,
    cols: Seq<ColumnView>,
    index: Map<RowId, TupleLoc>,
    clause: Option<Condition>,
    pid: int,
    sid: int,
)
    requires
        pages_wf(heap),
        rows_wf(heap, cols),
        index_wf(heap, index),
        0 <= pid < heap.len(),
        0 <= sid < record_count(heap[pid]),
    ensures
        scan_slot(heap, cols, clause, pid, sid, live_rows_upto(heap, cols, index, clause, pid, sid))
            == Ok::<Found, RecordError>(live_rows_upto(heap, cols, index, clause, pid, sid + 1)),
{
    let acc = live_rows_upto(heap, cols, index, clause, pid, sid);
    let next = live_rows_upto(heap, cols, index, clause, pid, sid + 1);
    let slot = slot_at(heap[pid], sid);
    lemma_pages_get(heap, pid);
    assert(page_wf(heap[pid]));
    assert(slot.end() <= heap[pid].len());
    assert forall|r: RowId| #[trigger] index.contains_key(r) implies index[r] == loc_of(
        index[r].page_id as int,
        index[r].slot_id as int,
    ) && live_at(heap, index[r].page_id as int, index[r].slot_id as int) && row_id_of(
        payload_at(heap, index[r].page_id as int, index[r].slot_id as int),
    ) == r by {
        lemma_index_get(heap, index, r);
    }
    if !slot.live() {
        assert(acc =~= next);
    } else {
        assert(live_at(heap, pid, sid));
        lemma_rows_get(heap, cols, pid, sid);
        lemma_decoding_row_id(payload_at(heap, pid, sid), cols);
        lemma_index_has(heap, index, pid, sid);
        let rid = row_id_of(payload_at(heap, pid, sid));
        let values = record_decoding(payload_at(heap, pid, sid), cols)->Ok_0.1;
        assert(record_decoding(payload_at(heap, pid, sid), cols)->Ok_0 == (rid, values));
        assert(index[rid] == loc_of(pid, sid));
        assert(values_at(heap, cols, index[rid]) == values);
        if passes(cols, values, clause) {
            assert(acc.insert(rid, (loc_of(pid, sid), values)) =~= next);
        } else {
            assert(acc =~= next);
        }
    }
}

/// In a well-formed heap a scan that has found the live rows before a page
/// has after `k` slots of the page found the live rows before the slot that
/// comes then.
pub proof fn lemma_scan_page_finds(
    heap: Seq<Seq<u8>>,
    cols: Seq<ColumnView>,
    index: Map<RowId, TupleLoc>,
    clause: Option<Condition>,
    pid: int,
    k: nat,
)
    requires
        pages_wf(heap),
        rows_wf(heap, cols),
        index_wf(heap, index),
        0 <= pid < heap.len(),
        k <= record_count(heap[pid]),
    ensures
        scan_page(
            heap,
            cols,
            clause,
            pid,
            k,
            live_rows_upto(heap, cols, index, clause, pid, 0),
        ) == Ok::<Found, RecordError>(live_rows_upto(heap, cols, index, clause, pid, k as int)),
    decreases k,
{
    if k > 0 {
        lemma_scan_page_finds(heap, cols, index, clause, pid, (k - 1) as nat);
        lemma_scan_slot_finds(heap, cols, index, clause, pid, k - 1);
    }
}

/// In a well-formed heap a scan has after `n` pages found the live rows of
/// those pages.
pub proof fn lemma_scan_heap_finds(
    heap: Seq<Seq<u8>>,
    cols: Seq<ColumnView>,
    index: Map<RowId, TupleLoc>,
    clause: Option<Condition>,
    n: nat,
)
    requires
        pages_wf(heap),
        rows_wf(heap, cols),
        index_wf(heap, index),
        n <= heap.len(),
    ensures
        scan_heap(heap, cols, clause, n) == Ok::<Found, CatalogError>(
            live_rows_upto(heap, cols, index, clause, n as int, 0),
        ),
    decreases n,
{
    if n == 0 {
        assert(live_rows_upto(heap, cols, index, clause, 0, 0) =~= Map::<
            RowId,
            (TupleLoc, Seq<ValueView>),
        >::empty());
    } else {
        let pid = n - 1;
        lemma_scan_heap_finds(heap, cols, index, clause, (n - 1) as nat);
        lemma_pages_get(heap, pid);
        lemma_scan_page_finds(heap, cols, index, clause, pid, record_count(heap[pid]) as nat);
        assert forall|r: RowId| #[trigger] index.contains_key(r) implies live_at(
            heap,
            index[r].page_id as int,
            index[r].slot_id as int,
        ) by {
            lemma_index_get(heap, index, r);
        }
        assert(live_rows_upto(heap, cols, index, clause, pid, record_count(heap[pid]))
            =~= live_rows_upto(heap, cols, index, clause, n as int, 0));
    }
}

/// A scan of a well-formed table finds exactly its live rows that pass the
/// clause: each once, at the place where the index has it, with the values
/// of its live version. Tombstoned and superseded versions are not found.
pub proof fn lemma_scan_finds_live_rows(store: TableStore, clause: Option<Condition>)
    requires
        store.wf(),
    ensures
        scan_heap(store.heap(), store.cols(), clause, store.heap().len()) == Ok::<
            Found,
            CatalogError,
        >(live_rows(store.heap(), store.cols(), store.index(), clause)),
        clause is None ==> live_rows(store.heap(), store.cols(), store.index(), clause).dom()
            == store.rows().dom(),
        forall|r: RowId| #[trigger]
            live_rows(store.heap(), store.cols(), store.index(), clause).contains_key(r)
                ==> store.rows().contains_key(r) && live_rows(
                store.heap(),
                store.cols(),
                store.index(),
                clause,
            )[r] == (store.index()[r], store.rows()[r]),
{
    let heap = store.heap();
    let cols = store.cols();
    let index = store.index();
    lemma_scan_heap_finds(heap, cols, index, clause, heap.len());
    assert forall|r: RowId| #[trigger] index.contains_key(r) implies live_at(
        heap,
        index[r].page_id as int,
        index[r].slot_id as int,
    ) by {
        lemma_index_get(heap, index, r);
    }
    assert(live_rows_upto(heap, cols, index, clause, heap.len() as int, 0) =~= live_rows(
        heap,
        cols,
        index,
        clause,
    ));
    if clause is None {
        assert(live_rows(heap, cols, index, clause).dom() =~= store.rows().dom());
    }
}

impl TableStore {
    /// Reads the table front to back and gives the rows that pass the
    /// clause, each once, with the last live version that passes. Of a
    /// well-formed table these are its live rows that pass.
    pub fn scan(&self, where_clause: Option<&Condition>) -> (done: Result<
        Vec<ScanRow>,
        CatalogError,
    >)
        ensures
            match done {
                Ok(rows) => scan_heap(
                    self.heap(),
                    self.cols(),
                    clause_of(where_clause),
                    self.heap().len(),
                ) is Ok && lists(
                    rows@,
                    scan_heap(
                        self.heap(),
                        self.cols(),
                        clause_of(where_clause),
                        self.heap().len(),
                    )->Ok_0,
                    self.cols(),
                ),
                Err(e) => scan_heap(
                    self.heap(),
                    self.cols(),
                    clause_of(where_clause),
                    self.heap().len(),
                ) == Err::<Found, CatalogError>(e),
            },
            self.wf() ==> done is Ok && lists(
                done->Ok_0@,
                live_rows(self.heap(), self.cols(), self.index(), clause_of(where_clause)),
                self.cols(),
            ),
    {
        proof {
            if self.wf() {
                lemma_scan_finds_live_rows(*self, clause_of(where_clause));
            }
        }
        scan_pages(self.columns.as_slice(), &self.pages, where_clause)
    }
}

} // verus!
