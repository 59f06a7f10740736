//! Records held in memory: a page that keeps its records by identifier with
//! an estimate of the room they take.

use std::collections::HashMap;
use vstd::prelude::*;
use vstd::std_specs::hash::*;
use vstd::std_specs::iter::IteratorSpec;
use vstd::bytes::{lemma_auto_spec_u32_to_from_le_bytes, spec_u32_to_le_bytes, u32_to_le_bytes};
use crate::error::{CatalogError, PageError, RecordError};
use crate::le::{splice, write_at};
use crate::page::{
    appended, free_bytes, fresh_page, is_page, lemma_append, lemma_fresh_page, new_page,
    page_append, page_wf, record_count, slot_at, slot_payload, slot_pos, HEADER_LEN, PAGE_SIZE,
    SLOT_LEN,
};
use crate::record::Record;
use crate::record_codec::{record_payload, serialize_record_for_page};
use crate::types::{column_views, Column, ColumnView};

verus! {

broadcast use vstd::std_specs::hash::group_hash_axioms;

/// The bytes that a record is taken to need for its identifier and its
/// timestamp together.
pub const RECORD_OVERHEAD: usize = 16;

/// The bytes that each named value of a record is taken to need.
pub const ENTRY_SIZE: usize = 56;

/// The bytes that a record with so many named values is taken to need.
pub open spec fn record_size(entries: nat) -> nat {
    RECORD_OVERHEAD as nat + entries * ENTRY_SIZE as nat
}

/// The bytes that a record is taken to need.
pub open spec fn footprint(record: Record) -> nat {
    record_size(record.data@.len())
}

/// The bytes that the records of a map are taken to need together.
pub open spec fn held(records: Map<u64, Record>) -> nat
    decreases records.dom().len(),
    when records.dom().finite()
    via held_decreases
{
    if records.dom().len() == 0 {
        0
    } else {
        let id = records.dom().choose();
        footprint(records[id]) + held(records.remove(id))
    }
}

#[via_fn]
proof fn held_decreases(records: Map<u64, Record>) {
    if records.dom().len() != 0 {
        let id = records.dom().choose();
        assert(records.dom().contains(id)) by {
            if records.dom() =~= Set::<u64>::empty() {
                assert(records.dom().len() == 0);
            }
        }
        assert(records.remove(id).dom() =~= records.dom().remove(id));
    }
}

/// Any record of a map can be counted first.
pub proof fn lemma_held_remove(records: Map<u64, Record>, id: u64)
    requires
        records.dom().finite(),
        records.contains_key(id),
    ensures
        held(records) == footprint(records[id]) + held(records.remove(id)),
    decreases records.dom().len(),
{
    let first = records.dom().choose();
    assert(records.dom().len() != 0) by {
        if records.dom().len() == 0 {
            assert(records.dom() =~= Set::<u64>::empty());
        }
    }
    assert(records.dom().contains(first));
    if first != id {
        let rest = records.remove(first);
        let other = records.remove(id);
        assert(rest.dom() =~= records.dom().remove(first));
        assert(other.dom() =~= records.dom().remove(id));
        lemma_held_remove(rest, id);
        lemma_held_remove(other, first);
        assert(rest.remove(id) =~= other.remove(first));
    }
}

/// A record that is put into a map is counted in place of the one that the
/// map had under its identifier.
pub proof fn lemma_held_insert(records: Map<u64, Record>, id: u64, record: Record)
    requires
        records.dom().finite(),
    ensures
        held(records.insert(id, record)) + (if records.contains_key(id) {
            footprint(records[id])
        } else {
            0
        }) == held(records) + footprint(record),
{
    let after = records.insert(id, record);
    lemma_held_remove(after, id);
    if records.contains_key(id) {
        lemma_held_remove(records, id);
        assert(after.remove(id) =~= records.remove(id));
    } else {
        assert(after.remove(id) =~= records);
    }
}

/// Whether `ids` lists the identifiers of `dom`, each once, in ascending
/// order.
pub open spec fn in_order(ids: Seq<u64>, dom: Set<u64>) -> bool {
    &&& ids.no_duplicates()
    &&& ids.to_set() == dom
    &&& forall|i: int, j: int| 0 <= i < j < ids.len() ==> ids[i] <= ids[j]
}

/// The identifiers of `dom` in ascending order.
pub open spec fn ascending_ids(dom: Set<u64>) -> Seq<u64> {
    choose|ids: Seq<u64>| in_order(ids, dom)
}

/// A set of identifiers has one ascending list at most.
pub proof fn lemma_in_order_unique(a: Seq<u64>, b: Seq<u64>, dom: Set<u64>)
    requires
        in_order(a, dom),
        in_order(b, dom),
    ensures
        a == b,
    decreases a.len(),
{
    a.unique_seq_to_set();
    b.unique_seq_to_set();
    if a.len() == 0 {
        assert(a =~= b);
    } else {
        let top = a.last();
        assert(a.to_set().contains(top)) by {
            assert(a[a.len() - 1] == top);
        }
        assert(b.contains(top));
        let other = b.last();
        assert(b.to_set().contains(other)) by {
            assert(b[b.len() - 1] == other);
        }
        assert(a.contains(other));
        assert(top == other);
        let less = dom.remove(top);
        assert(a.drop_last().to_set() =~= less) by {
            assert forall|x: u64| a.drop_last().to_set().contains(x) <==> less.contains(x) by {
                if a.drop_last().contains(x) {
                    let i = choose|i: int| 0 <= i < a.drop_last().len() && a.drop_last()[i] == x;
                    assert(a[i] == x);
                    assert(a.to_set().contains(x));
                }
                if less.contains(x) {
                    assert(a.to_set().contains(x));
                    let i = choose|i: int| 0 <= i < a.len() && a[i] == x;
                    assert(a.drop_last()[i] == x);
                }
            }
        }
        assert(b.drop_last().to_set() =~= less) by {
            assert forall|x: u64| b.drop_last().to_set().contains(x) <==> less.contains(x) by {
                if b.drop_last().contains(x) {
                    let i = choose|i: int| 0 <= i < b.drop_last().len() && b.drop_last()[i] == x;
                    assert(b[i] == x);
                    assert(b.to_set().contains(x));
                }
                if less.contains(x) {
                    assert(b.to_set().contains(x));
                    let i = choose|i: int| 0 <= i < b.len() && b[i] == x;
                    assert(b.drop_last()[i] == x);
                }
            }
        }
        lemma_in_order_unique(a.drop_last(), b.drop_last(), less);
        assert(a =~= a.drop_last().push(top));
        assert(b =~= b.drop_last().push(other));
    }
}

/// A list that is in order is the ascending list.
pub proof fn lemma_ascending_ids(ids: Seq<u64>, dom: Set<u64>)
    requires
        in_order(ids, dom),
    ensures
        ids == ascending_ids(dom),
{
    lemma_in_order_unique(ids, ascending_ids(dom), dom);
}

/// The page that holds the payloads of the first `n` of the listed records,
/// appended in that order to a page without slots. `Record(..)` for the
/// first record that cannot be written under the schema, `Page(PageFull)`
/// for the first that the page has no room for.
pub open spec fn packed(
    records: Map<u64, Record>,
    cols: Seq<ColumnView>,
    ids: Seq<u64>,
    n: nat,
) -> Result<Seq<u8>, CatalogError>
    decreases n,
{
    if n == 0 {
        Ok(fresh_page())
    } else {
        match packed(records, cols, ids, (n - 1) as nat) {
            Err(e) => Err(e),
            Ok(page) => match record_payload(
                ids[n - 1],
                records[ids[n - 1]].entries(),
                cols,
            ) {
                Err(e) => Err(CatalogError::Record(e)),
                Ok(payload) => if payload.len() + SLOT_LEN <= free_bytes(page) {
                    Ok(appended(page, payload))
                } else {
                    Err(CatalogError::Page(PageError::PageFull))
                },
            },
        }
    }
}

/// Once a record could not be packed, the error stays.
pub proof fn lemma_packed_error_stays(
    records: Map<u64, Record>,
    cols: Seq<ColumnView>,
    ids: Seq<u64>,
    n: nat,
    m: nat,
)
    requires
        n <= m,
        packed(records, cols, ids, n) is Err,
    ensures
        packed(records, cols, ids, m) == packed(records, cols, ids, n),
    decreases m,
{
    if n < m {
        lemma_packed_error_stays(records, cols, ids, n, (m - 1) as nat);
    }
}

/// Whether a page holds the payloads of the listed records as its slots,
/// all live, in the order of the list.
pub open spec fn holds_in_order(
    page: Seq<u8>,
    records: Map<u64, Record>,
    cols: Seq<ColumnView>,
    ids: Seq<u64>,
    n: nat,
) -> bool {
    &&& page_wf(page)
    &&& record_count(page) == n
    &&& forall|k: int|
        0 <= k < n ==> (#[trigger] slot_at(page, k)).live() && record_payload(
            ids[k],
            records[ids[k]].entries(),
            cols,
        ) == Ok::<Seq<u8>, RecordError>(slot_payload(page, slot_at(page, k)))
}

/// What was packed is a page of the page layer that holds the payloads of
/// the records, one live slot for each, in the order of the list.
pub proof fn lemma_packed_holds(
    records: Map<u64, Record>,
    cols: Seq<ColumnView>,
    ids: Seq<u64>,
    n: nat,
)
    requires
        packed(records, cols, ids, n) is Ok,
    ensures
        holds_in_order(packed(records, cols, ids, n)->Ok_0, records, cols, ids, n),
    decreases n,
{
    if n == 0 {
        lemma_fresh_page();
    } else {
        lemma_packed_holds(records, cols, ids, (n - 1) as nat);
        let before = packed(records, cols, ids, (n - 1) as nat)->Ok_0;
        let payload = record_payload(ids[n - 1], records[ids[n - 1]].entries(), cols)->Ok_0;
        let after = appended(before, payload);
        crate::store::lemma_append_gains_slot(before, payload);
        assert forall|k: int| 0 <= k < n implies (#[trigger] slot_at(after, k)).live()
            && record_payload(ids[k], records[ids[k]].entries(), cols) == Ok::<
            Seq<u8>,
            RecordError,
        >(slot_payload(after, slot_at(after, k))) by {
            if k < n - 1 {
                assert(slot_at(after, k) == slot_at(before, k));
            }
        }
    }
}

/// The identifier of a page is read by nothing in the page layer: a page
/// with another identifier written into its header is a page of the page
/// layer with the same slots and payloads.
pub proof fn lemma_page_id_ignored(page: Seq<u8>, id: u32)
    requires
        page_wf(page),
    ensures
        page_wf(splice(page, 8, spec_u32_to_le_bytes(id))),
        record_count(splice(page, 8, spec_u32_to_le_bytes(id))) == record_count(page),
        forall|k: int|
            0 <= k < record_count(page) ==> #[trigger] slot_at(
                splice(page, 8, spec_u32_to_le_bytes(id)),
                k,
            ) == slot_at(page, k) && slot_payload(
                splice(page, 8, spec_u32_to_le_bytes(id)),
                slot_at(page, k),
            ) == slot_payload(page, slot_at(page, k)),
{
    lemma_auto_spec_u32_to_from_le_bytes();
    let bytes = spec_u32_to_le_bytes(id);
    let out = splice(page, 8, bytes);
    crate::le::lemma_splice_outside(page, 8, bytes, 0, 4);
    crate::le::lemma_splice_outside(page, 8, bytes, 12, 14);
    assert(record_count(out) == record_count(page));
    assert forall|k: int| 0 <= k < record_count(page) implies #[trigger] slot_at(out, k)
        == slot_at(page, k) && slot_payload(out, slot_at(page, k)) == slot_payload(
        page,
        slot_at(page, k),
    ) by {
        let pos = slot_pos(page, k);
        assert(pos >= HEADER_LEN && pos + 5 <= PAGE_SIZE) by (nonlinear_arith)
            requires
                0 <= k < record_count(page),
                pos == PAGE_SIZE - record_count(page) * SLOT_LEN + k * SLOT_LEN,
                PAGE_SIZE - record_count(page) * SLOT_LEN >= HEADER_LEN,
                SLOT_LEN == 5,
        ;
        crate::le::lemma_splice_outside(page, 8, bytes, pos, pos + 2);
        crate::le::lemma_splice_outside(page, 8, bytes, pos + 2, pos + 4);
        assert(out[pos + 4] == page[pos + 4]);
        let slot = slot_at(page, k);
        crate::le::lemma_splice_outside(page, 8, bytes, slot.off as int, slot.end());
    }
    assert forall|i: int| 0 <= i < record_count(out) - 1 implies (#[trigger] slot_at(out, i)).end()
        <= slot_at(out, i + 1).off by {
        assert(slot_at(out, i) == slot_at(page, i));
        assert(slot_at(out, i + 1) == slot_at(page, i + 1));
    }
}

/// Sorts identifiers with `<[u64]>::sort_unstable`, which std documents as
/// putting the slice in ascending order; what is in the list stays the same.
#[verifier::external_body]
fn sort_ids(ids: &mut Vec<u64>)
    ensures
        forall|i: int, j: int| 0 <= i < j < final(ids)@.len() ==> final(ids)@[i] <= final(ids)@[j],
        final(ids)@.to_multiset() == old(ids)@.to_multiset(),
{
    ids.sort_unstable();
}

/// A page of records in memory.
#[derive(Debug, Clone)]
pub struct Page {
    pub id: u32,
    /// The records of the page, each under its identifier.
    pub records: HashMap<u64, Record>,
    pub next_page: Option<u32>,
    pub prev_page: Option<u32>,
    /// The bytes of the page that no record has been counted against.
    pub free_space: usize,
}

impl Page {
    /// Whether each record stands under its own identifier.
    pub open spec fn keyed(&self) -> bool {
        forall|id: u64| #[trigger]
            self.records@.contains_key(id) ==> self.records@[id].id == id
    }

    /// Whether the records and the free space together need no more than a
    /// page has.
    pub open spec fn accounted(&self) -> bool {
        self.free_space + held(self.records@) <= PAGE_SIZE
    }

    /// Whether the page is well formed: keyed and accounted.
    pub open spec fn wf(&self) -> bool {
        self.keyed() && self.accounted()
    }

    /// Whether the page is `before` but for its records and its free space.
    pub open spec fn same_page_as(&self, before: &Page) -> bool {
        &&& self.id == before.id
        &&& self.next_page == before.next_page
        &&& self.prev_page == before.prev_page
    }

    /// A page without records, with all of its bytes free.
    pub fn new(id: u32) -> (page: Page)
        ensures
            page.id == id,
            page.records@ == Map::<u64, Record>::empty(),
            page.next_page is None,
            page.prev_page is None,
            page.free_space == PAGE_SIZE,
            page.wf(),
    {
        let page = Page {
            id,
            records: HashMap::new(),
            next_page: None,
            prev_page: None,
            free_space: PAGE_SIZE,
        };
        assert(page.records@.dom() =~= Set::<u64>::empty());
        assert(held(page.records@) == 0);
        page
    }

    /// The bytes that a record is taken to need, where a `usize` can hold
    /// them.
    fn calculate_record_size(record: &Record) -> (size: Option<usize>)
        ensures
            match size {
                Some(bytes) => bytes == footprint(*record),
                None => footprint(*record) > usize::MAX,
            },
    {
        let entries = record.data.len();
        let limit: usize = (usize::MAX - RECORD_OVERHEAD) / ENTRY_SIZE;
        if entries > limit {
            None
        } else {
            Some(RECORD_OVERHEAD + entries * ENTRY_SIZE)
        }
    }

    /// Puts a record into the page under its identifier, in place of the
    /// record that stood there, and counts its bytes against the free space.
    /// `PageFull`, and nothing changes, where the free space is less than
    /// the record is taken to need.
    pub fn insert_record(&mut self, record: Record) -> (done: Result<(), PageError>)
        ensures
            final(self).same_page_as(old(self)),
            match done {
                Ok(()) => {
                    &&& footprint(record) <= old(self).free_space
                    &&& final(self).free_space == old(self).free_space - footprint(record)
                    &&& final(self).records@ == old(self).records@.insert(record.id, record)
                },
                Err(e) => {
                    &&& e == PageError::PageFull
                    &&& footprint(record) > old(self).free_space
                    &&& final(self).free_space == old(self).free_space
                    &&& final(self).records@ == old(self).records@
                },
            },
            old(self).wf() ==> final(self).wf(),
    {
        let record_size = match Page::calculate_record_size(&record) {
            Some(bytes) => bytes,
            None => { return Err(PageError::PageFull); },
        };
        if self.free_space < record_size {
            return Err(PageError::PageFull);
        }
        proof {
            lemma_held_insert(self.records@, record.id, record);
        }
        self.records.insert(record.id, record);
        self.free_space -= record_size;
        Ok(())
    }

    /// Takes the record with the given identifier out of the page and gives
    /// it back, with its bytes free again; nothing where the page has none.
    pub fn delete_record(&mut self, record_id: u64) -> (taken: Option<Record>)
        requires
            old(self).can_release(record_id),
        ensures
            final(self).same_page_as(old(self)),
            match taken {
                Some(record) => {
                    &&& old(self).records@.contains_key(record_id)
                    &&& record == old(self).records@[record_id]
                    &&& final(self).records@ == old(self).records@.remove(record_id)
                    &&& final(self).free_space == old(self).free_space + footprint(record)
                },
                None => {
                    &&& !old(self).records@.contains_key(record_id)
                    &&& final(self).records@ == old(self).records@
                    &&& final(self).free_space == old(self).free_space
                },
            },
            old(self).wf() ==> final(self).wf(),
    {
        proof {
            if self.records@.contains_key(record_id) {
                lemma_held_remove(self.records@, record_id);
            }
        }
        match self.records.remove(&record_id) {
            Some(record) => {
                let record_size = match Page::calculate_record_size(&record) {
                    Some(bytes) => bytes,
                    None => {
                        proof {
                            assert(false);
                        }
                        0
                    },
                };
                self.free_space += record_size;
                proof {
                    if old(self).wf() {
                        assert(self.records@ == old(self).records@.remove(record_id));
                        assert(self.keyed());
                        assert(self.accounted());
                    }
                }
                Some(record)
            },
            None => {
                assert(self.records@ =~= old(self).records@);
                None
            },
        }
    }

    /// Whether the bytes of the record with the given identifier can be
    /// counted as free again: with them the free space still is a `usize`.
    pub open spec fn can_release(&self, record_id: u64) -> bool {
        self.records@.contains_key(record_id) ==> self.free_space + footprint(
            self.records@[record_id],
        ) <= usize::MAX
    }

    /// The record with the given identifier.
    pub fn get_record(&self, record_id: u64) -> (found: Option<&Record>)
        ensures
            match found {
                Some(record) => self.records@.contains_key(record_id) && *record
                    == self.records@[record_id],
                None => !self.records@.contains_key(record_id),
            },
    {
        self.records.get(&record_id)
    }

    /// The records of the page in ascending order of their identifiers.
    pub open spec fn listing(&self) -> Seq<Record> {
        ascending_ids(self.records@.dom()).map_values(|id: u64| self.records@[id])
    }

    /// The page written as bytes: the payloads of its records, in ascending
    /// order of their identifiers, appended to a page without slots that
    /// then gets the identifier of the page; or the error of the first
    /// record that could not be appended.
    pub open spec fn packing(&self, cols: Seq<ColumnView>) -> Result<Seq<u8>, CatalogError> {
        let ids = ascending_ids(self.records@.dom());
        match packed(self.records@, cols, ids, ids.len()) {
            Ok(page) => Ok(splice(page, 8, spec_u32_to_le_bytes(self.id))),
            Err(e) => Err(e),
        }
    }

    /// The identifiers of the records, in ascending order.
    fn sorted_ids(&self) -> (ids: Vec<u64>)
        ensures
            in_order(ids@, self.records@.dom()),
            ids@ == ascending_ids(self.records@.dom()),
    {
        let mut ids: Vec<u64> = Vec::new();
        let keys = self.records.keys();
        let ghost listed = keys.remaining().unref();
        for id in it: keys
            invariant
                ids@.len() == it.index(),
                forall|j: int| 0 <= j < ids@.len() ==> ids@[j] == *(#[trigger] it.seq()[j]),
        {
            ids.push(*id);
        }
        let ghost unsorted = ids@;
        sort_ids(&mut ids);
        proof {
            assert(unsorted =~= listed);
            unsorted.lemma_multiset_has_no_duplicates();
            ids@.lemma_multiset_has_no_duplicates_conv();
            unsorted.to_multiset_ensures();
            ids@.to_multiset_ensures();
            assert(listed.to_set() == self.records@.dom());
            assert forall|x: u64| ids@.to_set().contains(x) <==> self.records@.dom().contains(
                x,
            ) by {
                assert(ids@.contains(x) <==> ids@.to_multiset().count(x) > 0);
                assert(unsorted.contains(x) <==> unsorted.to_multiset().count(x) > 0);
                assert(unsorted.to_set().contains(x) <==> unsorted.contains(x));
            }
            assert(ids@.to_set() =~= self.records@.dom());
            lemma_ascending_ids(ids@, self.records@.dom());
        }
        ids
    }

    /// The records of the page in ascending order of their identifiers.
    pub fn records_in_order(&self) -> (found: Vec<&Record>)
        ensures
            found@.len() == self.listing().len(),
            forall|i: int| 0 <= i < found@.len() ==> *(#[trigger] found@[i]) == self.listing()[i],
    {
        let ids = self.sorted_ids();
        let mut found: Vec<&Record> = Vec::new();
        let mut i: usize = 0;
        while i < ids.len()
            invariant
                i <= ids@.len(),
                ids@ == ascending_ids(self.records@.dom()),
                in_order(ids@, self.records@.dom()),
                found@.len() == i,
                forall|k: int| 0 <= k < i ==> *(#[trigger] found@[k]) == self.listing()[k],
            decreases ids@.len() - i,
        {
            let rid = ids[i];
            assert(ids@.to_set().contains(rid));
            match self.records.get(&rid) {
                Some(record) => {
                    found.push(record);
                },
                None => {
                    assert(false);
                },
            }
            i += 1;
        }
        found
    }

    /// Writes the page as the bytes of a heap page.
    pub fn to_bytes(&self, columns: &[Column]) -> (done: Result<Vec<u8>, CatalogError>)
        ensures
            match done {
                Ok(bytes) => self.packing(column_views(columns@)) == Ok::<Seq<u8>, CatalogError>(
                    bytes@,
                ),
                Err(e) => self.packing(column_views(columns@)) == Err::<Seq<u8>, CatalogError>(e),
            },
    {
        let ghost cols = column_views(columns@);
        let ids = self.sorted_ids();
        let mut page = new_page();
        proof {
            lemma_fresh_page();
        }
        let mut i: usize = 0;
        while i < ids.len()
            invariant
                i <= ids@.len(),
                in_order(ids@, self.records@.dom()),
                ids@ == ascending_ids(self.records@.dom()),
                cols == column_views(columns@),
                packed(self.records@, cols, ids@, i as nat) == Ok::<Seq<u8>, CatalogError>(page@),
                is_page(page@),
                page@.len() == PAGE_SIZE,
            decreases ids@.len() - i,
        {
            let rid = ids[i];
            assert(ids@.to_set().contains(rid));
            let rec = match self.records.get(&rid) {
                Some(rec) => rec,
                None => {
                    proof {
                        assert(false);
                    }
                    return Err(CatalogError::Page(PageError::CorruptPage));
                },
            };
            let payload = match serialize_record_for_page(rid, rec, columns) {
                Ok(payload) => payload,
                Err(e) => {
                    proof {
                        lemma_packed_error_stays(self.records@, cols, ids@, (i + 1) as nat, ids@.len());
                    }
                    return Err(CatalogError::Record(e));
                },
            };
            let ghost before = page@;
            match page_append(&mut page, payload.as_slice()) {
                Ok(_) => {
                    proof {
                        lemma_append(before, payload@);
                    }
                },
                Err(_) => {
                    proof {
                        lemma_packed_error_stays(self.records@, cols, ids@, (i + 1) as nat, ids@.len());
                    }
                    return Err(CatalogError::Page(PageError::PageFull));
                },
            }
            i += 1;
        }
        proof {
            lemma_auto_spec_u32_to_from_le_bytes();
        }
        let id_bytes = u32_to_le_bytes(self.id);
        write_at(&mut page, 8, id_bytes.as_slice());
        Ok(page)
    }

    /// Whether the free space is enough for the record.
    pub(crate) fn fits(&self, record: &Record) -> (enough: bool)
        ensures
            enough == (footprint(*record) <= self.free_space),
    {
        match Page::calculate_record_size(record) {
            Some(bytes) => bytes <= self.free_space,
            None => false,
        }
    }

    /// Whether the page has less free space than is asked for.
    pub fn is_full(&self, required_space: usize) -> (full: bool)
        ensures
            full == (self.free_space < required_space),
    {
        self.free_space < required_space
    }
}

/// A page that is written as bytes is a page of the page layer: it holds one
/// live slot for each record of the page, in ascending order of the
/// identifiers, with the payload of the record under the schema.
pub proof fn lemma_written_page_holds(page: Page, cols: Seq<ColumnView>)
    requires
        page.packing(cols) is Ok,
    ensures
        holds_in_order(
            page.packing(cols)->Ok_0,
            page.records@,
            cols,
            ascending_ids(page.records@.dom()),
            ascending_ids(page.records@.dom()).len(),
        ),
{
    let ids = ascending_ids(page.records@.dom());
    lemma_packed_holds(page.records@, cols, ids, ids.len());
    let packed_page = packed(page.records@, cols, ids, ids.len())->Ok_0;
    lemma_page_id_ignored(packed_page, page.id);
    let out = page.packing(cols)->Ok_0;
    assert forall|k: int| 0 <= k < ids.len() implies (#[trigger] slot_at(out, k)).live()
        && record_payload(ids[k], page.records@[ids[k]].entries(), cols) == Ok::<
        Seq<u8>,
        RecordError,
    >(slot_payload(out, slot_at(out, k))) by {
        assert(slot_at(out, k) == slot_at(packed_page, k));
        assert(slot_at(packed_page, k).live());
    }
}

/// The records of a well-formed page can be released, each of them.
pub proof fn lemma_accounted_can_release(page: Page, record_id: u64)
    requires
        page.accounted(),
    ensures
        page.can_release(record_id),
{
    if page.records@.contains_key(record_id) {
        lemma_held_remove(page.records@, record_id);
    }
}

} // verus!
