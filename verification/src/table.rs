//! A table held in memory: its schema and its records, spread over pages
//! that are added as the records need them.

use vstd::prelude::*;
use vstd::std_specs::hash::*;
use crate::error::{CatalogError, RecordError};
use crate::memory::{footprint, Page};
use crate::store::heap_view;
use crate::page::PAGE_SIZE;
use crate::record::{validation, Record};
use crate::types::{column_views, Column, ColumnView};

verus! {

broadcast use vstd::std_specs::hash::group_hash_axioms;

/// The free bytes that a page must have for a record to be tried on it.
pub const RECORD_ROOM: usize = 64;

/// Why a table in memory refused a record.
#[derive(Debug, Clone, Copy, PartialEq, Eq, Structural)]
pub enum TableError {
    /// The record does not fit the schema.
    Invalid(RecordError),
    /// Not even a page without records has room for the record.
    NoSpace,
    /// The table has no record with the identifier.
    NotFound,
}

/// A table in memory.
#[derive(Debug, Clone)]
pub struct Table {
    pub name: String,
    pub columns: Vec<Column>,
    /// The pages of the table, each at the place that its identifier says.
    pub pages: Vec<Page>,
    pub next_page_id: u32,
    pub next_record_id: u64,
}

/// The first of the first `n` pages that holds a record with the
/// identifier.
pub open spec fn holder(pages: Seq<Page>, id: u64, n: nat) -> Option<int>
    decreases n,
{
    if n == 0 {
        None
    } else {
        match holder(pages, id, (n - 1) as nat) {
            Some(at) => Some(at),
            None => if pages[n - 1].records@.contains_key(id) {
                Some(n - 1)
            } else {
                None
            },
        }
    }
}

/// Where `holder` finds a page, the page holds the record and no page
/// before it does; where it finds none, none of the pages does.
pub proof fn lemma_holder(pages: Seq<Page>, id: u64, n: nat)
    ensures
        match holder(pages, id, n) {
            Some(at) => 0 <= at < n && pages[at].records@.contains_key(id) && forall|p: int|
                0 <= p < at ==> !(#[trigger] pages[p]).records@.contains_key(id),
            None => forall|p: int| 0 <= p < n ==> !(#[trigger] pages[p]).records@.contains_key(id),
        },
    decreases n,
{
    if n > 0 {
        lemma_holder(pages, id, (n - 1) as nat);
    }
}

/// Whether a page has room for a record that needs `need` bytes: room for
/// a record at all, and the bytes that this one needs.
pub open spec fn has_room(page: Page, need: nat) -> bool {
    page.free_space >= RECORD_ROOM && page.free_space >= need
}

/// The first of the first `n` pages that has room for a record that needs
/// `need` bytes.
pub open spec fn first_room(pages: Seq<Page>, need: nat, n: nat) -> Option<int>
    decreases n,
{
    if n == 0 {
        None
    } else {
        match first_room(pages, need, (n - 1) as nat) {
            Some(at) => Some(at),
            None => if has_room(pages[n - 1], need) {
                Some(n - 1)
            } else {
                None
            },
        }
    }
}

/// Where `first_room` finds a page, the page has room and no page before it
/// has; where it finds none, none of the pages has.
pub proof fn lemma_first_room(pages: Seq<Page>, need: nat, n: nat)
    ensures
        match first_room(pages, need, n) {
            Some(at) => 0 <= at < n && has_room(pages[at], need) && forall|p: int|
                0 <= p < at ==> !has_room(#[trigger] pages[p], need),
            None => forall|p: int| 0 <= p < n ==> !has_room(#[trigger] pages[p], need),
        },
    decreases n,
{
    if n > 0 {
        lemma_first_room(pages, need, (n - 1) as nat);
    }
}

/// The records of the first `n` pages, page after page, those of a page in
/// ascending order of their identifiers.
pub open spec fn listing_upto(pages: Seq<Page>, n: nat) -> Seq<Record>
    decreases n,
{
    if n == 0 {
        Seq::empty()
    } else {
        listing_upto(pages, (n - 1) as nat) + pages[n - 1].listing()
    }
}

/// The first `n` pages written as bytes, page after page, or the error of
/// the first page that cannot be written.
pub open spec fn images_upto(pages: Seq<Page>, cols: Seq<ColumnView>, n: nat) -> Result<
    Seq<Seq<u8>>,
    CatalogError,
>
    decreases n,
{
    if n == 0 {
        Ok(Seq::empty())
    } else {
        match images_upto(pages, cols, (n - 1) as nat) {
            Err(e) => Err(e),
            Ok(images) => match pages[n - 1].packing(cols) {
                Err(e) => Err(e),
                Ok(image) => Ok(images.push(image)),
            },
        }
    }
}

/// Once a page could not be written, the error stays.
pub proof fn lemma_images_error_stays(pages: Seq<Page>, cols: Seq<ColumnView>, n: nat, m: nat)
    requires
        n <= m,
        images_upto(pages, cols, n) is Err,
    ensures
        images_upto(pages, cols, m) == images_upto(pages, cols, n),
    decreases m,
{
    if n < m {
        lemma_images_error_stays(pages, cols, n, (m - 1) as nat);
    }
}

/// Whether `after` is `before` with the record put under its identifier and
/// its bytes counted against the free space.
pub open spec fn with_record(before: Page, after: Page, record: Record) -> bool {
    &&& after.same_page_as(&before)
    &&& footprint(record) <= before.free_space
    &&& after.free_space == before.free_space - footprint(record)
    &&& after.records@ == before.records@.insert(record.id, record)
}

/// Whether `after` is `before` without the record of the given identifier,
/// with its bytes free again.
pub open spec fn without_record(before: Page, after: Page, id: u64) -> bool {
    &&& after.same_page_as(&before)
    &&& after.free_space == before.free_space + footprint(before.records@[id])
    &&& after.records@ == before.records@.remove(id)
}

/// Whether `after` is `before` with the record in place of the one that
/// stood under its identifier, and the free space as it was.
pub open spec fn with_replaced(before: Page, after: Page, record: Record) -> bool {
    &&& after.same_page_as(&before)
    &&& after.free_space == before.free_space
    &&& after.records@ == before.records@.insert(record.id, record)
}

/// The record under another identifier.
pub open spec fn numbered(record: Record, id: u64) -> Record {
    Record { id, data: record.data, timestamp: record.timestamp }
}

/// Whether the references of a list are to the records of another, place by
/// place.
pub open spec fn refers_to(found: Seq<&Record>, records: Seq<Record>) -> bool {
    &&& found.len() == records.len()
    &&& forall|i: int| 0 <= i < found.len() ==> *(#[trigger] found[i]) == records[i]
}

impl Table {
    /// Whether the table is well formed: it has as many pages as the next
    /// page identifier says, each at the place of its identifier, each
    /// record stands under its own identifier, in one page only, and below
    /// the next record identifier.
    pub open spec fn wf(&self) -> bool {
        &&& self.pages@.len() == self.next_page_id
        &&& forall|p: int|
            0 <= p < self.pages@.len() ==> (#[trigger] self.pages@[p]).id == p && self.pages@[p].keyed()
        &&& forall|p: int, id: u64|
            0 <= p < self.pages@.len() && #[trigger] self.pages@[p].records@.contains_key(id)
                ==> id < self.next_record_id
        &&& forall|p: int, q: int, id: u64|
            0 <= p < q < self.pages@.len() && #[trigger] self.pages@[p].records@.contains_key(id)
                ==> !#[trigger] self.pages@[q].records@.contains_key(id)
    }

    /// Whether the bytes of the record with the given identifier can be
    /// counted as free again in the page that holds it.
    pub open spec fn can_release(&self, id: u64) -> bool {
        holder(self.pages@, id, self.pages@.len()) matches Some(p) ==> self.pages@[p].can_release(id)
    }

    /// The records of the table, page after page.
    pub open spec fn listing(&self) -> Seq<Record> {
        listing_upto(self.pages@, self.pages@.len())
    }

    /// Whether the table is `before` but for its pages.
    pub open spec fn same_table_as(&self, before: &Table) -> bool {
        &&& self.name == before.name
        &&& self.columns == before.columns
        &&& self.next_page_id == before.next_page_id
        &&& self.next_record_id == before.next_record_id
    }

    /// Whether the pages are those of `before` but for the page at `at`.
    pub open spec fn same_pages_but(&self, before: &Table, at: int) -> bool {
        &&& self.pages@.len() == before.pages@.len()
        &&& forall|p: int|
            0 <= p < self.pages@.len() && p != at ==> #[trigger] self.pages@[p] == before.pages@[p]
    }

    /// A table without records, with one page.
    pub fn new(name: String, columns: Vec<Column>) -> (table: Table)
        ensures
            table.name == name,
            table.columns == columns,
            table.pages@.len() == 1,
            table.pages@[0].records@ == Map::<u64, Record>::empty(),
            table.pages@[0].free_space == PAGE_SIZE,
            table.next_page_id == 1,
            table.next_record_id == 0,
            table.wf(),
    {
        let mut table = Table {
            name,
            columns,
            pages: Vec::new(),
            next_page_id: 0,
            next_record_id: 0,
        };
        table.add_page();
        table
    }

    /// Adds a page without records and gives its identifier.
    fn add_page(&mut self) -> (page_id: u32)
        requires
            old(self).wf(),
            old(self).next_page_id < u32::MAX,
        ensures
            final(self).wf(),
            page_id == old(self).next_page_id,
            final(self).next_page_id == page_id + 1,
            final(self).name == old(self).name,
            final(self).columns == old(self).columns,
            final(self).next_record_id == old(self).next_record_id,
            final(self).pages@.len() == old(self).pages@.len() + 1,
            forall|p: int|
                0 <= p < old(self).pages@.len() ==> #[trigger] final(self).pages@[p] == old(self).pages@[p],
            final(self).pages@[page_id as int].records@ == Map::<u64, Record>::empty(),
            final(self).pages@[page_id as int].free_space == PAGE_SIZE,
            final(self).pages@[page_id as int].wf(),
    {
        let page_id = self.next_page_id;
        let page = Page::new(page_id);
        self.pages.push(page);
        self.next_page_id += 1;
        page_id
    }

    /// The place of the first page that has room for the record.
    fn find_room(&self, record: &Record) -> (found: Option<usize>)
        ensures
            match found {
                Some(p) => first_room(self.pages@, footprint(*record), self.pages@.len()) == Some(
                    p as int,
                ) && p < self.pages@.len() && has_room(self.pages@[p as int], footprint(*record)),
                None => first_room(self.pages@, footprint(*record), self.pages@.len()) is None,
            },
    {
        let mut i: usize = 0;
        while i < self.pages.len()
            invariant
                i <= self.pages@.len(),
                first_room(self.pages@, footprint(*record), i as nat) is None,
            decreases self.pages@.len() - i,
        {
            if !self.pages[i].is_full(RECORD_ROOM) && self.pages[i].fits(record) {
                proof {
                    lemma_first_room_stays(
                        self.pages@,
                        footprint(*record),
                        (i + 1) as nat,
                        self.pages@.len(),
                    );
                }
                return Some(i);
            }
            i += 1;
        }
        None
    }

    /// Takes a record into the table under the next record identifier,
    /// which is given back: into the first page that has room for it, or
    /// into a page that is added for it. `Invalid(..)`, and nothing
    /// changes, for a record that does not fit the schema; `NoSpace` for a
    /// record that a page without records has no room for: the identifier
    /// is then used up and the page added all the same.
    pub fn insert_record(&mut self, record: Record) -> (done: Result<u64, TableError>)
        requires
            old(self).wf(),
            old(self).next_record_id < u64::MAX,
            old(self).next_page_id < u32::MAX,
        ensures
            final(self).wf(),
            final(self).name == old(self).name,
            final(self).columns == old(self).columns,
            match validation(
                record.entries(),
                column_views(old(self).columns@),
                old(self).columns@.len(),
            ) {
                Err(e) => {
                    &&& done == Err::<u64, TableError>(TableError::Invalid(e))
                    &&& final(self).pages@ == old(self).pages@
                    &&& final(self).next_page_id == old(self).next_page_id
                    &&& final(self).next_record_id == old(self).next_record_id
                },
                Ok(()) => {
                    let id = old(self).next_record_id;
                    let stored = numbered(record, id);
                    &&& final(self).next_record_id == id + 1
                    &&& match first_room(
                        old(self).pages@,
                        footprint(record),
                        old(self).pages@.len(),
                    ) {
                        Some(p) => {
                            &&& done == Ok::<u64, TableError>(id)
                            &&& final(self).next_page_id == old(self).next_page_id
                            &&& final(self).same_pages_but(old(self), p)
                            &&& with_record(old(self).pages@[p], final(self).pages@[p], stored)
                        },
                        None => {
                            let p = old(self).pages@.len() as int;
                            &&& final(self).next_page_id == old(self).next_page_id + 1
                            &&& final(self).pages@.len() == p + 1
                            &&& forall|q: int|
                                0 <= q < p ==> #[trigger] final(self).pages@[q] == old(self).pages@[q]
                            &&& final(self).pages@[p].id == old(self).next_page_id
                            &&& if footprint(record) <= PAGE_SIZE {
                                &&& done == Ok::<u64, TableError>(id)
                                &&& final(self).pages@[p].records@ == Map::<u64, Record>::empty().insert(
                                    id,
                                    stored,
                                )
                                &&& final(self).pages@[p].free_space == PAGE_SIZE - footprint(record)
                            } else {
                                &&& done == Err::<u64, TableError>(TableError::NoSpace)
                                &&& final(self).pages@[p].records@ == Map::<u64, Record>::empty()
                                &&& final(self).pages@[p].free_space == PAGE_SIZE
                            }
                        },
                    }
                },
            },
    {
        match record.validate(self.columns.as_slice()) {
            Ok(()) => {},
            Err(e) => {
                return Err(TableError::Invalid(e));
            },
        }
        let mut stored = record;
        let id = self.next_record_id;
        stored.id = id;
        self.next_record_id += 1;
        assert(stored == numbered(record, id));
        match self.find_room(&stored) {
            Some(p) => {
                let put = self.pages[p].insert_record(stored);
                Ok(id)
            },
            None => {
                let page_id = self.add_page();
                match self.pages[page_id as usize].insert_record(stored) {
                    Ok(()) => Ok(id),
                    Err(_) => Err(TableError::NoSpace),
                }
            },
        }
    }

    /// The records of the table, page after page, those of a page in
    /// ascending order of their identifiers.
    pub fn scan(&self) -> (found: Vec<&Record>)
        ensures
            refers_to(found@, self.listing()),
    {
        let mut found: Vec<&Record> = Vec::new();
        let mut i: usize = 0;
        while i < self.pages.len()
            invariant
                i <= self.pages@.len(),
                refers_to(found@, listing_upto(self.pages@, i as nat)),
            decreases self.pages@.len() - i,
        {
            let part = self.pages[i].records_in_order();
            let ghost base = listing_upto(self.pages@, i as nat);
            let ghost list = self.pages@[i as int].listing();
            let mut j: usize = 0;
            while j < part.len()
                invariant
                    j <= part@.len(),
                    part@.len() == list.len(),
                    forall|k: int| 0 <= k < part@.len() ==> *(#[trigger] part@[k]) == list[k],
                    refers_to(found@, base + list.subrange(0, j as int)),
                decreases part@.len() - j,
            {
                found.push(part[j]);
                assert(base + list.subrange(0, j + 1) =~= (base + list.subrange(0, j as int)).push(
                    list[j as int],
                ));
                j += 1;
            }
            assert(list.subrange(0, list.len() as int) =~= list);
            i += 1;
        }
        found
    }

    /// The record with the given identifier.
    pub fn get_record(&self, record_id: u64) -> (found: Option<&Record>)
        ensures
            match found {
                Some(record) => holder(self.pages@, record_id, self.pages@.len()) matches Some(p)
                    && *record == self.pages@[p].records@[record_id],
                None => holder(self.pages@, record_id, self.pages@.len()) is None,
            },
    {
        let mut i: usize = 0;
        while i < self.pages.len()
            invariant
                i <= self.pages@.len(),
                holder(self.pages@, record_id, i as nat) is None,
            decreases self.pages@.len() - i,
        {
            match self.pages[i].get_record(record_id) {
                Some(record) => {
                    proof {
                        lemma_holder_stays(self.pages@, record_id, (i + 1) as nat, self.pages@.len());
                    }
                    return Some(record);
                },
                None => {},
            }
            i += 1;
        }
        None
    }

    /// The place of the page that holds the record with the given
    /// identifier.
    fn find_holder(&self, record_id: u64) -> (found: Option<usize>)
        ensures
            match found {
                Some(p) => holder(self.pages@, record_id, self.pages@.len()) == Some(p as int) && p
                    < self.pages@.len() && self.pages@[p as int].records@.contains_key(record_id),
                None => holder(self.pages@, record_id, self.pages@.len()) is None,
            },
    {
        let mut i: usize = 0;
        while i < self.pages.len()
            invariant
                i <= self.pages@.len(),
                holder(self.pages@, record_id, i as nat) is None,
            decreases self.pages@.len() - i,
        {
            if self.pages[i].get_record(record_id).is_some() {
                proof {
                    lemma_holder_stays(self.pages@, record_id, (i + 1) as nat, self.pages@.len());
                }
                return Some(i);
            }
            i += 1;
        }
        None
    }

    /// Takes the record with the given identifier out of the table and
    /// gives it back; nothing where the table has none.
    pub fn delete_record(&mut self, record_id: u64) -> (taken: Option<Record>)
        requires
            old(self).can_release(record_id),
        ensures
            final(self).same_table_as(old(self)),
            match holder(old(self).pages@, record_id, old(self).pages@.len()) {
                Some(p) => {
                    &&& taken == Some(old(self).pages@[p].records@[record_id])
                    &&& final(self).same_pages_but(old(self), p)
                    &&& without_record(old(self).pages@[p], final(self).pages@[p], record_id)
                },
                None => taken is None && final(self).pages@ == old(self).pages@,
            },
            old(self).wf() ==> final(self).wf(),
    {
        match self.find_holder(record_id) {
            Some(p) => {
                let taken = self.pages[p].delete_record(record_id);
                taken
            },
            None => None,
        }
    }

    /// Puts the record in place of the one that the table has under its
    /// identifier. `Invalid(..)` for a record that does not fit the schema,
    /// `NotFound` where the table has no record with the identifier; the
    /// table is then as it was.
    pub fn update_record(&mut self, record: Record) -> (done: Result<(), TableError>)
        ensures
            final(self).same_table_as(old(self)),
            match validation(
                record.entries(),
                column_views(old(self).columns@),
                old(self).columns@.len(),
            ) {
                Err(e) => done == Err::<(), TableError>(TableError::Invalid(e)) && final(self).pages@ == old(self).pages@,
                Ok(()) => match holder(old(self).pages@, record.id, old(self).pages@.len()) {
                    Some(p) => {
                        &&& done is Ok
                        &&& final(self).same_pages_but(old(self), p)
                        &&& with_replaced(old(self).pages@[p], final(self).pages@[p], record)
                    },
                    None => done == Err::<(), TableError>(TableError::NotFound) && final(self).pages@ == old(self).pages@,
                },
            },
            old(self).wf() ==> final(self).wf(),
    {
        match record.validate(self.columns.as_slice()) {
            Ok(()) => {},
            Err(e) => {
                return Err(TableError::Invalid(e));
            },
        }
        match self.find_holder(record.id) {
            Some(p) => {
                self.pages[p].records.insert(record.id, record);
                Ok(())
            },
            None => Err(TableError::NotFound),
        }
    }

    /// The pages of the table written as the pages of a heap segment, each
    /// as `Page::to_bytes` writes it; the error of the first page that
    /// cannot be written.
    pub fn page_images(&self) -> (done: Result<Vec<Vec<u8>>, CatalogError>)
        ensures
            match done {
                Ok(images) => images_upto(
                    self.pages@,
                    column_views(self.columns@),
                    self.pages@.len(),
                ) == Ok::<Seq<Seq<u8>>, CatalogError>(heap_view(images@)),
                Err(e) => images_upto(self.pages@, column_views(self.columns@), self.pages@.len())
                    == Err::<Seq<Seq<u8>>, CatalogError>(e),
            },
    {
        let ghost cols = column_views(self.columns@);
        let mut images: Vec<Vec<u8>> = Vec::new();
        let mut i: usize = 0;
        assert(heap_view(images@) =~= Seq::<Seq<u8>>::empty());
        while i < self.pages.len()
            invariant
                i <= self.pages@.len(),
                cols == column_views(self.columns@),
                images_upto(self.pages@, cols, i as nat) == Ok::<Seq<Seq<u8>>, CatalogError>(
                    heap_view(images@),
                ),
            decreases self.pages@.len() - i,
        {
            let ghost before = heap_view(images@);
            match self.pages[i].to_bytes(self.columns.as_slice()) {
                Ok(image) => {
                    images.push(image);
                    assert(heap_view(images@) =~= before.push(image@));
                },
                Err(e) => {
                    proof {
                        lemma_images_error_stays(self.pages@, cols, (i + 1) as nat, self.pages@.len());
                    }
                    return Err(e);
                },
            }
            i += 1;
        }
        Ok(images)
    }

    /// The columns of the table.
    pub fn columns(&self) -> (columns: &Vec<Column>)
        ensures
            *columns == self.columns,
    {
        &self.columns
    }

    /// The pages of the table; a page stands at the place of its
    /// identifier.
    pub fn pages(&self) -> (pages: &Vec<Page>)
        ensures
            *pages == self.pages,
    {
        &self.pages
    }
}

/// A page that `first_room` has found stays found when more pages are
/// looked at.
pub proof fn lemma_first_room_stays(pages: Seq<Page>, need: nat, n: nat, m: nat)
    requires
        n <= m,
        first_room(pages, need, n) is Some,
    ensures
        first_room(pages, need, m) == first_room(pages, need, n),
    decreases m,
{
    if n < m {
        lemma_first_room_stays(pages, need, n, (m - 1) as nat);
    }
}

/// A page that `holder` has found stays found when more pages are looked
/// at.
pub proof fn lemma_holder_stays(pages: Seq<Page>, id: u64, n: nat, m: nat)
    requires
        n <= m,
        holder(pages, id, n) is Some,
    ensures
        holder(pages, id, m) == holder(pages, id, n),
    decreases m,
{
    if n < m {
        lemma_holder_stays(pages, id, n, (m - 1) as nat);
    }
}

} // verus!
