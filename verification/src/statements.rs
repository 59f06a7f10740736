//! Statements on the tables of a catalog, by the name of the table.

use vstd::prelude::*;
use crate::ast::{Assignment, Condition};
use crate::catalog::{table_at, FileCatalog};
use crate::error::{CatalogError, RecordError};
use crate::executor::{
    assignments_check, first_unknown, name_views, row_for, shown_columns, unknown_assignment,
    value_views, with_assigned, ResultSet,
};
use crate::record_codec::row_values;
use crate::recovery::id_after;
use crate::scan::{clause_of, live_rows, scan_heap};
use crate::store::TableStore;
use crate::types::RowId;
use crate::value::{ASTValue, ValueView};

verus! {

impl TableStore {
    /// Whether the table is what `insert` makes of `before` with the given
    /// values, and `done` what it gives: see `TableStore::insert`.
    pub open spec fn after_insert(
        &self,
        before: &TableStore,
        values: Seq<ValueView>,
        done: Result<RowId, CatalogError>,
    ) -> bool {
        &&& self.wf()
        &&& self.name == before.name
        &&& self.columns == before.columns
        &&& done == before.inserting(values)
        &&& match done {
            Ok(row_id) => {
                &&& self.rows() == before.rows().insert(
                    row_id,
                    row_values(row_for(values, before.cols())->Ok_0, before.cols()),
                )
                &&& self.state.next_row_id == id_after(row_id)
            },
            Err(_) => self.rows() == before.rows(),
        }
    }

    /// Whether `done` is what `select` gives for the columns that were asked
    /// for and the clause: see `TableStore::select`.
    pub open spec fn selection(
        &self,
        asked: Seq<Seq<char>>,
        clause: Option<Condition>,
        done: Result<ResultSet, CatalogError>,
    ) -> bool {
        &&& match first_unknown(shown_columns(asked, self.cols()), self.cols()) {
            Some(_) => done == Err::<ResultSet, CatalogError>(
                CatalogError::Record(RecordError::UnknownColumn),
            ),
            None => match scan_heap(self.heap(), self.cols(), clause, self.heap().len()) {
                Err(e) => done == Err::<ResultSet, CatalogError>(e),
                Ok(_) => done is Ok && self.shown_in(
                    done->Ok_0,
                    shown_columns(asked, self.cols()),
                    clause,
                ),
            },
        }
        &&& self.wf() && first_unknown(shown_columns(asked, self.cols()), self.cols()) is None
            ==> done is Ok
    }

    /// Whether the table is what `update_where` makes of `before` with the
    /// assignments and the clause, and `done` what it gives: see
    /// `TableStore::update_where`.
    pub open spec fn after_update(
        &self,
        before: &TableStore,
        assignments: Seq<Assignment>,
        clause: Option<Condition>,
        done: Result<u64, CatalogError>,
    ) -> bool {
        let passing = live_rows(before.heap(), before.cols(), before.index(), clause).dom();
        &&& self.wf()
        &&& self.name == before.name
        &&& self.columns == before.columns
        &&& self.state.next_row_id == before.state.next_row_id
        &&& passing.finite()
        &&& unknown_assignment(before.cols(), assignments) ==> done == Err::<u64, CatalogError>(
            CatalogError::Record(RecordError::UnknownColumn),
        ) && self.same_as(before)
        &&& !unknown_assignment(before.cols(), assignments) && passing.len() > 0 ==> (
        assignments_check(before.cols(), assignments, assignments.len()) matches Err(cause)
            ==> done == Err::<u64, CatalogError>(CatalogError::Record(cause)) && self.same_as(
            before,
        ))
        &&& done is Err ==> self.updated_some(before, assignments, clause)
        &&& done is Err && !unknown_assignment(before.cols(), assignments) && assignments_check(
            before.cols(),
            assignments,
            assignments.len(),
        ) is Ok ==> before.update_refused(assignments, clause, done->Err_0)
        &&& !unknown_assignment(before.cols(), assignments) && assignments_check(
            before.cols(),
            assignments,
            assignments.len(),
        ) is Ok && before.update_cannot(assignments, clause) ==> done is Err
        &&& done matches Ok(count) ==> count == passing.len() && self.rows() == with_assigned(
            before.rows(),
            before.cols(),
            assignments,
            passing,
        )
    }

    /// Whether the table is what `delete_where` makes of `before` with the
    /// clause, and `done` what it gives: see `TableStore::delete_where`.
    pub open spec fn after_delete(
        &self,
        before: &TableStore,
        clause: Option<Condition>,
        done: Result<u64, CatalogError>,
    ) -> bool {
        let passing = live_rows(before.heap(), before.cols(), before.index(), clause).dom();
        &&& self.wf()
        &&& self.name == before.name
        &&& self.columns == before.columns
        &&& self.state.next_row_id == before.state.next_row_id
        &&& self.state.next_page_id == before.state.next_page_id
        &&& self.state.free_space@ == before.state.free_space@
        &&& passing.finite()
        &&& done == Ok::<u64, CatalogError>(passing.len() as u64)
        &&& passing.len() <= u64::MAX
        &&& self.rows() == before.rows().remove_keys(passing)
    }
}

impl FileCatalog {
    /// Whether the catalog is `before` with nothing changed but the table at
    /// `at`, which has kept its name.
    pub open spec fn changed_at(&self, before: &FileCatalog, at: int) -> bool {
        &&& self.same_but_table(before, at)
        &&& 0 <= at < before.tables@.len()
        &&& self.tables@[at].name == before.tables@[at].name
    }

    /// Inserts a row of the given values into the table of the given name,
    /// as `TableStore::insert` does, and gives its row identifier.
    /// `TableDoesNotExist` where the catalog has no table of the name.
    pub fn insert(&mut self, table_name: &str, values: &Vec<ASTValue>) -> (done: Result<
        RowId,
        CatalogError,
    >)
        requires
            old(self).wf(),
        ensures
            final(self).wf(),
            match table_at(old(self).tables@, table_name@) {
                None => done is Err && done->Err_0.is_no_table(table_name@) && final(self).tables@
                    == old(self).tables@,
                Some(at) => final(self).changed_at(old(self), at) && final(self).tables@[at].after_insert(
                    &old(self).tables@[at],
                    value_views(values@),
                    done,
                ),
            },
    {
        match self.find_table(table_name) {
            Some(at) => self.tables[at].insert(values),
            None => Err(CatalogError::TableDoesNotExist { name: table_name.to_string() }),
        }
    }

    /// The rows of the table of the given name that pass the clause, each
    /// with the columns that were asked for, as `TableStore::select` gives
    /// them. `TableDoesNotExist` where the catalog has no table of the name.
    pub fn select(
        &self,
        table_name: &str,
        columns: &Vec<String>,
        where_clause: Option<&Condition>,
    ) -> (done: Result<ResultSet, CatalogError>)
        ensures
            match table_at(self.tables@, table_name@) {
                None => done is Err && done->Err_0.is_no_table(table_name@),
                Some(at) => self.tables@[at].selection(
                    name_views(columns@),
                    clause_of(where_clause),
                    done,
                ),
            },
    {
        match self.find_table(table_name) {
            Some(at) => self.tables[at].select(columns, where_clause),
            None => Err(CatalogError::TableDoesNotExist { name: table_name.to_string() }),
        }
    }

    /// Updates the rows of the table of the given name that pass the
    /// clause, as `TableStore::update_where` does, and gives their number.
    /// `TableDoesNotExist` where the catalog has no table of the name.
    pub fn update(
        &mut self,
        table_name: &str,
        assignments: &Vec<Assignment>,
        where_clause: Option<&Condition>,
    ) -> (done: Result<u64, CatalogError>)
        requires
            old(self).wf(),
        ensures
            final(self).wf(),
            match table_at(old(self).tables@, table_name@) {
                None => done is Err && done->Err_0.is_no_table(table_name@) && final(self).tables@
                    == old(self).tables@,
                Some(at) => final(self).changed_at(old(self), at) && final(self).tables@[at].after_update(
                    &old(self).tables@[at],
                    assignments@,
                    clause_of(where_clause),
                    done,
                ),
            },
    {
        match self.find_table(table_name) {
            Some(at) => self.tables[at].update_where(assignments, where_clause),
            None => Err(CatalogError::TableDoesNotExist { name: table_name.to_string() }),
        }
    }

    /// Deletes the rows of the table of the given name that pass the
    /// clause, as `TableStore::delete_where` does, and gives their number.
    /// `TableDoesNotExist` where the catalog has no table of the name.
    pub fn delete(&mut self, table_name: &str, where_clause: Option<&Condition>) -> (done: Result<
        u64,
        CatalogError,
    >)
        requires
            old(self).wf(),
        ensures
            final(self).wf(),
            match table_at(old(self).tables@, table_name@) {
                None => done is Err && done->Err_0.is_no_table(table_name@) && final(self).tables@
                    == old(self).tables@,
                Some(at) => final(self).changed_at(old(self), at) && final(self).tables@[at].after_delete(
                    &old(self).tables@[at],
                    clause_of(where_clause),
                    done,
                ),
            },
    {
        match self.find_table(table_name) {
            Some(at) => self.tables[at].delete_where(where_clause),
            None => Err(CatalogError::TableDoesNotExist { name: table_name.to_string() }),
        }
    }
}

} // verus!
