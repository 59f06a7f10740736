//! The catalog in memory: which database is in use, and its tables with
//! their heaps. Files are read and written elsewhere; what is read is handed
//! in, and what is to be written is handed out.

use vstd::prelude::*;
use vstd::string::*;
use crate::error::CatalogError;
use crate::meta_codec::{encode_meta, meta_blob};
use crate::names::{database_name_bytes, ident_bytes, is_valid_database_name, is_valid_ident};
use crate::record::Record;
use crate::schema_codec::{encode_schema, schema_blob};
use crate::lexer::chars_of;
use crate::store::TableStore;
use crate::text::string_from_chars;
use crate::text::{ascending, name_bag, sort_texts, str_eq};
use crate::types::{column_views, Column, DataType, RowId, TupleLoc};

verus! {

/// The catalog of one session.
pub struct FileCatalog {
    /// The directory under which the databases lie.
    pub root_dir: String,
    /// The database in use, if one is.
    pub current_db: Option<String>,
    /// The tables of the database in use, in the order in which they were
    /// registered.
    pub tables: Vec<TableStore>,
}

/// The path of the directory of a table: `<root>/<database>/tables/<table>`.
pub open spec fn table_path_text(root: Seq<char>, db: Seq<char>, name: Seq<char>) -> Seq<char> {
    root + seq!['/'] + db + seq!['/', 't', 'a', 'b', 'l', 'e', 's', '/'] + name
}

/// Whether a column of a schema has the type `Null`, which is the type of
/// no column: a schema blob has no code for it.
pub open spec fn has_null_type(cols: Seq<crate::types::ColumnView>) -> bool {
    exists|i: int| 0 <= i < cols.len() && (#[trigger] cols[i]).data_type == DataType::Null
}

/// Puts the characters of a text behind those that are there.
fn push_text(chars: &mut Vec<char>, text: &str)
    ensures
        final(chars)@ == old(chars)@ + text@,
{
    let more = chars_of(text);
    let mut i: usize = 0;
    while i < more.len()
        invariant
            i <= more@.len(),
            more@ == text@,
            chars@ == old(chars)@ + more@.subrange(0, i as int),
        decreases more@.len() - i,
    {
        chars.push(more[i]);
        assert(more@.subrange(0, i + 1) =~= more@.subrange(0, i as int).push(more@[i as int]));
        i += 1;
    }
    assert(more@.subrange(0, more@.len() as int) =~= more@);
}

/// Whether a column of a schema has the type `Null`.
fn some_null_type(columns: &[Column]) -> (found: bool)
    ensures
        found == has_null_type(column_views(columns@)),
{
    let ghost cols = column_views(columns@);
    let mut i: usize = 0;
    while i < columns.len()
        invariant
            i <= columns@.len(),
            cols == column_views(columns@),
            forall|j: int| 0 <= j < i ==> (#[trigger] cols[j]).data_type != DataType::Null,
        decreases columns@.len() - i,
    {
        assert(cols[i as int] == columns@[i as int]@);
        if matches!(columns[i].data_type, DataType::Null) {
            return true;
        }
        i += 1;
    }
    false
}

/// The first place at which a table of the given name stands, if one does.
pub open spec fn table_at(tables: Seq<TableStore>, name: Seq<char>) -> Option<int>
    decreases tables.len(),
{
    if tables.len() == 0 {
        None
    } else {
        match table_at(tables.drop_last(), name) {
            Some(at) => Some(at),
            None => if tables.last().name@ == name {
                Some(tables.len() - 1)
            } else {
                None
            },
        }
    }
}

/// Where `table_at` finds a table, the table has the name, and no table
/// before it has; where it finds none, no table has.
pub proof fn lemma_table_at(tables: Seq<TableStore>, name: Seq<char>)
    ensures
        match table_at(tables, name) {
            Some(at) => 0 <= at < tables.len() && tables[at].name@ == name && forall|j: int|
                0 <= j < at ==> (#[trigger] tables[j]).name@ != name,
            None => forall|j: int| 0 <= j < tables.len() ==> (#[trigger] tables[j]).name@ != name,
        },
    decreases tables.len(),
{
    if tables.len() > 0 {
        lemma_table_at(tables.drop_last(), name);
        match table_at(tables.drop_last(), name) {
            Some(at) => {
                assert(tables.drop_last()[at] == tables[at]);
                assert forall|j: int| 0 <= j < at implies (#[trigger] tables[j]).name@ != name by {
                    assert(tables.drop_last()[j] == tables[j]);
                }
            },
            None => {
                assert forall|j: int| 0 <= j < tables.len() - 1 implies (
                #[trigger] tables[j]).name@ != name by {
                    assert(tables.drop_last()[j] == tables[j]);
                }
            },
        }
    }
}

impl FileCatalog {
    /// Whether the catalog is well formed: each of its tables is, and no two
    /// have the same name.
    pub open spec fn wf(&self) -> bool {
        &&& forall|i: int| 0 <= i < self.tables@.len() ==> (#[trigger] self.tables@[i]).wf()
        &&& forall|i: int, j: int|
            0 <= i < j < self.tables@.len() ==> (#[trigger] self.tables@[i]).name@ != (
            #[trigger] self.tables@[j]).name@
    }

    /// Whether the catalog is well formed.
    pub fn check(&self) -> (ok: bool)
        ensures
            ok == self.wf(),
    {
        let n = self.tables.len();
        let mut i: usize = 0;
        while i < n
            invariant
                i <= n,
                n == self.tables@.len(),
                forall|a: int| 0 <= a < i ==> (#[trigger] self.tables@[a]).wf(),
                forall|a: int, b: int|
                    0 <= a < b < i ==> (#[trigger] self.tables@[a]).name@ != (
                    #[trigger] self.tables@[b]).name@,
            decreases n - i,
        {
            if !self.tables[i].check() {
                return false;
            }
            let mut j: usize = 0;
            while j < i
                invariant
                    j <= i,
                    i < n,
                    n == self.tables@.len(),
                    forall|a: int|
                        0 <= a < j ==> (#[trigger] self.tables@[a]).name@ != self.tables@[i as int].name@,
                decreases i - j,
            {
                if str_eq(self.tables[j].name.as_str(), self.tables[i].name.as_str()) {
                    return false;
                }
                j += 1;
            }
            i += 1;
        }
        true
    }

    /// A catalog with no database in use.
    pub fn new(root_dir: String) -> (catalog: FileCatalog)
        ensures
            catalog.wf(),
            catalog.root_dir == root_dir,
            catalog.current_db is None,
            catalog.tables@.len() == 0,
    {
        FileCatalog { root_dir, current_db: None, tables: Vec::new() }
    }

    /// Checks the name of a database that is to be created and gives the
    /// metadata blob to write for it; `InvalidName` for a name that no
    /// database may have.
    pub fn plan_database(name: &str, created_at: u64) -> (plan: Result<Vec<u8>, CatalogError>)
        ensures
            match plan {
                Ok(blob) => database_name_bytes(name.spec_bytes()) && blob@ == meta_blob(
                    name@,
                    created_at,
                    0,
                ),
                Err(e) => !database_name_bytes(name.spec_bytes()) && e.is_invalid_name(name@),
            },
    {
        if !is_valid_database_name(name) {
            return Err(CatalogError::InvalidName { name: name.to_string() });
        }
        Ok(encode_meta(name, created_at, 0))
    }

    /// Takes a database into use: the catalog then has no tables, until
    /// they are registered.
    pub fn select_database(&mut self, name: &str)
        ensures
            final(self).wf(),
            final(self).current_db matches Some(current) && current@ == name@,
            final(self).tables@.len() == 0,
            final(self).root_dir == old(self).root_dir,
    {
        self.current_db = Some(name.to_string());
        self.tables = Vec::new();
    }

    /// The place of the table of the given name among the tables.
    pub fn find_table(&self, name: &str) -> (found: Option<usize>)
        ensures
            match found {
                Some(at) => table_at(self.tables@, name@) == Some(at as int) && at
                    < self.tables@.len(),
                None => table_at(self.tables@, name@) is None,
            },
    {
        let mut i: usize = 0;
        while i < self.tables.len()
            invariant
                i <= self.tables@.len(),
                forall|j: int| 0 <= j < i ==> (#[trigger] self.tables@[j]).name@ != name@,
            decreases self.tables@.len() - i,
        {
            if str_eq(self.tables[i].name.as_str(), name) {
                proof {
                    lemma_table_at(self.tables@, name@);
                }
                return Some(i);
            }
            i += 1;
        }
        proof {
            lemma_table_at(self.tables@, name@);
        }
        None
    }

    /// The table of the given name, if the catalog has one.
    pub fn get_table(&self, name: &str) -> (found: Option<&TableStore>)
        ensures
            match found {
                Some(table) => table_at(self.tables@, name@) matches Some(at) && *table
                    == self.tables@[at],
                None => table_at(self.tables@, name@) is None,
            },
    {
        match self.find_table(name) {
            Some(at) => Some(&self.tables[at]),
            None => None,
        }
    }

    /// The name of the database in use, and no name where none is.
    pub open spec fn db_text(&self) -> Seq<char> {
        match self.current_db {
            Some(db) => db@,
            None => Seq::empty(),
        }
    }

    /// The path of the directory of a table of the database in use.
    pub fn table_path(&self, name: &str) -> (path: String)
        ensures
            path@ == table_path_text(self.root_dir@, self.db_text(), name@),
    {
        let mut chars: Vec<char> = Vec::new();
        push_text(&mut chars, self.root_dir.as_str());
        chars.push('/');
        match &self.current_db {
            Some(db) => {
                push_text(&mut chars, db.as_str());
            },
            None => {},
        }
        let ghost front = chars@;
        chars.push('/');
        chars.push('t');
        chars.push('a');
        chars.push('b');
        chars.push('l');
        chars.push('e');
        chars.push('s');
        chars.push('/');
        assert(chars@ =~= front + seq!['/', 't', 'a', 'b', 'l', 'e', 's', '/']);
        push_text(&mut chars, name);
        assert(chars@ =~= table_path_text(self.root_dir@, self.db_text(), name@));
        string_from_chars(&chars)
    }

    /// Checks that a table can be created and gives the schema blob to write
    /// for it. `NoCurrentDatabase` where no database is in use,
    /// `InvalidName` for a name that is no identifier, `AlreadyExists`,
    /// with the path of the table, for a name that a table of the catalog
    /// has, and `UnknownTypeCode` with code 0 for a column of the type
    /// `Null`, for which a schema blob has no code.
    pub fn plan_table(&self, name: &str, columns: &Vec<Column>) -> (plan: Result<
        Vec<u8>,
        CatalogError,
    >)
        ensures
            match plan {
                Ok(blob) => self.current_db is Some && ident_bytes(name.spec_bytes()) && table_at(
                    self.tables@,
                    name@,
                ) is None && !has_null_type(column_views(columns@)) && blob@ == schema_blob(
                    name@,
                    column_views(columns@),
                ),
                Err(e) => if self.current_db is None {
                    e == CatalogError::NoCurrentDatabase
                } else if !ident_bytes(name.spec_bytes()) {
                    e.is_invalid_name(name@)
                } else if table_at(self.tables@, name@) is Some {
                    e.is_already_exists(
                        name@,
                        table_path_text(self.root_dir@, self.db_text(), name@),
                    )
                } else {
                    has_null_type(column_views(columns@)) && e == (CatalogError::UnknownTypeCode {
                        code: 0,
                    })
                },
            },
    {
        if self.current_db.is_none() {
            return Err(CatalogError::NoCurrentDatabase);
        }
        if !is_valid_ident(name) {
            return Err(CatalogError::InvalidName { name: name.to_string() });
        }
        if self.find_table(name).is_some() {
            return Err(
                CatalogError::AlreadyExists { name: name.to_string(), path: self.table_path(name) },
            );
        }
        if some_null_type(columns.as_slice()) {
            return Err(CatalogError::UnknownTypeCode { code: 0 });
        }
        Ok(encode_schema(name, columns.as_slice()))
    }

    /// Takes a table into the catalog, behind the tables that are there.
    /// `AlreadyExists` for a name that a table of the catalog has; the
    /// catalog is then not changed.
    pub fn register_table(&mut self, table: TableStore) -> (done: Result<(), CatalogError>)
        requires
            old(self).wf(),
            table.wf(),
        ensures
            final(self).wf(),
            final(self).current_db == old(self).current_db,
            final(self).root_dir == old(self).root_dir,
            match done {
                Ok(()) => table_at(old(self).tables@, table.name@) is None && final(self).tables@
                    == old(self).tables@.push(table),
                Err(e) => table_at(old(self).tables@, table.name@) is Some && final(self).tables@
                    == old(self).tables@ && e.is_already_exists(
                    table.name@,
                    table_path_text(old(self).root_dir@, old(self).db_text(), table.name@),
                ),
            },
    {
        if self.find_table(table.name.as_str()).is_some() {
            return Err(
                CatalogError::AlreadyExists {
                    name: table.name.clone(),
                    path: self.table_path(table.name.as_str()),
                },
            );
        }
        proof {
            lemma_table_at(self.tables@, table.name@);
        }
        self.tables.push(table);
        Ok(())
    }

    /// Whether the catalog is `before` with the table at `at` changed and
    /// every other table as it was.
    pub open spec fn same_but_table(&self, before: &FileCatalog, at: int) -> bool {
        &&& self.current_db == before.current_db
        &&& self.root_dir == before.root_dir
        &&& self.tables@.len() == before.tables@.len()
        &&& forall|i: int|
            0 <= i < self.tables@.len() && i != at ==> (#[trigger] self.tables@[i])
                == before.tables@[i]
    }

    /// Gives out the next row identifier of a table; `TableDoesNotExist`
    /// where the catalog has no table of the name.
    pub fn next_row_id(&mut self, table_name: &str) -> (given: Result<RowId, CatalogError>)
        requires
            old(self).wf(),
        ensures
            final(self).wf(),
            match given {
                Ok(row_id) => table_at(old(self).tables@, table_name@) matches Some(at) && row_id
                    == old(self).tables@[at].state.next_row_id && final(self).same_but_table(
                    old(self),
                    at,
                ) && final(self).tables@[at].name == old(self).tables@[at].name && final(
                    self).tables@[at].state.next_row_id == crate::recovery::id_after(row_id)
                    && final(self).tables@[at].pages == old(self).tables@[at].pages && final(
                    self).tables@[at].state.row_index == old(self).tables@[at].state.row_index
                    && final(self).tables@[at].state.free_space == old(
                    self).tables@[at].state.free_space && final(self).tables@[at].state.next_page_id
                    == old(self).tables@[at].state.next_page_id && final(self).tables@[at].columns
                    == old(self).tables@[at].columns,
                Err(e) => table_at(old(self).tables@, table_name@) is None && final(self).tables@
                    == old(self).tables@ && e.is_no_table(table_name@),
            },
    {
        match self.find_table(table_name) {
            Some(at) => {
                let row_id = self.tables[at].next_row_id();
                Ok(row_id)
            },
            None => Err(CatalogError::TableDoesNotExist { name: table_name.to_string() }),
        }
    }

    /// Where the live copy of a row of a table lies; nothing for a row that
    /// is not live and for a table that the catalog does not have.
    pub fn get_tuple_loc(&self, table_name: &str, row_id: RowId) -> (found: Option<TupleLoc>)
        ensures
            found == match table_at(self.tables@, table_name@) {
                Some(at) => if self.tables@[at].index().contains_key(row_id) {
                    Some(self.tables@[at].index()[row_id])
                } else {
                    None
                },
                None => None,
            },
    {
        match self.find_table(table_name) {
            Some(at) => self.tables[at].get_tuple_loc(row_id),
            None => None,
        }
    }

    /// The names of the tables of the database in use, in ascending order;
    /// `NoCurrentDatabase` where none is in use.
    pub fn list_tables(&self) -> (listed: Result<Vec<String>, CatalogError>)
        ensures
            match listed {
                Ok(names) => self.current_db is Some && ascending(names@) && name_bag(names@)
                    == Seq::new(self.tables@.len(), |i: int| self.tables@[i].name@).to_multiset(),
                Err(e) => self.current_db is None && e == CatalogError::NoCurrentDatabase,
            },
    {
        if self.current_db.is_none() {
            return Err(CatalogError::NoCurrentDatabase);
        }
        let mut names: Vec<String> = Vec::new();
        let mut i: usize = 0;
        while i < self.tables.len()
            invariant
                i <= self.tables@.len(),
                names@.len() == i,
                forall|j: int| 0 <= j < i ==> (#[trigger] names@[j])@ == self.tables@[j].name@,
            decreases self.tables@.len() - i,
        {
            names.push(self.tables[i].name.clone());
            i += 1;
        }
        assert(Seq::new(names@.len(), |i: int| names@[i]@) =~= Seq::new(
            self.tables@.len(),
            |i: int| self.tables@[i].name@,
        ));
        sort_texts(&mut names);
        Ok(names)
    }

    /// Puts names in ascending order of their bytes.
    pub fn sorted_names(names: Vec<String>) -> (listed: Vec<String>)
        ensures
            ascending(listed@),
            name_bag(listed@) == name_bag(names@),
    {
        let mut listed = names;
        sort_texts(&mut listed);
        listed
    }

    /// Whether every table but the one at `at` is well formed and no two
    /// tables have the same name.
    pub open spec fn wf_but(&self, at: int) -> bool {
        &&& forall|i: int|
            0 <= i < self.tables@.len() && i != at ==> (#[trigger] self.tables@[i]).wf()
        &&& forall|i: int, j: int|
            0 <= i < j < self.tables@.len() ==> (#[trigger] self.tables@[i]).name@ != (
            #[trigger] self.tables@[j]).name@
    }

    /// `TableStore::append_record` on the table of the given name: the row
    /// is written as a new version into the heap of the table. Where the row
    /// is new to the table, the table then has it beside the rows it had.
    /// `TableDoesNotExist` where the catalog has no table of the name.
    pub fn append_record(&mut self, table_name: &str, row_id: RowId, rec: &Record) -> (done:
        Result<TupleLoc, CatalogError>)
        requires
            old(self).wf(),
        ensures
            match table_at(old(self).tables@, table_name@) {
                None => done is Err && done->Err_0.is_no_table(table_name@) && final(self).tables@
                    == old(self).tables@ && final(self).current_db == old(self).current_db
                    && final(self).root_dir == old(self).root_dir,
                Some(at) => {
                    &&& final(self).same_but_table(old(self), at)
                    &&& final(self).wf_but(at)
                    &&& final(self).tables@[at].after_append(
                        &old(self).tables@[at],
                        row_id,
                        rec.entries(),
                        done,
                    )
                },
            },
    {
        match self.find_table(table_name) {
            Some(at) => self.tables[at].append_record(row_id, rec),
            None => Err(CatalogError::TableDoesNotExist { name: table_name.to_string() }),
        }
    }

    /// `TableStore::update_record` on the table of the given name: the
    /// record is written as the new version of the row, in place or
    /// elsewhere. Where the index of the table has `old_loc` for the row, the
    /// table then has the row with the new values and every other row as it
    /// was. `TableDoesNotExist` where the catalog has no table of the name.
    pub fn update_record(
        &mut self,
        table_name: &str,
        old_loc: TupleLoc,
        row_id: RowId,
        rec: &Record,
    ) -> (done: Result<TupleLoc, CatalogError>)
        requires
            old(self).wf(),
        ensures
            match table_at(old(self).tables@, table_name@) {
                None => done is Err && done->Err_0.is_no_table(table_name@) && final(self).tables@
                    == old(self).tables@ && final(self).current_db == old(self).current_db
                    && final(self).root_dir == old(self).root_dir,
                Some(at) => {
                    &&& final(self).same_but_table(old(self), at)
                    &&& final(self).wf_but(at)
                    &&& final(self).tables@[at].after_update_record(
                        &old(self).tables@[at],
                        old_loc,
                        row_id,
                        rec.entries(),
                        done,
                    )
                },
            },
    {
        match self.find_table(table_name) {
            Some(at) => self.tables[at].update_record(old_loc, row_id, rec),
            None => Err(CatalogError::TableDoesNotExist { name: table_name.to_string() }),
        }
    }

    /// `TableStore::tombstone` on the table of the given name: the slot is
    /// tombstoned and the row that lay there is out of the table. The table
    /// stays well formed where the location is written as the index writes
    /// it, with segment 1 and flags 0. `TableDoesNotExist` where the
    /// catalog has no table of the name.
    pub fn tombstone(&mut self, table_name: &str, old_loc: TupleLoc) -> (done: Result<
        (),
        CatalogError,
    >)
        requires
            old(self).wf(),
        ensures
            match table_at(old(self).tables@, table_name@) {
                None => done is Err && done->Err_0.is_no_table(table_name@) && final(self).tables@
                    == old(self).tables@ && final(self).current_db == old(self).current_db
                    && final(self).root_dir == old(self).root_dir,
                Some(at) => {
                    &&& final(self).same_but_table(old(self), at)
                    &&& final(self).wf_but(at)
                    &&& final(self).tables@[at].after_tombstone(&old(self).tables@[at], old_loc, done)
                },
            },
    {
        match self.find_table(table_name) {
            Some(at) => self.tables[at].tombstone(old_loc),
            None => Err(CatalogError::TableDoesNotExist { name: table_name.to_string() }),
        }
    }
}

} // verus!
