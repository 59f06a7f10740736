//! Opening what was read from disk: the names of the databases under a
//! root, from their metadata files, and the tables of a database, from
//! their schema files and heap segments.

use vstd::prelude::*;
use crate::catalog::{lemma_table_at, table_at, table_path_text, FileCatalog};
use crate::error::{CatalogError, PageError};
use crate::meta_codec::{decode_meta, meta_decoding};
use crate::recovery::{follows, has_stale, index_of, recovery};
use crate::repair::{reopen, settled_heap};
use crate::schema_codec::{decode_schema, schema_decoding};
use crate::store::{heap_view, rows_of, TableStore};
use crate::text::{ascending, name_bag, sort_texts};

verus! {

/// A metadata file as it was read.
#[derive(Debug, Clone)]
pub struct MetaFile {
    pub path: String,
    pub bytes: Vec<u8>,
}

/// The files of a table as they were read: the name of its directory and
/// the path to it, its schema file, and the pages of its heap segment.
#[derive(Debug, Clone)]
pub struct TableFiles {
    pub name: String,
    pub path: String,
    pub schema: Vec<u8>,
    pub pages: Vec<Vec<u8>>,
}

/// The first of the first `n` metadata files that cannot be read.
pub open spec fn first_bad(files: Seq<MetaFile>, n: nat) -> Option<int>
    decreases n,
{
    if n == 0 {
        None
    } else {
        match first_bad(files, (n - 1) as nat) {
            Some(at) => Some(at),
            None => if meta_decoding(files[n - 1].bytes@) is Err {
                Some(n - 1)
            } else {
                None
            },
        }
    }
}

/// A file that `first_bad` has found stays found when more files are
/// looked at.
pub proof fn lemma_first_bad_stays(files: Seq<MetaFile>, n: nat, m: nat)
    requires
        n <= m,
        first_bad(files, n) is Some,
    ensures
        first_bad(files, m) == first_bad(files, n),
    decreases m,
{
    if n < m {
        lemma_first_bad_stays(files, n, (m - 1) as nat);
    }
}

/// The names that the metadata files hold, file by file.
pub open spec fn stored_names(files: Seq<MetaFile>) -> Seq<Seq<char>> {
    Seq::new(files.len(), |i: int| meta_decoding(files[i].bytes@)->Ok_0.name)
}

/// Whether table `i` of what was read can be loaded: its schema and its
/// heap can be read, and no table before it has its name.
pub open spec fn loadable(files: Seq<TableFiles>, i: int) -> bool {
    let file = files[i];
    &&& schema_decoding(file.schema@) is Ok
    &&& file.pages@.len() <= u32::MAX
    &&& recovery(
        heap_view(file.pages@),
        schema_decoding(file.schema@)->Ok_0.1,
        file.pages@.len(),
    ) is Ok
    &&& forall|j: int| 0 <= j < i ==> (#[trigger] files[j]).name@ != file.name@
}

/// Whether `e` is the error of table `i` of what was read: that of its
/// schema file as it is; that of its heap as the cause of an
/// `InvalidMetadata` with the path of the table; `AlreadyExists` for a name
/// that a table before it has, with the path `<root>/<db>/tables/<name>`.
pub open spec fn load_fault(
    files: Seq<TableFiles>,
    i: int,
    e: CatalogError,
    root: Seq<char>,
    db: Seq<char>,
) -> bool {
    let file = files[i];
    match schema_decoding(file.schema@) {
        Err(cause) => e == cause,
        Ok((_, cols)) => if file.pages@.len() > u32::MAX {
            e.is_invalid_metadata(file.path@, CatalogError::Page(PageError::CorruptPage))
        } else {
            match recovery(heap_view(file.pages@), cols, file.pages@.len()) {
                Err(cause) => e.is_invalid_metadata(file.path@, cause),
                Ok(_) => e.is_already_exists(file.name@, table_path_text(root, db, file.name@)),
            }
        },
    }
}

/// Whether a table is what its files give: it has the name of its
/// directory and the columns of its schema file, it is well formed, its
/// index has for each row the last live slot of the heap that holds it, its
/// rows are what the heap holds there, and its pages are those of the heap
/// with the superseded versions tombstoned.
pub open spec fn is_reopened(store: TableStore, file: TableFiles) -> bool {
    let heap0 = heap_view(file.pages@);
    let cols = schema_decoding(file.schema@)->Ok_0.1;
    &&& store.name@ == file.name@
    &&& store.cols() == cols
    &&& store.wf()
    &&& index_of(store.index(), recovery(heap0, cols, file.pages@.len())->Ok_0)
    &&& store.rows() == rows_of(heap0, cols, store.index())
    &&& store.heap() == settled_heap(heap0, store.index())
    &&& follows(heap0, store.state.next_row_id)
    &&& !has_stale(heap0) ==> store.heap() == heap0
}

/// Whether the heap of one of the first `n` tables holds a version of a row
/// that a later version has superseded.
pub open spec fn any_stale(files: Seq<TableFiles>, n: nat) -> bool
    decreases n,
{
    n > 0 && (any_stale(files, (n - 1) as nat) || has_stale(heap_view(files[n - 1].pages@)))
}

/// Whether table `i` is what the files of table `i` give, which can be
/// loaded.
pub open spec fn loaded_at(tables: Seq<TableStore>, files: Seq<TableFiles>, i: int) -> bool {
    loadable(files, i) && is_reopened(tables[i], files[i])
}

/// Whether the first `n` tables are what the first `n` of the files give,
/// each of which can be loaded.
#[verifier::opaque]
pub open spec fn loaded_upto(tables: Seq<TableStore>, files: Seq<TableFiles>, n: int) -> bool {
    forall|i: int| 0 <= i < n ==> #[trigger] loaded_at(tables, files, i)
}

/// What `loaded_upto` says of one table.
pub proof fn lemma_loaded_get(tables: Seq<TableStore>, files: Seq<TableFiles>, n: int, i: int)
    requires
        loaded_upto(tables, files, n),
        0 <= i < n,
    ensures
        loadable(files, i),
        is_reopened(tables[i], files[i]),
{
    reveal(loaded_upto);
    assert(loaded_at(tables, files, i));
}

/// No table is loaded at first, and a table that its files give, put behind
/// those that are loaded, is loaded too.
pub proof fn lemma_loaded_step(
    tables: Seq<TableStore>,
    files: Seq<TableFiles>,
    n: int,
    store: TableStore,
)
    requires
        loaded_upto(tables, files, n),
        tables.len() == n,
        loadable(files, n),
        is_reopened(store, files[n]),
    ensures
        loaded_upto(tables, files, 0),
        loaded_upto(tables.push(store), files, n + 1),
{
    reveal(loaded_upto);
    assert forall|i: int| 0 <= i < n + 1 implies #[trigger] loaded_at(
        tables.push(store),
        files,
        i,
    ) by {
        if i < n {
            assert(loaded_at(tables, files, i));
            assert(tables.push(store)[i] == tables[i]);
        }
    }
}

impl FileCatalog {
    /// The names of the databases whose metadata files were read, in
    /// ascending order. `InvalidMetadata` with the path of the first file
    /// that cannot be read, and with its error as the cause.
    pub fn list_databases(files: &Vec<MetaFile>) -> (listed: Result<Vec<String>, CatalogError>)
        ensures
            match listed {
                Ok(names) => first_bad(files@, files@.len()) is None && ascending(names@)
                    && name_bag(names@) == stored_names(files@).to_multiset(),
                Err(e) => first_bad(files@, files@.len()) matches Some(at) && e.is_invalid_metadata(
                    files@[at].path@,
                    meta_decoding(files@[at].bytes@)->Err_0,
                ),
            },
    {
        let mut names: Vec<String> = Vec::new();
        let mut i: usize = 0;
        while i < files.len()
            invariant
                i <= files@.len(),
                first_bad(files@, i as nat) is None,
                names@.len() == i,
                forall|j: int|
                    0 <= j < i ==> (#[trigger] names@[j])@ == meta_decoding(
                        files@[j].bytes@,
                    )->Ok_0.name,
            decreases files@.len() - i,
        {
            match decode_meta(files[i].bytes.as_slice()) {
                Ok(decoded) => {
                    names.push(decoded.name);
                },
                Err(source) => {
                    proof {
                        lemma_first_bad_stays(files@, (i + 1) as nat, files@.len());
                    }
                    return Err(
                        CatalogError::InvalidMetadata {
                            path: files[i].path.clone(),
                            source: Box::new(source),
                        },
                    );
                },
            }
            i += 1;
        }
        let ghost unsorted = names@;
        sort_texts(&mut names);
        proof {
            assert(Seq::new(unsorted.len(), |k: int| unsorted[k]@) =~= stored_names(files@));
        }
        Ok(names)
    }

    /// Makes a database the one in use and loads its tables from what was
    /// read of them, in the order given: each table is rebuilt from its
    /// schema file and its heap, and the versions of rows that an update
    /// left superseded are tombstoned. Says whether any were, that is,
    /// whether pages differ from what was read. `InvalidMetadata` with the
    /// path of the metadata file where that cannot be read: nothing is then
    /// changed. The error of the first table that cannot be loaded
    /// otherwise: the tables before it are then loaded.
    #[verifier::loop_isolation(false)]
    pub fn use_database(&mut self, name: &str, metadata: &MetaFile, tables: Vec<TableFiles>) -> (done:
        Result<bool, CatalogError>)
        ensures
            final(self).root_dir == old(self).root_dir,
            match meta_decoding(metadata.bytes@) {
                Err(cause) => {
                    &&& done matches Err(e) && e.is_invalid_metadata(metadata.path@, cause)
                    &&& final(self).current_db == old(self).current_db
                    &&& final(self).tables@ == old(self).tables@
                },
                Ok(_) => {
                    let loaded = final(self).tables@;
                    &&& final(self).wf()
                    &&& final(self).current_db matches Some(current) && current@ == name@
                    &&& loaded.len() <= tables@.len()
                    &&& loaded_upto(loaded, tables@, loaded.len() as int)
                    &&& match done {
                        Ok(mended) => loaded.len() == tables@.len() && mended == any_stale(
                            tables@,
                            tables@.len(),
                        ),
                        Err(e) => loaded.len() < tables@.len() && !loadable(
                            tables@,
                            loaded.len() as int,
                        ) && load_fault(
                            tables@,
                            loaded.len() as int,
                            e,
                            final(self).root_dir@,
                            name@,
                        ),
                    }
                },
            },
    {
        match decode_meta(metadata.bytes.as_slice()) {
            Ok(_) => {},
            Err(source) => {
                return Err(
                    CatalogError::InvalidMetadata {
                        path: metadata.path.clone(),
                        source: Box::new(source),
                    },
                );
            },
        }
        self.select_database(name);
        let ghost files = tables@;
        let total = tables.len();
        let mut rest = tables;
        let mut mended = false;
        let mut i: usize = 0;
        proof {
            reveal(loaded_upto);
        }
        while rest.len() > 0
            invariant
                self.wf(),
                self.root_dir == old(self).root_dir,
                self.current_db matches Some(current) && current@ == name@,
                i <= files.len(),
                total == files.len(),
                rest@ == files.subrange(i as int, files.len() as int),
                self.tables@.len() == i,
                loaded_upto(self.tables@, files, i as int),
                mended == any_stale(files, i as nat),
            decreases rest@.len(),
        {
            assert(i < files.len());
            let file = rest.remove(0);
            let ghost given = file;
            assert(given == files[i as int]);
            assert(rest@ =~= files.subrange(i + 1, files.len() as int));
            let ghost before = self.tables@;
            let columns = match decode_schema(file.schema.as_slice()) {
                Ok((_, columns)) => columns,
                Err(e) => {
                    return Err(e);
                },
            };
            let (store, stale) = match reopen(file.name, columns, file.pages) {
                Ok(found) => found,
                Err(e) => {
                    return Err(CatalogError::InvalidMetadata { path: file.path, source: Box::new(e) });
                },
            };
            proof {
                lemma_table_at(before, given.name@);
                assert(is_reopened(store, given));
            }
            match self.register_table(store) {
                Ok(()) => {},
                Err(e) => {
                    proof {
                        let at = table_at(before, given.name@)->Some_0;
                        lemma_loaded_get(before, files, i as int, at);
                        assert(files[at].name@ == given.name@);
                    }
                    return Err(e);
                },
            }
            proof {
                assert forall|j: int| 0 <= j < i implies (#[trigger] files[j]).name@
                    != given.name@ by {
                    lemma_loaded_get(before, files, i as int, j);
                    assert(before[j].name@ != given.name@);
                }
                assert(loadable(files, i as int));
                lemma_loaded_step(before, files, i as int, store);
            }
            mended = mended || stale;
            i += 1;
        }
        Ok(mended)
    }
}

} // verus!
