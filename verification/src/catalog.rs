//! The schema facts the planner reads.

#[allow(unused_imports)]
use vstd::prelude::*;
use crate::search::{least, least_from};
use crate::text::{eq_ignore_ascii_case, same_name};
use crate::types::{Affinity, Collation, DbIndex};

verus! {

/// How a generated column is kept.
#[derive(Debug, Clone, Copy, PartialEq, Eq, Structural)]
pub enum GeneratedKind {
    Virtual,
    Stored,
}

/// One column of a table.
#[derive(Debug, Clone)]
pub struct ColumnDef {
    pub name: String,
    pub affinity: Affinity,
    pub collation: Collation,
    /// Present for a generated column, whose value no statement may assign.
    pub generated: Option<GeneratedKind>,
}

/// A base table. `rowid_alias` is the column that an `INTEGER PRIMARY KEY` declaration
/// makes another name of the rowid.
#[derive(Debug, Clone)]
pub struct TableDef {
    pub name: String,
    pub db: DbIndex,
    pub columns: Vec<ColumnDef>,
    pub without_rowid: bool,
    pub rowid_alias: Option<usize>,
}

/// What a trigger sees of its table: the name and the columns.
pub struct TableShape {
    pub name: Seq<char>,
    pub columns: Seq<ColumnDef>,
}

/// How one key column of an index is ordered. `collation` is the name written in the index
/// definition, if there is one.
#[derive(Debug, Clone)]
pub struct KeyColumn {
    pub collation: Option<String>,
    pub descending: bool,
}

/// An index. The three lists run in parallel, one entry per key column; `key_exprs[i]` is
/// true where key column `i` is an expression rather than a column of the table.
#[derive(Debug, Clone)]
pub struct IndexDef {
    pub name: String,
    pub table: String,
    pub db: DbIndex,
    pub columns: Vec<String>,
    pub key_columns: Vec<KeyColumn>,
    pub key_exprs: Vec<bool>,
    pub partial: bool,
}

/// A `pragma_*` table-valued function: its name and its fixed output columns.
#[derive(Debug, Clone)]
pub struct PragmaFunction {
    pub name: String,
    pub columns: Vec<String>,
}

/// The tables and indexes of every namespace.
#[derive(Debug)]
pub struct Catalog {
    pub tables: Vec<TableDef>,
    pub indexes: Vec<IndexDef>,
}

/// The position of the first column named `name`.
pub open spec fn column_named(columns: Seq<ColumnDef>, name: Seq<char>) -> Option<int> {
    least(|i: int| same_name(columns[i].name@, name), columns.len() as int)
}

impl TableDef {
    /// The name and the columns.
    pub open spec fn shape(self) -> TableShape {
        TableShape { name: self.name@, columns: self.columns@ }
    }

    /// The register of the column named `name` in a row of this table: its position, or the
    /// register after the columns where it is an alias of the rowid.
    pub open spec fn register_of(self, name: Seq<char>) -> Option<int> {
        match column_named(self.columns@, name) {
            Some(i) => if self.rowid_alias == Some(i as usize) {
                Some(self.columns@.len() as int)
            } else {
                Some(i)
            },
            None => None,
        }
    }

    /// The position of the first column named `name`, up to ASCII case.
    pub fn column_position(&self, name: &str) -> (r: Option<usize>)
        ensures
            match (r, column_named(self.columns@, name@)) {
                (Some(i), Some(k)) => i == k && i < self.columns@.len(),
                (None, None) => true,
                _ => false,
            },
    {
        let ghost p = |i: int| same_name(self.columns@[i].name@, name@);
        let mut i: usize = 0;
        while i < self.columns.len()
            invariant
                i <= self.columns.len(),
                p == (|i: int| same_name(self.columns@[i].name@, name@)),
                least(p, self.columns@.len() as int) == least_from(
                    p,
                    i as int,
                    self.columns@.len() as int,
                ),
            decreases self.columns.len() - i,
        {
            if eq_ignore_ascii_case(self.columns[i].name.as_str(), name) {
                assert(p(i as int));
                return Some(i);
            }
            assert(!p(i as int));
            i = i + 1;
        }
        None
    }

    /// The register of the column named `name` in a row of this table.
    pub fn col_reg(&self, name: &str) -> (r: Option<usize>)
        ensures
            match (r, self.register_of(name@)) {
                (Some(i), Some(k)) => i == k,
                (None, None) => true,
                _ => false,
            },
    {
        match self.column_position(name) {
            Some(i) => match self.rowid_alias {
                Some(alias) => if alias == i {
                    Some(self.columns.len())
                } else {
                    Some(i)
                },
                None => Some(i),
            },
            None => None,
        }
    }
}

impl KeyColumn {
    /// Whether the key column is ordered bytewise, as every b-tree is.
    pub open spec fn binary(self) -> bool {
        match self.collation {
            Some(name) => same_name(name@, "BINARY"@),
            None => true,
        }
    }

    /// Whether the key column is ordered bytewise.
    pub fn is_binary(&self) -> (r: bool)
        ensures
            r == self.binary(),
    {
        match &self.collation {
            Some(name) => eq_ignore_ascii_case(name.as_str(), "BINARY"),
            None => true,
        }
    }
}

/// The position of the table `name` of namespace `db`.
pub open spec fn table_at(tables: Seq<TableDef>, db: DbIndex, name: Seq<char>) -> Option<int> {
    least(|i: int| tables[i].db == db && same_name(tables[i].name@, name), tables.len() as int)
}

/// The position of the index `name` of namespace `db`.
pub open spec fn index_at(indexes: Seq<IndexDef>, db: DbIndex, name: Seq<char>) -> Option<int> {
    least(|i: int| indexes[i].db == db && same_name(indexes[i].name@, name), indexes.len() as int)
}

impl IndexDef {
    /// Whether this is an index on the table `name` of namespace `db`.
    pub open spec fn is_on(self, db: DbIndex, name: Seq<char>) -> bool {
        self.db == db && same_name(self.table@, name)
    }

    /// Whether this is an index on the table `name` of namespace `db`.
    pub fn on_table(&self, db: DbIndex, name: &str) -> (r: bool)
        ensures
            r == self.is_on(db, name@),
    {
        self.db == db && eq_ignore_ascii_case(self.table.as_str(), name)
    }
}

impl Catalog {
    /// The table `name` of namespace `db`.
    pub fn table_in(&self, db: DbIndex, name: &str) -> (r: Option<&TableDef>)
        ensures
            match (r, table_at(self.tables@, db, name@)) {
                (Some(t), Some(k)) => 0 <= k < self.tables@.len() && *t == self.tables@[k],
                (None, None) => true,
                _ => false,
            },
    {
        let ghost p = |i: int| self.tables@[i].db == db && same_name(self.tables@[i].name@, name@);
        let mut i: usize = 0;
        while i < self.tables.len()
            invariant
                i <= self.tables.len(),
                p == (|i: int|
                    self.tables@[i].db == db && same_name(self.tables@[i].name@, name@)),
                least(p, self.tables@.len() as int) == least_from(
                    p,
                    i as int,
                    self.tables@.len() as int,
                ),
            decreases self.tables.len() - i,
        {
            if self.tables[i].db == db && eq_ignore_ascii_case(self.tables[i].name.as_str(), name) {
                assert(p(i as int));
                return Some(&self.tables[i]);
            }
            assert(!p(i as int));
            i = i + 1;
        }
        None
    }

    /// The index `name` of namespace `db`.
    pub fn index_in(&self, db: DbIndex, name: &str) -> (r: Option<&IndexDef>)
        ensures
            match (r, index_at(self.indexes@, db, name@)) {
                (Some(x), Some(k)) => 0 <= k < self.indexes@.len() && *x == self.indexes@[k],
                (None, None) => true,
                _ => false,
            },
    {
        let ghost p = |i: int| self.indexes@[i].db == db && same_name(self.indexes@[i].name@, name@);
        let mut i: usize = 0;
        while i < self.indexes.len()
            invariant
                i <= self.indexes.len(),
                p == (|i: int|
                    self.indexes@[i].db == db && same_name(self.indexes@[i].name@, name@)),
                least(p, self.indexes@.len() as int) == least_from(
                    p,
                    i as int,
                    self.indexes@.len() as int,
                ),
            decreases self.indexes.len() - i,
        {
            if self.indexes[i].db == db && eq_ignore_ascii_case(
                self.indexes[i].name.as_str(),
                name,
            ) {
                assert(p(i as int));
                return Some(&self.indexes[i]);
            }
            assert(!p(i as int));
            i = i + 1;
        }
        None
    }
}

} // verus!
