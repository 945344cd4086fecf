//! The catalog: which tables exist, and what their columns are.

use crate::sql::ast::{clone_columns, column_views, Column, ColumnView};
use vstd::prelude::*;

verus! {

/// The columns of a table, in order.
#[derive(Debug)]
pub struct Schema {
    pub columns: Vec<Column>,
}

impl View for Schema {
    type V = Seq<ColumnView>;

    open spec fn view(&self) -> Seq<ColumnView> {
        column_views(self.columns@)
    }
}

impl Clone for Schema {
    fn clone(&self) -> (copy: Schema)
        ensures
            copy@ == self@,
    {
        Schema { columns: clone_columns(&self.columns) }
    }
}

impl Schema {
    /// Index of the column with a name; of the first, should several have
    /// it.
    pub fn get_col_idx(&self, col_name: &str) -> (idx: Option<usize>)
        ensures
            match idx {
                Some(k) => {
                    &&& k < self@.len()
                    &&& self@[k as int].name == col_name@
                    &&& forall|j: int| 0 <= j < k ==> self@[j].name != col_name@
                },
                None => forall|j: int| 0 <= j < self@.len() ==> self@[j].name != col_name@,
            },
    {
        let wanted = String::from_str(col_name);
        let mut k: usize = 0;
        while k < self.columns.len()
            invariant
                k <= self.columns@.len(),
                wanted@ == col_name@,
                forall|j: int| 0 <= j < k ==> self@[j].name != col_name@,
            decreases self.columns@.len() - k,
        {
            if self.columns[k].name == wanted {
                return Some(k);
            }
            k = k + 1;
        }
        None
    }
}

/// A table: its name and its schema.
#[derive(Debug)]
pub struct TableInfo {
    pub name: String,
    pub schema: Schema,
}

/// A table as a mathematical value.
pub struct TableView {
    pub name: Seq<char>,
    pub columns: Seq<ColumnView>,
}

impl View for TableInfo {
    type V = TableView;

    open spec fn view(&self) -> TableView {
        TableView { name: self.name@, columns: self.schema@ }
    }
}

impl Clone for TableInfo {
    fn clone(&self) -> (copy: TableInfo)
        ensures
            copy@ == self@,
    {
        TableInfo { name: self.name.clone(), schema: self.schema.clone() }
    }
}

/// The message of the error for a table that is there already.
pub open spec fn exists_message(name: Seq<char>) -> Seq<char> {
    "Table '"@ + name + "' already exists"@
}

/// The tables of a database, by name. No two tables share a name, and a
/// table, once created, stays.
#[derive(Debug)]
pub struct Catalog {
    tables: Vec<TableInfo>,
    next_table_id: usize,
}

impl View for Catalog {
    type V = Map<Seq<char>, TableView>;

    closed spec fn view(&self) -> Map<Seq<char>, TableView> {
        Map::new(
            |name: Seq<char>| exists|k: int| 0 <= k < self.tables@.len() && self.tables@[k].name@ == name,
            |name: Seq<char>|
                self.tables@[choose|k: int|
                    0 <= k < self.tables@.len() && self.tables@[k].name@ == name]@,
        )
    }
}

impl Default for Catalog {
    fn default() -> (catalog: Catalog)
        ensures
            catalog@ == Map::<Seq<char>, TableView>::empty(),
            catalog.table_count() == 0,
    {
        Catalog::new()
    }
}

impl Catalog {
    #[verifier::type_invariant]
    spec fn inv(&self) -> bool {
        &&& self.next_table_id == self.tables@.len()
        &&& forall|i: int, j: int|
            0 <= i < j < self.tables@.len() ==> self.tables@[i].name@ != self.tables@[j].name@
    }

    /// Number of tables created so far.
    pub closed spec fn table_count(&self) -> nat {
        self.tables@.len()
    }

    /// An empty catalog.
    pub fn new() -> (catalog: Catalog)
        ensures
            catalog@ == Map::<Seq<char>, TableView>::empty(),
            catalog.table_count() == 0,
    {
        let catalog = Catalog { tables: Vec::new(), next_table_id: 0 };
        assert(catalog@ =~= Map::<Seq<char>, TableView>::empty());
        catalog
    }

    /// Position of the table with a name.
    fn find(&self, name: &str) -> (at: Option<usize>)
        ensures
            match at {
                Some(k) => k < self.tables@.len() && self.tables@[k as int].name@ == name@,
                None => forall|j: int| 0 <= j < self.tables@.len() ==> self.tables@[j].name@ != name@,
            },
    {
        let wanted = String::from_str(name);
        let mut k: usize = 0;
        while k < self.tables.len()
            invariant
                k <= self.tables@.len(),
                wanted@ == name@,
                forall|j: int| 0 <= j < k ==> self.tables@[j].name@ != name@,
            decreases self.tables@.len() - k,
        {
            if self.tables[k].name == wanted {
                return Some(k);
            }
            k = k + 1;
        }
        None
    }

    /// Creates a table. Fails, and changes nothing, when a table of that
    /// name exists.
    pub fn create_table(&mut self, name: String, columns: Vec<Column>) -> (created: Result<
        (),
        String,
    >)
        ensures
            created is Ok <==> !old(self)@.contains_key(name@),
            created is Ok ==> final(self)@ == old(self)@.insert(
                name@,
                TableView { name: name@, columns: column_views(columns@) },
            ) && final(self).table_count() == old(self).table_count() + 1,
            created matches Err(message) ==> final(self)@ == old(self)@ && final(self).table_count()
                == old(self).table_count() && message@ == exists_message(name@),
    {
        proof {
            use_type_invariant(&*self);
        }
        let ghost before = self@;
        let ghost tables = self.tables@;
        match self.find(name.as_str()) {
            Some(k) => {
                assert(before.contains_key(name@));
                let message = String::from_str("Table '").concat(name.as_str()).concat(
                    "' already exists",
                );
                return Err(message);
            },
            None => {},
        }
        let ghost name_view = name@;
        let ghost table_view = TableView { name: name@, columns: column_views(columns@) };
        let table_info = TableInfo { name, schema: Schema { columns } };
        let mut taken = Catalog::new();
        std::mem::swap(self, &mut taken);
        let Catalog { tables: mut grown, next_table_id: _ } = taken;
        grown.push(table_info);
        let count: usize = grown.len();
        *self = Catalog { tables: grown, next_table_id: count };
        proof {
            let after = self@;
            assert forall|n: Seq<char>| after.contains_key(n) <==> before.insert(
                name_view,
                table_view,
            ).contains_key(n) by {
                if after.contains_key(n) {
                    let k = choose|k: int| 0 <= k < self.tables@.len() && self.tables@[k].name@ == n;
                    if k < tables.len() {
                        assert(tables[k].name@ == n);
                    }
                }
                if before.contains_key(n) {
                    let k = choose|k: int| 0 <= k < tables.len() && tables[k].name@ == n;
                    assert(self.tables@[k].name@ == n);
                }
                if n == name_view {
                    assert(self.tables@[tables.len() as int].name@ == n);
                }
            }
            assert forall|n: Seq<char>| after.contains_key(n) implies after[n] == before.insert(
                name_view,
                table_view,
            )[n] by {
                let k = choose|k: int| 0 <= k < self.tables@.len() && self.tables@[k].name@ == n;
                if n != name_view {
                    let j = choose|j: int| 0 <= j < tables.len() && tables[j].name@ == n;
                    assert(self.tables@[j].name@ == n);
                    assert(k == j);
                } else {
                    assert(k == tables.len());
                }
            }
            assert(after =~= before.insert(name_view, table_view));
        }
        Ok(())
    }

    /// The table with a name, if it exists.
    pub fn get_table(&self, name: &str) -> (table: Option<&TableInfo>)
        ensures
            match table {
                Some(info) => self@.contains_key(name@) && info@ == self@[name@],
                None => !self@.contains_key(name@),
            },
    {
        proof {
            use_type_invariant(self);
        }
        match self.find(name) {
            Some(k) => {
                proof {
                    let j = choose|j: int| 0 <= j < self.tables@.len() && self.tables@[j].name@ == name@;
                    assert(j == k);
                }
                Some(&self.tables[k])
            },
            None => None,
        }
    }
}

} // verus!
