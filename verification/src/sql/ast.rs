//! The syntax tree of the statements that the engine understands.

use vstd::prelude::*;

verus! {

/// Type of a column.
#[derive(Debug, Clone, Copy, PartialEq, Eq)]
pub enum DataType {
    Int,
    Varchar,
}

/// A value in a row.
#[derive(Debug, PartialEq, Eq)]
pub enum Value {
    Integer(i64),
    String(String),
}

/// A value as a mathematical value.
pub enum ValueView {
    Integer(i64),
    String(Seq<char>),
}

impl View for Value {
    type V = ValueView;

    open spec fn view(&self) -> ValueView {
        match self {
            Value::Integer(i) => ValueView::Integer(*i),
            Value::String(s) => ValueView::String(s@),
        }
    }
}

impl Clone for Value {
    fn clone(&self) -> (copy: Value)
        ensures
            copy@ == self@,
    {
        match self {
            Value::Integer(i) => Value::Integer(*i),
            Value::String(s) => Value::String(s.clone()),
        }
    }
}

/// The views of a sequence of values.
pub open spec fn value_views(values: Seq<Value>) -> Seq<ValueView> {
    Seq::new(values.len(), |k: int| values[k]@)
}

/// A column of a table.
#[derive(Debug, PartialEq, Eq)]
pub struct Column {
    pub name: String,
    pub data_type: DataType,
}

/// A column as a mathematical value.
pub struct ColumnView {
    pub name: Seq<char>,
    pub data_type: DataType,
}

impl View for Column {
    type V = ColumnView;

    open spec fn view(&self) -> ColumnView {
        ColumnView { name: self.name@, data_type: self.data_type }
    }
}

impl Clone for Column {
    fn clone(&self) -> (copy: Column)
        ensures
            copy@ == self@,
    {
        Column { name: self.name.clone(), data_type: self.data_type }
    }
}

/// The views of a sequence of columns.
pub open spec fn column_views(columns: Seq<Column>) -> Seq<ColumnView> {
    Seq::new(columns.len(), |k: int| columns[k]@)
}

/// The views of a sequence of strings.
pub open spec fn string_views(strings: Seq<String>) -> Seq<Seq<char>> {
    Seq::new(strings.len(), |k: int| strings[k]@)
}

/// A parsed statement.
#[derive(Debug, PartialEq, Eq)]
#[allow(inconsistent_fields)]
pub enum Statement {
    CreateTable { table_name: String, columns: Vec<Column> },
    Insert { table_name: String, values: Vec<Value> },
    Select { table_name: String, columns: Vec<String> },
}

/// A statement as a mathematical value.
#[allow(inconsistent_fields)]
pub enum StatementView {
    CreateTable { table_name: Seq<char>, columns: Seq<ColumnView> },
    Insert { table_name: Seq<char>, values: Seq<ValueView> },
    Select { table_name: Seq<char>, columns: Seq<Seq<char>> },
}

impl View for Statement {
    type V = StatementView;

    open spec fn view(&self) -> StatementView {
        match self {
            Statement::CreateTable { table_name, columns } => StatementView::CreateTable {
                table_name: table_name@,
                columns: column_views(columns@),
            },
            Statement::Insert { table_name, values } => StatementView::Insert {
                table_name: table_name@,
                values: value_views(values@),
            },
            Statement::Select { table_name, columns } => StatementView::Select {
                table_name: table_name@,
                columns: string_views(columns@),
            },
        }
    }
}

/// Copies a list of columns.
pub fn clone_columns(columns: &Vec<Column>) -> (copy: Vec<Column>)
    ensures
        column_views(copy@) == column_views(columns@),
{
    let mut copy: Vec<Column> = Vec::new();
    let mut k: usize = 0;
    while k < columns.len()
        invariant
            k <= columns@.len(),
            copy@.len() == k,
            forall|j: int| 0 <= j < k ==> copy@[j]@ == columns@[j]@,
        decreases columns@.len() - k,
    {
        copy.push(columns[k].clone());
        k = k + 1;
    }
    assert(column_views(copy@) =~= column_views(columns@));
    copy
}

} // verus!
