//! The executors, one for each kind of statement.
//!
//! An executor never touches the disk. Where it needs a page it stops and
//! says so; the caller fetches the page through the buffer pool and hands
//! the guard to the step that goes on: `InsertExecutor::apply` for an insert,
//! `ScanCursor::consume` for a scan.

use crate::executor::catalog::{Catalog, TableView};
use crate::executor::codec::{
    decode_tuple, encode_values, kind_text, read_tuple, tuple_encoding, CodecError,
    CodecErrorKind,
};
use crate::executor::result::{outcome_view, tuple_views, ExecutionResult, ResultView, Tuple};
use crate::sql::ast::{
    column_views, string_views, value_views, Column, Statement, StatementView, Value, ValueView,
};
use crate::storage::buffer_pool::{BufferPoolManager, FrameView, PageGuard, PageWriteGuard, PoolView};
use crate::storage::page::{
    image_with_tuple, le16_at, page_array, records, valid_image, Page, PageId,
};
use vstd::prelude::*;
use vstd::slice::slice_to_vec;

verus! {

/// Number of pages that a scan asks for at a time.
pub const PREFETCH_PAGES: usize = 16;

/// Number of pages that a scan reads, from page 0 on.
pub const TOTAL_PAGES: usize = 128;

/// The page that every insert goes to.
pub const INSERT_PAGE: PageId = 0;

/// The message for a table that was created.
pub open spec fn created_message(table: Seq<char>) -> Seq<char> {
    "Table '"@ + table + "' created."@
}

/// The message of the error for a table that exists already.
pub open spec fn already_exists_message(table: Seq<char>) -> Seq<char> {
    "Table '"@ + table + "' already exists."@
}

/// The message of the error for an insert into a table that is missing.
pub open spec fn insert_not_found_message(table: Seq<char>) -> Seq<char> {
    "Table '"@ + table + "' not found."@
}

/// The message of the error for a selection from a table that is missing.
pub open spec fn scan_not_found_message(table: Seq<char>) -> Seq<char> {
    "Table '"@ + table + "' not found"@
}

/// The message for a row that was inserted.
pub open spec fn inserted_message() -> Seq<char> {
    "1 row inserted."@
}

/// The message of the error for a row that does not fit into the page.
pub open spec fn page_full_message() -> Seq<char> {
    "Failed to insert tuple: page is full."@
}

/// The rows that records decode to, from record `from` on, appended to
/// `seen`; or the error of the first record that does not decode.
pub open spec fn decode_rows(
    records: Seq<Seq<u8>>,
    from: int,
    seen: Seq<Seq<ValueView>>,
) -> Result<Seq<Seq<ValueView>>, CodecErrorKind>
    decreases records.len() - from,
{
    if from < 0 || from >= records.len() {
        Ok(seen)
    } else {
        match read_tuple(records[from]) {
            Err(e) => Err(e),
            Ok(row) => decode_rows(records, from + 1, seen.push(row)),
        }
    }
}

/// The rows of a page, in slot order.
pub open spec fn page_rows(image: Seq<u8>) -> Result<Seq<Seq<ValueView>>, CodecErrorKind> {
    decode_rows(records(image, le16_at(image, 0) as nat), 0, Seq::empty())
}

/// The row that a record decodes to, if it decodes.
pub open spec fn row_of(record: Seq<u8>) -> Option<Seq<ValueView>> {
    match read_tuple(record) {
        Ok(row) => Some(row),
        Err(_) => None,
    }
}

/// Decoding succeeds exactly when every record from `from` on decodes, and
/// then gives `seen` followed by the rows of those records, one by one.
pub proof fn lemma_decode_rows(records: Seq<Seq<u8>>, from: int, seen: Seq<Seq<ValueView>>)
    requires
        0 <= from <= records.len(),
    ensures
        decode_rows(records, from, seen) is Ok <==> forall|k: int|
            from <= k < records.len() ==> (#[trigger] row_of(records[k])) is Some,
        decode_rows(records, from, seen) matches Ok(rows) ==> rows == seen + Seq::new(
            (records.len() - from) as nat,
            |i: int| row_of(records[from + i])->0,
        ),
    decreases records.len() - from,
{
    let rest = Seq::new((records.len() - from) as nat, |i: int| row_of(records[from + i])->0);
    if from == records.len() {
        assert(seen + rest =~= seen);
    } else {
        let first = row_of(records[from]);
        if first is Some {
            lemma_decode_rows(records, from + 1, seen.push(first->0));
            let later = Seq::new(
                (records.len() - from - 1) as nat,
                |i: int| row_of(records[from + 1 + i])->0,
            );
            assert(seen.push(first->0) + later =~= seen + rest);
        }
    }
}

/// The rows of a page are the decodings of its records, slot by slot: row
/// `s` is what the tuple in slot `s` decodes to.
pub proof fn lemma_page_rows(image: Seq<u8>)
    ensures
        page_rows(image) is Ok <==> forall|s: int|
            0 <= s < le16_at(image, 0) ==> (#[trigger] row_of(
                records(image, le16_at(image, 0) as nat)[s],
            )) is Some,
        page_rows(image) matches Ok(rows) ==> rows == Seq::new(
            le16_at(image, 0) as nat,
            |s: int| row_of(records(image, le16_at(image, 0) as nat)[s])->0,
        ),
{
    let all = records(image, le16_at(image, 0) as nat);
    lemma_decode_rows(all, 0, Seq::empty());
    if page_rows(image) is Ok {
        assert(page_rows(image)->Ok_0 =~= Seq::new(
            le16_at(image, 0) as nat,
            |s: int| row_of(all[s])->0,
        ));
    }
}

/// The rows of pages, page after page, each in slot order.
pub open spec fn scan_rows(pages: Seq<Seq<u8>>) -> Seq<Seq<ValueView>>
    decreases pages.len(),
{
    if pages.len() == 0 {
        Seq::empty()
    } else {
        scan_rows(pages.drop_last()) + page_rows(pages.last())->Ok_0
    }
}

/// Where an executor stands after its first step.
pub enum Execution {
    /// The statement is done.
    Done(ExecutionResult),
    /// The row is encoded. It goes to page `INSERT_PAGE`: fetch that page
    /// for writing and call `InsertExecutor::apply`.
    Insert(Vec<u8>),
    /// The table is there. Ask the cursor for pages, fetch them for reading
    /// and let the cursor consume them.
    Scan(ScanCursor),
}

/// An `Execution` as a mathematical value.
pub enum ExecutionView {
    Done(ResultView),
    Insert(Seq<u8>),
    Scan { requested: nat, consumed: Seq<Seq<u8>> },
}

impl View for Execution {
    type V = ExecutionView;

    open spec fn view(&self) -> ExecutionView {
        match self {
            Execution::Done(result) => ExecutionView::Done(result@),
            Execution::Insert(data) => ExecutionView::Insert(data@),
            Execution::Scan(cursor) => ExecutionView::Scan {
                requested: cursor.requested(),
                consumed: cursor.consumed(),
            },
        }
    }
}

/// The view of what a first step gave.
pub open spec fn step_view(step: Result<Execution, String>) -> Result<ExecutionView, Seq<char>> {
    match step {
        Ok(execution) => Ok(execution@),
        Err(message) => Err(message@),
    }
}

/// An executor: a statement that is ready to run.
pub trait Executor: Sized {
    /// What the first step gives, by the tables that exist.
    spec fn first_step(&self, tables: Map<Seq<char>, TableView>) -> Result<
        ExecutionView,
        Seq<char>,
    >;

    /// The tables that exist after the first step.
    spec fn tables_after(&self, tables: Map<Seq<char>, TableView>) -> Map<Seq<char>, TableView>;

    /// Takes the first step: whatever the statement does before it needs a
    /// page.
    fn execute(self, catalog: &mut Catalog) -> (step: Result<Execution, String>)
        ensures
            step_view(step) == self.first_step(old(catalog)@),
            final(catalog)@ == self.tables_after(old(catalog)@),
    ;
}

/// Creates a table.
#[derive(Debug)]
pub struct CreateTableExecutor {
    pub table_name: String,
    pub columns: Vec<Column>,
}

impl Executor for CreateTableExecutor {
    /// The table is created, unless one of that name exists.
    open spec fn first_step(&self, tables: Map<Seq<char>, TableView>) -> Result<
        ExecutionView,
        Seq<char>,
    > {
        if tables.contains_key(self.table_name@) {
            Err(already_exists_message(self.table_name@))
        } else {
            Ok(ExecutionView::Done(ResultView::Message(created_message(self.table_name@))))
        }
    }

    open spec fn tables_after(&self, tables: Map<Seq<char>, TableView>) -> Map<
        Seq<char>,
        TableView,
    > {
        if tables.contains_key(self.table_name@) {
            tables
        } else {
            tables.insert(
                self.table_name@,
                TableView { name: self.table_name@, columns: column_views(self.columns@) },
            )
        }
    }

    fn execute(self, catalog: &mut Catalog) -> (step: Result<Execution, String>) {
        let name = self.table_name.clone();
        match catalog.create_table(self.table_name, self.columns) {
            Ok(()) => {
                let message = String::from_str("Table '").concat(name.as_str()).concat(
                    "' created.",
                );
                Ok(Execution::Done(ExecutionResult::Message(message)))
            },
            Err(_) => {
                let message = String::from_str("Table '").concat(name.as_str()).concat(
                    "' already exists.",
                );
                Err(message)
            },
        }
    }
}

/// Inserts one row.
#[derive(Debug)]
pub struct InsertExecutor {
    pub table_name: String,
    pub values: Vec<Value>,
}

impl Executor for InsertExecutor {
    /// The row is encoded, unless the table is missing.
    open spec fn first_step(&self, tables: Map<Seq<char>, TableView>) -> Result<
        ExecutionView,
        Seq<char>,
    > {
        if tables.contains_key(self.table_name@) {
            Ok(ExecutionView::Insert(tuple_encoding(value_views(self.values@))))
        } else {
            Err(insert_not_found_message(self.table_name@))
        }
    }

    open spec fn tables_after(&self, tables: Map<Seq<char>, TableView>) -> Map<
        Seq<char>,
        TableView,
    > {
        tables
    }

    fn execute(self, catalog: &mut Catalog) -> (step: Result<Execution, String>) {
        if catalog.get_table(self.table_name.as_str()).is_none() {
            let message = String::from_str("Table '").concat(self.table_name.as_str()).concat(
                "' not found.",
            );
            return Err(message);
        }
        Ok(Execution::Insert(encode_values(&self.values)))
    }
}

impl InsertExecutor {
    /// Ends an insert on the page behind a write guard: appends the encoded
    /// row to the page and writes the page back into the frame, or fails and
    /// leaves the frame's content alone where the row does not fit. Either
    /// way the guard is released, which marks the frame dirty.
    pub fn apply(pool: &mut BufferPoolManager, guard: PageWriteGuard, tuple_data: &[u8]) -> (outcome:
        Result<ExecutionResult, String>)
        requires
            old(pool).wf(),
            guard.frame() < old(pool)@.frames.len(),
            valid_image(old(pool)@.frames[guard.frame() as int].data),
        ensures
            final(pool).wf(),
            old(pool)@.consistent() ==> final(pool)@.consistent(),
            match image_with_tuple(old(pool)@.frames[guard.frame() as int].data, tuple_data@) {
                Some(image) => {
                    &&& outcome_view(outcome) == Ok::<ResultView, Seq<char>>(
                        ResultView::Message(inserted_message()),
                    )
                    &&& final(pool)@ == (PoolView {
                        frames: old(pool)@.frames.update(
                            guard.frame() as int,
                            FrameView {
                                data: image,
                                ..old(pool)@.frames[guard.frame() as int]
                            },
                        ),
                        ..old(pool)@
                    }).released(guard.frame(), true)
                },
                None => {
                    &&& outcome_view(outcome) == Err::<ResultView, Seq<char>>(page_full_message())
                    &&& final(pool)@ == old(pool)@.released(guard.frame(), true)
                },
            },
    {
        let ghost before = pool@;
        let frame_id: usize = guard.frame_id();
        let mut guard = guard;
        proof {
            pool.lemma_wf();
        }
        let frames = pool.frames();
        assert(frames@[frame_id as int]@ == before.frames[frame_id as int]);
        let image = page_array(frames[frame_id].data.as_slice());
        let mut page = Page::from_bytes(image);
        match page.insert_tuple(tuple_data) {
            Some(_) => {
                let bytes = page.to_bytes();
                let ghost written = bytes@;
                assert(written == image_with_tuple(image@, tuple_data@)->0) by {
                    assert(page.image() =~= image_with_tuple(image@, tuple_data@)->0);
                }
                {
                    let frames_mut = guard.get_mut(pool);
                    frames_mut[frame_id].data = slice_to_vec(bytes.as_slice());
                }
                let ghost changed = PoolView {
                    frames: before.frames.update(
                        frame_id as int,
                        FrameView { data: written, ..before.frames[frame_id as int] },
                    ),
                    ..before
                };
                proof {
                    assert(pool@.frames =~= changed.frames);
                    assert(pool@ == changed);
                    before.lemma_same_pages(changed);
                }
                guard.release(pool);
                Ok(ExecutionResult::Message(String::from_str("1 row inserted.")))
            },
            None => {
                guard.release(pool);
                Err(String::from_str("Failed to insert tuple: page is full."))
            },
        }
    }
}

/// Reads all rows of a table.
#[derive(Debug)]
pub struct SequentialScanExecutor {
    pub table_name: String,
    pub columns: Vec<String>,
}

impl Executor for SequentialScanExecutor {
    /// A cursor at the first page, unless the table is missing.
    open spec fn first_step(&self, tables: Map<Seq<char>, TableView>) -> Result<
        ExecutionView,
        Seq<char>,
    > {
        if tables.contains_key(self.table_name@) {
            Ok(ExecutionView::Scan { requested: 0, consumed: Seq::empty() })
        } else {
            Err(scan_not_found_message(self.table_name@))
        }
    }

    open spec fn tables_after(&self, tables: Map<Seq<char>, TableView>) -> Map<
        Seq<char>,
        TableView,
    > {
        tables
    }

    fn execute(self, catalog: &mut Catalog) -> (step: Result<Execution, String>) {
        if catalog.get_table(self.table_name.as_str()).is_none() {
            let message = String::from_str("Table '").concat(self.table_name.as_str()).concat(
                "' not found",
            );
            return Err(message);
        }
        Ok(Execution::Scan(ScanCursor::new()))
    }
}

/// Decodes the rows of a page, in slot order.
pub fn decode_page(page: &Page) -> (rows: Result<Vec<Tuple>, CodecError>)
    requires
        page.wf(),
    ensures
        match rows {
            Ok(tuples) => decode_rows(page.tuples(), 0, Seq::empty()) == Ok::<
                Seq<Seq<ValueView>>,
                CodecErrorKind,
            >(tuple_views(tuples@)),
            Err(e) => decode_rows(page.tuples(), 0, Seq::empty()) == Err::<
                Seq<Seq<ValueView>>,
                CodecErrorKind,
            >(e@),
        },
{
    let mut tuples: Vec<Tuple> = Vec::new();
    let count: u16 = page.header.tuple_count;
    let mut slot: u16 = 0;
    assert(tuple_views(tuples@) =~= Seq::<Seq<ValueView>>::empty());
    while slot < count
        invariant
            slot <= count == page.header.tuple_count,
            page.wf(),
            page.tuples().len() == count,
            decode_rows(page.tuples(), slot as int, tuple_views(tuples@)) == decode_rows(
                page.tuples(),
                0,
                Seq::empty(),
            ),
        decreases count - slot,
    {
        let ghost seen = tuple_views(tuples@);
        match page.get_tuple(slot) {
            Some(data) => {
                let tuple = match decode_tuple(data) {
                    Ok(tuple) => tuple,
                    Err(e) => {
                        return Err(e);
                    },
                };
                let ghost row = tuple@;
                tuples.push(tuple);
                assert(tuple_views(tuples@) =~= seen.push(row));
            },
            None => {},
        }
        slot = slot + 1;
    }
    Ok(tuples)
}

/// A scan in progress: how far the requests for pages have got, and the
/// rows of the pages consumed so far.
pub struct ScanCursor {
    next_page: usize,
    tuples: Vec<Tuple>,
    pages: Ghost<Seq<Seq<u8>>>,
}

impl ScanCursor {
    #[verifier::type_invariant]
    spec fn inv(&self) -> bool {
        &&& self.next_page <= TOTAL_PAGES
        &&& tuple_views(self.tuples@) == scan_rows(self.pages@)
    }

    /// Number of pages asked for so far.
    pub closed spec fn requested(&self) -> nat {
        self.next_page as nat
    }

    /// The images of the pages consumed so far, in the order of consumption.
    pub closed spec fn consumed(&self) -> Seq<Seq<u8>> {
        self.pages@
    }

    /// A cursor in front of the first page.
    pub fn new() -> (cursor: ScanCursor)
        ensures
            cursor.requested() == 0,
            cursor.consumed() == Seq::<Seq<u8>>::empty(),
    {
        let tuples: Vec<Tuple> = Vec::new();
        assert(tuple_views(tuples@) =~= scan_rows(Seq::empty()));
        ScanCursor { next_page: 0, tuples, pages: Ghost(Seq::empty()) }
    }

    /// The next pages to fetch together: up to `PREFETCH_PAGES` page ids in
    /// ascending order, none once `TOTAL_PAGES` have been asked for.
    pub fn next_batch(&mut self) -> (batch: Vec<PageId>)
        ensures
            final(self).consumed() == old(self).consumed(),
            old(self).requested() <= TOTAL_PAGES,
            batch@.len() == if TOTAL_PAGES - old(self).requested() < PREFETCH_PAGES {
                TOTAL_PAGES - old(self).requested()
            } else {
                PREFETCH_PAGES as int
            },
            forall|k: int| 0 <= k < batch@.len() ==> batch@[k] == old(self).requested() + k,
            final(self).requested() == old(self).requested() + batch@.len(),
    {
        proof {
            use_type_invariant(&*self);
        }
        let start: usize = self.next_page;
        let mut batch: Vec<PageId> = Vec::new();
        let mut next: usize = start;
        while next < TOTAL_PAGES && batch.len() < PREFETCH_PAGES
            invariant
                start <= next <= TOTAL_PAGES,
                batch@.len() == next - start,
                batch@.len() <= PREFETCH_PAGES,
                forall|k: int| 0 <= k < batch@.len() ==> batch@[k] == start + k,
            decreases TOTAL_PAGES - next,
        {
            batch.push(next as PageId);
            next = next + 1;
        }
        self.next_page = next;
        batch
    }

    /// Takes in the page behind a read guard: decodes its rows in slot order
    /// and appends them to the rows read so far. Where a row does not
    /// decode the scan fails and the cursor is left as it was. Either way
    /// the guard is released.
    pub fn consume(&mut self, pool: &mut BufferPoolManager, guard: PageGuard) -> (taken: Result<
        (),
        String,
    >)
        requires
            old(pool).wf(),
            guard.frame() < old(pool)@.frames.len(),
            valid_image(old(pool)@.frames[guard.frame() as int].data),
        ensures
            final(pool).wf(),
            final(pool)@ == old(pool)@.released(guard.frame(), false),
            old(pool)@.consistent() ==> final(pool)@.consistent(),
            final(self).requested() == old(self).requested(),
            taken is Ok <==> page_rows(old(pool)@.frames[guard.frame() as int].data) is Ok,
            taken matches Err(message) ==> (kind_text(
                page_rows(old(pool)@.frames[guard.frame() as int].data)->Err_0,
            ) matches Some(words) ==> message@ == words),
            taken is Ok ==> final(self).consumed() == old(self).consumed().push(
                old(pool)@.frames[guard.frame() as int].data,
            ),
            taken is Err ==> final(self).consumed() == old(self).consumed(),
    {
        proof {
            use_type_invariant(&*self);
            pool.lemma_wf();
        }
        let ghost before = pool@;
        let frame_id: usize = guard.frame_id();
        let frames = pool.frames();
        assert(frames@[frame_id as int]@ == before.frames[frame_id as int]);
        let image = page_array(frames[frame_id].data.as_slice());
        let page = Page::from_bytes(image);
        let rows = decode_page(&page);
        guard.release(pool);
        match rows {
            Ok(mut tuples) => {
                let ghost added = tuple_views(tuples@);
                let ghost had = tuple_views(self.tuples@);
                let mut taken = ScanCursor::new();
                std::mem::swap(self, &mut taken);
                let ScanCursor { next_page, tuples: mut all, pages } = taken;
                all.append(&mut tuples);
                proof {
                    assert(tuple_views(all@) =~= had + added);
                    assert(pages@.push(image@).drop_last() =~= pages@);
                }
                *self = ScanCursor { next_page, tuples: all, pages: Ghost(pages@.push(image@)) };
                Ok(())
            },
            Err(e) => Err(e.to_string()),
        }
    }

    /// Ends the scan: the rows of the pages consumed, page after page, each
    /// page in slot order.
    pub fn finish(self) -> (result: ExecutionResult)
        ensures
            result@ == ResultView::Data(scan_rows(self.consumed())),
    {
        proof {
            use_type_invariant(&self);
        }
        ExecutionResult::Data(self.tuples)
    }
}

/// What the first step of running a statement gives, by the tables that
/// exist: a new table is created unless one of that name exists; an insert
/// has its row encoded and a selection gets a cursor, unless the table is
/// missing.
pub open spec fn statement_first_step(stat: StatementView, tables: Map<Seq<char>, TableView>) -> Result<
    ExecutionView,
    Seq<char>,
> {
    match stat {
        StatementView::CreateTable { table_name, columns } => if tables.contains_key(table_name) {
            Err(already_exists_message(table_name))
        } else {
            Ok(ExecutionView::Done(ResultView::Message(created_message(table_name))))
        },
        StatementView::Insert { table_name, values } => if tables.contains_key(table_name) {
            Ok(ExecutionView::Insert(tuple_encoding(values)))
        } else {
            Err(insert_not_found_message(table_name))
        },
        StatementView::Select { table_name, columns } => if tables.contains_key(table_name) {
            Ok(ExecutionView::Scan { requested: 0, consumed: Seq::empty() })
        } else {
            Err(scan_not_found_message(table_name))
        },
    }
}

/// The tables that exist after the first step of running a statement.
pub open spec fn statement_tables_after(stat: StatementView, tables: Map<Seq<char>, TableView>) -> Map<
    Seq<char>,
    TableView,
> {
    match stat {
        StatementView::CreateTable { table_name, columns } => if tables.contains_key(table_name) {
            tables
        } else {
            tables.insert(table_name, TableView { name: table_name, columns })
        },
        _ => tables,
    }
}

/// The executor of a statement.
#[derive(Debug)]
pub enum StatementExecutor {
    CreateTable(CreateTableExecutor),
    Insert(InsertExecutor),
    Select(SequentialScanExecutor),
}

/// The executor of a statement does to the tables, and gives as its first
/// step, what the statement says.
pub proof fn lemma_executor_runs_statement(
    executor: StatementExecutor,
    stat: StatementView,
    tables: Map<Seq<char>, TableView>,
)
    requires
        executor.runs(stat),
    ensures
        executor.first_step(tables) == statement_first_step(stat, tables),
        executor.tables_after(tables) == statement_tables_after(stat, tables),
{
}

/// The executor that a statement asks for, with the statement's parts.
pub fn create_executor(stat: Statement) -> (executor: StatementExecutor)
    ensures
        executor.runs(stat@),
{
    match stat {
        Statement::CreateTable { table_name, columns } => StatementExecutor::CreateTable(
            CreateTableExecutor { table_name, columns },
        ),
        Statement::Insert { table_name, values } => StatementExecutor::Insert(
            InsertExecutor { table_name, values },
        ),
        Statement::Select { table_name, columns } => StatementExecutor::Select(
            SequentialScanExecutor { table_name, columns },
        ),
    }
}

impl StatementExecutor {
    /// The executor is of the kind of the statement and holds its parts.
    pub open spec fn runs(&self, stat: StatementView) -> bool {
        match self {
            StatementExecutor::CreateTable(e) => stat == (StatementView::CreateTable {
                table_name: e.table_name@,
                columns: column_views(e.columns@),
            }),
            StatementExecutor::Insert(e) => stat == (StatementView::Insert {
                table_name: e.table_name@,
                values: value_views(e.values@),
            }),
            StatementExecutor::Select(e) => stat == (StatementView::Select {
                table_name: e.table_name@,
                columns: string_views(e.columns@),
            }),
        }
    }
}

impl Executor for StatementExecutor {
    open spec fn first_step(&self, tables: Map<Seq<char>, TableView>) -> Result<
        ExecutionView,
        Seq<char>,
    > {
        match self {
            StatementExecutor::CreateTable(e) => e.first_step(tables),
            StatementExecutor::Insert(e) => e.first_step(tables),
            StatementExecutor::Select(e) => e.first_step(tables),
        }
    }

    open spec fn tables_after(&self, tables: Map<Seq<char>, TableView>) -> Map<
        Seq<char>,
        TableView,
    > {
        match self {
            StatementExecutor::CreateTable(e) => e.tables_after(tables),
            StatementExecutor::Insert(e) => e.tables_after(tables),
            StatementExecutor::Select(e) => e.tables_after(tables),
        }
    }

    fn execute(self, catalog: &mut Catalog) -> (step: Result<Execution, String>) {
        match self {
            StatementExecutor::CreateTable(e) => e.execute(catalog),
            StatementExecutor::Insert(e) => e.execute(catalog),
            StatementExecutor::Select(e) => e.execute(catalog),
        }
    }
}

} // verus!
