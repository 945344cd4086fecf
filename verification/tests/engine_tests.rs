use std::collections::HashMap;

use ringdb::executor::catalog::Catalog;
use ringdb::executor::executors::{
    create_executor, CreateTableExecutor, Execution, Executor, InsertExecutor, ScanCursor,
    SequentialScanExecutor, StatementExecutor, INSERT_PAGE, PREFETCH_PAGES, TOTAL_PAGES,
};
use ringdb::executor::result::{ExecutionResult, Tuple};
use ringdb::sql::ast::{Column, DataType, Statement, Value};
use ringdb::storage::buffer_pool::{
    clear_buffer, BufferPoolManager, Fetch, PageGuard, PageLoad, PageWriteGuard,
};
use ringdb::storage::disk::{page_offset, page_buffer};
use ringdb::storage::page::PAGE_SIZE;
use ringdb::Database;

/// A data file in memory: pages by number; a page never written reads as zeros.
struct Disk {
    pages: HashMap<u32, Vec<u8>>,
    writes: Vec<u32>,
}

impl Disk {
    fn new() -> Disk {
        Disk { pages: HashMap::new(), writes: Vec::new() }
    }

    fn load(&mut self, load: PageLoad) -> (usize, u32, Vec<u8>) {
        let mut buffer = load.buffer;
        if load.write_back {
            self.pages.insert(load.old_page_id, buffer.clone());
            self.writes.push(load.old_page_id);
        }
        clear_buffer(&mut buffer);
        let mut buffer = page_buffer(buffer);
        if let Some(stored) = self.pages.get(&load.page_id) {
            buffer.copy_from_slice(stored);
        }
        (load.frame_id, load.page_id, buffer)
    }
}

fn fetch(pool: &mut BufferPoolManager, disk: &mut Disk, page_id: u32) -> Result<PageGuard, String> {
    match pool.fetch_page(page_id)? {
        Fetch::Ready(guard) => Ok(guard),
        Fetch::Load(load) => {
            let (frame_id, page_id, buffer) = disk.load(load);
            Ok(pool.finish_fetch(frame_id, page_id, buffer))
        }
    }
}

fn fetch_mut(
    pool: &mut BufferPoolManager,
    disk: &mut Disk,
    page_id: u32,
) -> Result<PageWriteGuard, String> {
    match pool.fetch_page_mut(page_id)? {
        Fetch::Ready(guard) => Ok(guard),
        Fetch::Load(load) => {
            let (frame_id, page_id, buffer) = disk.load(load);
            Ok(pool.finish_fetch_mut(frame_id, page_id, buffer))
        }
    }
}

fn scan(pool: &mut BufferPoolManager, disk: &mut Disk, mut cursor: ScanCursor) -> Result<ExecutionResult, String> {
    'batches: loop {
        let batch = cursor.next_batch();
        if batch.is_empty() {
            break;
        }
        let fetched: Vec<Result<PageGuard, String>> =
            batch.iter().map(|page_id| fetch(pool, disk, *page_id)).collect();
        let mut fetched = fetched.into_iter();
        while let Some(result) = fetched.next() {
            match result {
                Ok(guard) => {
                    assert!(pool.frame_is_valid(guard.frame_id()));
                    cursor.consume(pool, guard)?;
                }
                Err(_) => {
                    for later in fetched {
                        if let Ok(guard) = later {
                            guard.release(pool);
                        }
                    }
                    break 'batches;
                }
            }
        }
    }
    Ok(cursor.finish())
}

fn run(db: &mut Database, disk: &mut Disk, sql: &str) -> Result<ExecutionResult, String> {
    match db.run_statement(sql)? {
        Execution::Done(result) => Ok(result),
        Execution::Insert(tuple_data) => {
            let guard = fetch_mut(&mut db.bpm, disk, INSERT_PAGE)
                .map_err(|e| format!("Failed to fetch page {}: {:?}", INSERT_PAGE, e))?;
            assert!(db.bpm.frame_is_valid(guard.frame_id()));
            InsertExecutor::apply(&mut db.bpm, guard, &tuple_data)
        }
        Execution::Scan(cursor) => scan(&mut db.bpm, disk, cursor),
    }
}

fn row(id: i64, name: &str) -> Tuple {
    Tuple::new(vec![Value::Integer(id), Value::String(name.to_string())])
}

#[test]
fn create_insert_select_round_trip() {
    let mut db = Database::new(64);
    let mut disk = Disk::new();
    assert_eq!(
        run(&mut db, &mut disk, "CREATE TABLE users (id INT, name VARCHAR);"),
        Ok(ExecutionResult::Message("Table 'users' created.".to_string()))
    );
    assert_eq!(
        run(&mut db, &mut disk, "INSERT INTO users VALUES (1, 'Alice');"),
        Ok(ExecutionResult::Message("1 row inserted.".to_string()))
    );
    assert_eq!(
        run(&mut db, &mut disk, "SELECT id, name FROM users;"),
        Ok(ExecutionResult::Data(vec![row(1, "Alice")]))
    );
}

#[test]
fn duplicate_create_table_fails() {
    let mut db = Database::new(64);
    let mut disk = Disk::new();
    assert!(run(&mut db, &mut disk, "CREATE TABLE t (a INT);").is_ok());
    assert_eq!(
        run(&mut db, &mut disk, "CREATE TABLE t (a INT);"),
        Err("Table 't' already exists.".to_string())
    );
}

#[test]
fn insert_into_unknown_table_fails() {
    let mut db = Database::new(64);
    let mut disk = Disk::new();
    assert_eq!(
        run(&mut db, &mut disk, "INSERT INTO missing VALUES (1);"),
        Err("Table 'missing' not found.".to_string())
    );
}

#[test]
fn select_from_unknown_table_fails() {
    let mut db = Database::new(64);
    let mut disk = Disk::new();
    assert_eq!(
        run(&mut db, &mut disk, "SELECT a FROM missing"),
        Err("Table 'missing' not found".to_string())
    );
}

#[test]
fn parse_errors_come_back_in_words() {
    let mut db = Database::new(4);
    let mut disk = Disk::new();
    assert_eq!(
        run(&mut db, &mut disk, "CREATE users (id INT);"),
        Err("Unexpected token: Ident(\"users\")".to_string())
    );
    assert_eq!(
        run(&mut db, &mut disk, "SELECT id, name FROM;"),
        Err("Unexpected token: Semicolon".to_string())
    );
    assert_eq!(run(&mut db, &mut disk, ""), Err("Unexpected token: Eof".to_string()));
    assert_eq!(
        run(&mut db, &mut disk, "INSERT INTO t VALUES ('x"),
        Err("Lexer error: UnterminatedString".to_string())
    );
}

#[test]
fn page_fills_up() {
    let mut db = Database::new(64);
    let mut disk = Disk::new();
    run(&mut db, &mut disk, "CREATE TABLE t (a VARCHAR);").unwrap();
    // The row encodes to 1 + 1 + 3 + 1000 bytes and takes two more for its length.
    let text = "x".repeat(1000);
    let insert = format!("INSERT INTO t VALUES ('{}');", text);
    for _ in 0..8 {
        assert_eq!(
            run(&mut db, &mut disk, &insert),
            Ok(ExecutionResult::Message("1 row inserted.".to_string()))
        );
    }
    // 8 * 1007 = 8056 of 8190 bytes are taken; 1007 more do not fit.
    for _ in 0..2 {
        assert_eq!(
            run(&mut db, &mut disk, &insert),
            Err("Failed to insert tuple: page is full.".to_string())
        );
    }
    let expected: Vec<Tuple> =
        (0..8).map(|_| Tuple::new(vec![Value::String(text.clone())])).collect();
    assert_eq!(run(&mut db, &mut disk, "SELECT a FROM t"), Ok(ExecutionResult::Data(expected)));
    // A smaller row still fits.
    assert!(run(&mut db, &mut disk, "INSERT INTO t VALUES ('small');").is_ok());
}

#[test]
fn scan_keeps_the_order_of_insertion() {
    let mut db = Database::new(64);
    let mut disk = Disk::new();
    run(&mut db, &mut disk, "CREATE TABLE users (id INT, name VARCHAR);").unwrap();
    run(&mut db, &mut disk, "INSERT INTO users VALUES (1, 'a');").unwrap();
    run(&mut db, &mut disk, "INSERT INTO users VALUES (2, 'b');").unwrap();
    run(&mut db, &mut disk, "INSERT INTO users VALUES (3, 'c');").unwrap();
    assert_eq!(
        run(&mut db, &mut disk, "SELECT id, name FROM users;"),
        Ok(ExecutionResult::Data(vec![row(1, "a"), row(2, "b"), row(3, "c")]))
    );
}

#[test]
fn scan_reads_pages_in_ascending_order() {
    let mut disk = Disk::new();
    for page_id in [5u32, 0, 127, 17] {
        let mut page = ringdb::storage::page::Page::from_bytes([0u8; PAGE_SIZE]);
        for slot in 0..3i64 {
            let tuple = Tuple::new(vec![Value::Integer(page_id as i64), Value::Integer(slot)]);
            page.insert_tuple(&ringdb::executor::codec::encode_tuple(&tuple)).unwrap();
        }
        disk.pages.insert(page_id, page.to_bytes().to_vec());
    }
    // Page 128 is beyond what a scan reads.
    let mut page = ringdb::storage::page::Page::from_bytes([0u8; PAGE_SIZE]);
    page.insert_tuple(&ringdb::executor::codec::encode_tuple(&row(9, "never"))).unwrap();
    disk.pages.insert(128, page.to_bytes().to_vec());

    let mut db = Database::new(64);
    run(&mut db, &mut disk, "CREATE TABLE t (p INT, s INT);").unwrap();
    let mut expected = Vec::new();
    for page_id in [0i64, 5, 17, 127] {
        for slot in 0..3i64 {
            expected.push(Tuple::new(vec![Value::Integer(page_id), Value::Integer(slot)]));
        }
    }
    assert_eq!(run(&mut db, &mut disk, "SELECT p FROM t"), Ok(ExecutionResult::Data(expected)));
}

#[test]
fn scan_with_a_small_pool_stops_where_the_frames_run_out() {
    let mut disk = Disk::new();
    for page_id in 0..TOTAL_PAGES as u32 {
        let mut page = ringdb::storage::page::Page::from_bytes([0u8; PAGE_SIZE]);
        let tuple = Tuple::new(vec![Value::Integer(page_id as i64)]);
        page.insert_tuple(&ringdb::executor::codec::encode_tuple(&tuple)).unwrap();
        disk.pages.insert(page_id, page.to_bytes().to_vec());
    }
    // Ten frames hold the first ten pages of the first batch; the eleventh fetch fails.
    let mut db = Database::new(10);
    run(&mut db, &mut disk, "CREATE TABLE t (p INT);").unwrap();
    let expected: Vec<Tuple> = (0..10).map(|p| Tuple::new(vec![Value::Integer(p)])).collect();
    assert_eq!(run(&mut db, &mut disk, "SELECT p FROM t"), Ok(ExecutionResult::Data(expected)));
    // With frames for a whole batch every page is read.
    let mut db = Database::new(PREFETCH_PAGES);
    run(&mut db, &mut disk, "CREATE TABLE t (p INT);").unwrap();
    let expected: Vec<Tuple> =
        (0..TOTAL_PAGES as i64).map(|p| Tuple::new(vec![Value::Integer(p)])).collect();
    assert_eq!(run(&mut db, &mut disk, "SELECT p FROM t"), Ok(ExecutionResult::Data(expected)));
}

#[test]
fn scan_fails_on_a_row_that_does_not_decode() {
    let mut disk = Disk::new();
    let mut page = ringdb::storage::page::Page::from_bytes([0u8; PAGE_SIZE]);
    page.insert_tuple(&ringdb::executor::codec::encode_tuple(&row(1, "fine"))).unwrap();
    page.insert_tuple(&[1, 1, 9, b'x']).unwrap();
    disk.pages.insert(3, page.to_bytes().to_vec());
    let mut db = Database::new(32);
    run(&mut db, &mut disk, "CREATE TABLE t (a INT);").unwrap();
    assert_eq!(
        run(&mut db, &mut disk, "SELECT a FROM t"),
        Err("unexpected end of tuple data".to_string())
    );
}

#[test]
fn dirty_page_is_written_back_when_its_frame_is_taken() {
    let mut db = Database::new(1);
    let mut disk = Disk::new();
    run(&mut db, &mut disk, "CREATE TABLE t (a INT);").unwrap();
    run(&mut db, &mut disk, "INSERT INTO t VALUES (42);").unwrap();
    assert!(disk.writes.is_empty());
    // Page 1 takes the only frame: page 0 goes to disk first.
    let guard = fetch(&mut db.bpm, &mut disk, 1).unwrap();
    guard.release(&mut db.bpm);
    assert_eq!(disk.writes, vec![0]);
    let stored = &disk.pages[&0];
    assert_eq!(&stored[..6], &[1, 0, 3, 0, 1, 0]);
    assert_eq!(stored[6], 84);
    // Page 1 was only read: taking its frame writes nothing.
    let guard = fetch(&mut db.bpm, &mut disk, 0).unwrap();
    assert_eq!(guard.page_id(&db.bpm), 0);
    guard.release(&mut db.bpm);
    assert_eq!(disk.writes, vec![0]);
}

#[test]
fn executors_take_their_first_step() {
    let mut catalog = Catalog::new();
    let create = CreateTableExecutor {
        table_name: "t".to_string(),
        columns: vec![Column { name: "a".to_string(), data_type: DataType::Int }],
    };
    match create.execute(&mut catalog) {
        Ok(Execution::Done(ExecutionResult::Message(text))) => {
            assert_eq!(text, "Table 't' created.")
        }
        _ => panic!("table was not created"),
    }
    let table = catalog.get_table("t").unwrap();
    assert_eq!(table.name, "t");
    assert_eq!(table.schema.get_col_idx("a"), Some(0));
    assert_eq!(table.schema.get_col_idx("b"), None);

    let insert = InsertExecutor { table_name: "t".to_string(), values: vec![Value::Integer(3)] };
    match insert.execute(&mut catalog) {
        Ok(Execution::Insert(data)) => assert_eq!(data, vec![1, 0, 6]),
        _ => panic!("row was not encoded"),
    }
    let scan = SequentialScanExecutor { table_name: "t".to_string(), columns: vec![] };
    assert!(matches!(scan.execute(&mut catalog), Ok(Execution::Scan(_))));
}

#[test]
fn create_executor_goes_by_the_statement() {
    let executor = create_executor(Statement::Insert {
        table_name: "t".to_string(),
        values: vec![Value::Integer(1)],
    });
    match executor {
        StatementExecutor::Insert(e) => {
            assert_eq!(e.table_name, "t");
            assert_eq!(e.values, vec![Value::Integer(1)]);
        }
        other => panic!("unexpected: {:?}", other),
    }
    let executor = create_executor(Statement::Select {
        table_name: "t".to_string(),
        columns: vec!["a".to_string()],
    });
    assert!(matches!(executor, StatementExecutor::Select(_)));
    let executor =
        create_executor(Statement::CreateTable { table_name: "t".to_string(), columns: vec![] });
    assert!(matches!(executor, StatementExecutor::CreateTable(_)));
}

#[test]
fn catalog_keeps_names_apart() {
    let mut catalog = Catalog::default();
    assert!(catalog.get_table("a").is_none());
    assert_eq!(catalog.create_table("a".to_string(), vec![]), Ok(()));
    assert_eq!(
        catalog.create_table("a".to_string(), vec![]),
        Err("Table 'a' already exists".to_string())
    );
    assert_eq!(catalog.create_table("A".to_string(), vec![]), Ok(()));
    assert!(catalog.get_table("a").is_some());
    assert!(catalog.get_table("A").is_some());
    assert!(catalog.get_table("b").is_none());
}

#[test]
fn schema_finds_the_first_column_of_a_name() {
    let schema = ringdb::executor::catalog::Schema {
        columns: vec![
            Column { name: "a".to_string(), data_type: DataType::Int },
            Column { name: "b".to_string(), data_type: DataType::Varchar },
            Column { name: "b".to_string(), data_type: DataType::Int },
        ],
    };
    assert_eq!(schema.get_col_idx("a"), Some(0));
    assert_eq!(schema.get_col_idx("b"), Some(1));
    assert_eq!(schema.get_col_idx("c"), None);
}

#[test]
fn scan_asks_for_pages_in_batches() {
    let mut cursor = ScanCursor::new();
    let mut asked = Vec::new();
    loop {
        let batch = cursor.next_batch();
        if batch.is_empty() {
            break;
        }
        assert_eq!(batch.len(), PREFETCH_PAGES);
        asked.extend(batch);
    }
    assert_eq!(asked, (0..TOTAL_PAGES as u32).collect::<Vec<u32>>());
    assert!(cursor.next_batch().is_empty());
    assert_eq!(cursor.finish(), ExecutionResult::Data(vec![]));
}

#[test]
fn pages_lie_one_after_the_other() {
    assert_eq!(page_offset(0), 0);
    assert_eq!(page_offset(1), 8192);
    assert_eq!(page_offset(u32::MAX), 4294967295 * 8192);
}

#[test]
fn page_buffer_has_the_size_of_a_page() {
    assert_eq!(page_buffer(vec![]), vec![0u8; PAGE_SIZE]);
    let mut expected = vec![0u8; PAGE_SIZE];
    expected[0] = 7;
    assert_eq!(page_buffer(vec![7]), expected);
    assert_eq!(page_buffer(vec![1u8; PAGE_SIZE + 5]), vec![1u8; PAGE_SIZE]);
}
