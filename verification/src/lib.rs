//! A small relational storage engine: slotted pages, a clock replacer, a
//! buffer pool, a catalog, and the executors that tie them together.
//!
//! The library does no I/O. Whoever owns a `Database` reads and writes the
//! pages that the buffer pool asks for, and moves bytes to and from clients.

use crate::executor::catalog::{Catalog, TableView};
use crate::executor::executors::{
    create_executor, lemma_executor_runs_statement, statement_first_step,
    statement_tables_after, step_view, Execution, ExecutionView, Executor,
};
use crate::sql::parser::{parse_sql, parsed, parser_error_text};
use crate::storage::buffer_pool::{empty_frame, BufferPoolManager};
use vstd::prelude::*;

pub mod executor;
pub mod protocol;
pub mod sql;
pub mod storage;
pub mod text;

verus! {

/// A database: the buffer pool and the catalog.
pub struct Database {
    pub bpm: BufferPoolManager,
    pub catalog: Catalog,
}

/// What the first step of running a text gives, by the tables that exist:
/// the parser's complaint in words, or the first step of the statement that
/// the text is.
pub open spec fn run_first_step(sql: Seq<char>, tables: Map<Seq<char>, TableView>) -> Result<
    ExecutionView,
    Seq<char>,
> {
    match parsed(sql) {
        Err(e) => Err(parser_error_text(e)),
        Ok(stat) => statement_first_step(stat, tables),
    }
}

/// The tables that exist after the first step of running a text.
pub open spec fn run_tables_after(sql: Seq<char>, tables: Map<Seq<char>, TableView>) -> Map<
    Seq<char>,
    TableView,
> {
    match parsed(sql) {
        Err(e) => tables,
        Ok(stat) => statement_tables_after(stat, tables),
    }
}

impl Database {
    /// A database with a pool of `pool_size` empty frames and no tables.
    pub fn new(pool_size: usize) -> (db: Database)
        ensures
            db.bpm.wf(),
            db.bpm@.consistent(),
            db.bpm@.frames == Seq::new(pool_size as nat, |f: int| empty_frame()),
            db.bpm@.page_table == Map::<u32, usize>::empty(),
            db.catalog@ == Map::<Seq<char>, TableView>::empty(),
    {
        Database { bpm: BufferPoolManager::new(pool_size), catalog: Catalog::new() }
    }

    /// Parses a statement and takes its first step. The buffer pool is not
    /// touched: where the statement needs pages, the `Execution` says how to
    /// go on.
    pub fn run_statement(&mut self, sql: &str) -> (step: Result<Execution, String>)
        ensures
            step_view(step) == run_first_step(sql@, old(self).catalog@),
            final(self).catalog@ == run_tables_after(sql@, old(self).catalog@),
            final(self).bpm == old(self).bpm,
    {
        let ast = match parse_sql(sql) {
            Ok(ast) => ast,
            Err(e) => {
                return Err(e.to_string());
            },
        };
        let executor = create_executor(ast);
        proof {
            lemma_executor_runs_statement(executor, ast@, self.catalog@);
        }
        executor.execute(&mut self.catalog)
    }
}

} // verus!
