//! Running statements: the catalog of tables, the encoding of rows, and the
//! executors.

pub mod catalog;
pub mod codec;
pub mod executors;
pub mod result;
pub mod roundtrip;

pub use executors::{create_executor, Executor};
pub use result::{ExecutionResult, Tuple};
