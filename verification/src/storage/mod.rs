//! Pages and the structures that keep them in memory.

pub mod buffer_pool;
pub mod disk;
pub mod page;
pub mod replacer;
