//! Where spans go.

pub mod clickhouse;
pub mod console;
pub mod memory;
pub mod statements;

pub use clickhouse::ClickhouseSink;
pub use console::ConsoleSink;
pub use memory::MemorySink;
