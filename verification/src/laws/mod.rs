//! What the operations are for, stated by what goes in and what comes out.

pub mod collecting;
pub mod lines;
pub mod program;
pub mod receiver;
pub mod requests;
pub mod retry;
pub mod rows;
pub mod settings;
pub mod sizes;
pub mod spans;
pub mod table;
pub mod times;
pub mod words;
