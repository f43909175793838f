//! Active/standby tables: two copies of one table, so that readers always
//! find a table that no writer touches.
//!
//! Writers apply each update to the standby table at once and log it; when the
//! write session ends the tables swap roles, and the next write session
//! replays the log on the new standby table, which brings both copies back
//! into agreement.

pub mod types;
pub mod table;

pub use crate::types::UpdateTables;
pub mod sync;
pub mod collections;
pub mod reader_slab;
pub mod readers;
pub mod lockless;
pub mod laws;
