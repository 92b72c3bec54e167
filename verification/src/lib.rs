//! A verified model of an agricultural-equipment auction ledger: the rows it
//! keeps, the integrity rules every mutation is held to, and the engine that
//! walks a database through its ordered schema migrations.
//!
//! The ledger lives in [`store::Store`]; what it is as a mathematical value,
//! and what each mutation makes of it, is [`state::State`]. The current time
//! comes in with each mutation, in whatever unit the host's clock counts, and
//! is what the rows that mutation stores or changes are stamped with; the
//! store also keeps the latest time it has been told of. Money is counted in
//! hundredths of the currency unit.

pub mod executor;
pub mod export;
pub mod integrity;
pub mod laws;
pub mod migration;
pub mod row;
pub mod schema;
pub mod state;
pub mod store;
pub mod vocabulary;
