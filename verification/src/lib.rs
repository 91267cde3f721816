//! Core logic of a real-time sports-odds pipeline.
//!
//! Odds are carried as fixed-point integers (`decimals = 3`); handicap and
//! totals lines are carried in thousandths of a unit.  The modules cover the
//! Monaco order-book engine, the canonical odds record and its merge rules,
//! the processor cache with fair-odds computation, the filter expression
//! evaluator, and the session protocol of the processor edge.

pub mod cache;
pub mod engine_config;
pub mod fair;
pub mod filter;
pub mod market;
pub mod monaco;
pub mod numeric;
pub mod order_book;
pub mod pinnacle;
pub mod processor_config;
pub mod rational;
pub mod record;
pub mod session;
pub mod strutil;
pub mod timeutil;
pub mod update;
