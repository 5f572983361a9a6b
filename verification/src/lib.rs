//! A date-keyed record store with a date-expression resolver and
//! import/export reconciliation, specified and verified with Verus.

pub mod command;
pub mod date;
pub mod datestr;
pub mod day;
pub mod error;
pub mod event;
pub mod export;
pub mod reconcile;
pub mod record;
pub mod resolve;
pub mod store;
