//! Verified core of a small message board.
//!
//! Clients post a username/message pair and read back the stored messages,
//! optionally filtered by a time window given as `after`/`before` query
//! parameters. The modules here hold the validated parsing of those
//! parameters, the store with its time-range filtering, the request
//! dispatcher, and the presenter; each carries a contract checked by Verus.
//! The HTTP transport and the SQL connection live outside this crate.

pub mod errors;
pub mod message;
pub mod payload;
pub mod render;
pub mod router;
pub mod store;
pub mod text;
pub mod time_range;
