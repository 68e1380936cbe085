//! In-memory replica of per-instrument limit order books, fed by a tailing
//! reader over hourly-rotating log files and reconciled against periodic
//! full snapshots, with wallet-filtered event streams and spread queries.

pub mod book;
pub mod book_laws;
pub mod diff;
pub mod events;
pub mod frames;
pub mod lines;
pub mod loader;
pub mod price;
pub mod protocol;
pub mod queries;
pub mod rotation;
pub mod router;
pub mod schemas;
pub mod service;
pub mod streams;
pub mod sync;
pub mod tail;
pub mod text;
