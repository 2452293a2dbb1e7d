//! Verified core of the QCM backend: the full-text-search tokenizer and its
//! SQL setup, the piece and block bookkeeping of the media cache, the
//! decision logic of the cache's connection, IO, bus and task handlers, and
//! the routing, filtering and error answers of requests.
use vstd::prelude::*;

pub mod text;
pub mod tokenizer;
pub mod piece;
pub mod connection;
pub mod block_store;
pub mod source_actor;
pub mod io;
pub mod sync_status;
pub mod global;
pub mod reverse_handler;
pub mod connection_handler;
pub mod task;
pub mod http_route;
pub mod db_filter;
pub mod convert;
pub mod bus;
pub mod file_cache;
pub mod media_key;
pub mod fts_schema;
pub mod error;
pub mod dispatch;

verus! {

} // verus!
