//! A page cache, lock manager and commit engine for databases replicated
//! through a remote transaction-log store.

pub mod checksum;
pub mod database;
pub mod error;
pub mod http;
pub mod interner;
pub mod leaser;
pub mod lfsc;
pub mod locks;
pub mod lru;
pub mod ltx;
pub mod page_set;
pub mod pager;
pub mod sqlite;
pub mod syncer;
pub mod text;
pub mod types;
pub mod vfs;
