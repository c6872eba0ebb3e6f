//! File objects and the page cache.
pub mod fs;
pub mod io;
pub mod manager;
pub mod page;
pub mod page_cache;
pub mod page_cache_laws;
pub mod page_cache_use_laws;
pub mod page_pool;
pub mod page_tables;
pub mod stat;
