//! Passive subdomain discovery: extraction of subdomain names from fetched
//! content, the pagination and authentication protocol of API sources, and
//! the bookkeeping of a scan that runs many sources and resolves what they
//! find.
pub mod hostname;
pub mod order;
pub mod status;
pub mod names;
pub mod extractors;
pub mod urls;
pub mod modules;
pub mod sources;
pub mod results;
pub mod pool;
pub mod cache;
pub mod cli;
pub mod zonetransfer;
