pub mod query_files;
pub mod index_status;
pub mod trace_block;
pub mod index_build;
