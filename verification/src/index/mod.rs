pub mod migrations;
pub mod queries;
pub mod writer;
