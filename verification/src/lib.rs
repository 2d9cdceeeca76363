pub mod attribution;
pub mod cache;
pub mod cli;
pub mod commands;
pub mod contracts;
pub mod error;
pub mod execution;

pub mod git;
pub mod index;
pub mod json;
pub mod overlay;
pub mod spike;
pub mod text;
pub mod text_encoding;
