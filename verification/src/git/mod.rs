pub mod commits;
pub mod diff;
pub mod blame;
pub mod blob;
pub mod repository;
