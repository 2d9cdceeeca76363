pub mod block_ranges;
pub mod blocks;
pub mod diff_builder;
pub mod line_diff;
pub mod rows;
pub mod file_overlay;
pub mod lcs;
