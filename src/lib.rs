pub mod config;
pub mod feed;
pub mod laws;
pub mod node;
pub mod sessiontree;
pub mod utils;
