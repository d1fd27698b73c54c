//! In-memory file resolution, wiki-link expansion and link extraction for a
//! document compiler that runs without a file system.

pub mod identity;
pub mod preprocess;
pub mod world;
pub mod links;
pub mod render;
