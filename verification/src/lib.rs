//! Flat-file note and task store: Markdown codecs for tasks and notes,
//! pure load/update logic over file listings, and path/identifier helpers.

pub mod models;
pub mod note_md;
pub mod ops;
pub mod store;
pub mod utils;
pub mod task_md;
pub mod text;

