//! Inspects a directory listing, classifies the directory as a programming
//! project, a music-production project, or unknown, derives a deduplicated and
//! sorted tag set, and builds a project record that can be written out as a
//! key-value document and read back.
//!
//! All decisions are made over plain values: the surrounding application reads
//! the directory and hands the entry names in; it receives the finished record
//! back.

pub mod codec;
pub mod project_info;
pub mod text;

pub use project_info::music;
pub use project_info::programming;
pub use project_info::{ProjectInfo, ProjectType};
