//! Directory listing engine: entry classification, filtering and ordering,
//! file size formatting and the column layout of a listing.
pub mod text;
pub mod size;
pub mod entry;
pub mod layout;
pub mod order;
