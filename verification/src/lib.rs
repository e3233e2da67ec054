//! GifVault's library: the rules behind a local gif library manager —
//! the on-disk decode cache format, tag handling, searching, filtering and
//! ordering the library, image decoding and the database queries.

pub mod cache;
pub mod db;
pub mod editor;
pub mod import;
pub mod labels;
pub mod library;
pub mod model;
pub mod order;
pub mod overlays;
pub mod search;
pub mod tags;
pub mod text;
pub mod thumbnail;
