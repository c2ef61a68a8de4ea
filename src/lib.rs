//! Checked and unchecked access to small owned collections, with filtering,
//! mapping and in-place mutation, plus a few arithmetic and string helpers.
pub mod basics;
pub mod rect;
pub mod safe_vec;
pub mod safe_map;
pub mod laws;
