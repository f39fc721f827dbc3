//! Core of a single-page list manager: an ordered list of text entries,
//! each with a completion flag, a view filter, and an in-place edit buffer.
//! All mutation rules live here; rendering and storage plumbing stay outside.

pub mod codec;
pub mod entry;
pub mod filter;
pub mod state;
pub mod text;
