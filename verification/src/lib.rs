//! A small line-oriented shell front end: an incrementally searchable
//! suggestion cache fed by a background producer, a line buffer with
//! prefix completion, and a render/scroll state model that turns every
//! edit into a sequence of terminal drawing actions.

pub mod cache;
pub mod laws;
pub mod render;
pub mod session;
pub mod text;
