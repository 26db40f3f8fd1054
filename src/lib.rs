//! Derivative-media cache and streaming engine of a small media file server:
//! sandboxed path resolution, thumbnail and preview-sprite caches, and
//! byte-range planning for raw content.
use vstd::prelude::*;

pub mod text;
pub mod range;
pub mod error;
pub mod paths;
pub mod media;
pub mod keys;
pub mod thumbnails;
pub mod previews;
pub mod names;
pub mod watch;
pub mod queries;
pub mod config;

verus! {

} // verus!
