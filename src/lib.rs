//! A content-addressed index of the media files in a directory tree, and the
//! reconciliation of a live scan of the tree against it.
use vstd::prelude::*;

pub mod diff;
pub mod hasher;
pub mod index;
pub mod media;
pub mod refresh;
pub mod resolve;
pub mod scan;

verus! {

} // verus!
