//! Replaces emoji in the content documents of an EPUB archive with inline
//! image references, patches the package manifest to list the images, and
//! lays out the members of the new archive.

pub mod text;
pub mod classify;
pub mod rewrite;
pub mod xml;
pub mod manifest;
pub mod container;
pub mod package;
pub mod resolver;

use vstd::prelude::*;

verus! {

/// Where emoji images may come from when they are not yet in the local cache.
#[derive(Clone, Copy, Debug, PartialEq, Eq)]
pub enum EmojiSourceMode {
    /// The remote image source is asked when the cache has no copy.
    Online,
    /// Only the local cache is used.
    Local,
}

} // verus!
