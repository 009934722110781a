//! FrontPress Local's core: the site list and settings, PHP version
//! handling (ordering, "major.minor" picking, the static-php.dev listing and
//! the Windows release catalogue), slugs, and the decisions behind each UI
//! command (creating, copying, importing, discovering and relocating sites,
//! the PHP catalogue, the editor launcher). Disk, network and process work is
//! left to the caller, which passes the outcomes in.

use vstd::prelude::*;

pub mod text;
pub mod version;
pub mod catalog;
pub mod php;
pub mod counting;
pub mod store;
pub mod slug;
pub mod errors;
pub mod commands;
pub mod lifecycle;
pub mod editor;

verus! {

} // verus!
