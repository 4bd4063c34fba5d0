//! Build-time tooling for a documentation site: compiles markdown modules
//! into an embeddable page table and patches a compiled web bundle so it
//! runs when opened directly from the local file system.

pub mod embed;
pub mod frontmatter;
pub mod loader;
pub mod locate;
pub mod navigation;
pub mod patch;
pub mod pages;
pub mod media;
pub mod text;

use vstd::prelude::*;

verus! {

/// The sentinel placed on pages whose frontmatter gives no `order`:
/// large, so unordered pages sort last within their category.
pub const DEFAULT_ORDER: u32 = 0xFFFF_FFFF;

} // verus!
