//! The closed set of logical pages.

use vstd::prelude::*;

verus! {

/// Identifies which logical page is active.
///
/// `Unknown` stands for every state that names no page; it is the value a
/// navigation cell starts with.
#[derive(Clone, Copy, Debug, PartialEq, Eq, PartialOrd, Structural)]
pub enum PageId {
    Home,
    Projects,
    Unknown,
}

impl Default for PageId {
    /// The initial page identifier: `Unknown`.
    fn default() -> (id: PageId)
        ensures
            id == PageId::Unknown,
    {
        PageId::Unknown
    }
}

} // verus!
