//! The bundle that sets up the user interface systems.

use vstd::prelude::*;

verus! {

/// The user interface bundle. It holds the names of the systems that the text
/// renderer, which is registered as `"ui_text"`, has to run after.
pub struct UiBundle {
    deps: &'static [&'static str],
}

impl UiBundle {
    /// The names of the systems that the text renderer depends on.
    pub closed spec fn dependencies(&self) -> &'static [&'static str] {
        self.deps
    }

    /// A bundle whose text renderer depends on the systems named in `deps`.
    pub fn new(deps: &'static [&'static str]) -> (bundle: Self)
        ensures
            bundle.dependencies() == deps,
    {
        UiBundle { deps }
    }

    /// The names that the bundle was made with.
    pub fn deps(&self) -> (deps: &'static [&'static str])
        ensures
            deps == self.dependencies(),
    {
        self.deps
    }
}

} // verus!
