//! The ways a lookup of a global name can fail.

use vstd::prelude::*;

verus! {

/// Why a global name could not be looked up.
#[derive(Debug, PartialEq, Eq)]
pub enum Error {
    /// The name is exported by several modules, which are listed.
    AmbiguousName(Vec<String>),
    GlobalNonExistentOrPrivate,
    ModuleNonExistent,
    NoSuchModule,
}

} // verus!
