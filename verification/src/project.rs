use vstd::prelude::*;

verus! {

/// Whether to follow the manifest of the dependencies when fetching them.
#[derive(Clone, Copy, Debug, PartialEq, Eq, Structural)]
pub enum UseManifest {
    Yes,
    No,
}

} // verus!
