//! The loader of plane descriptions.

use vstd::prelude::*;

verus! {

/// Loads plane descriptions from asset files.
#[derive(Clone, Copy, Debug, Default)]
pub struct PlaneAssetLoader;

impl PlaneAssetLoader {
    /// The file extension of the assets that this loader takes.
    pub open spec fn extension() -> Seq<char> {
        "plane.ron"@
    }

    /// The file extensions of the assets that this loader takes.
    pub fn extensions(&self) -> (extensions: &'static [&'static str])
        ensures
            extensions@.len() == 1,
            extensions@[0]@ == Self::extension(),
    {
        &["plane.ron"]
    }
}

} // verus!
