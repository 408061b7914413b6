use vstd::prelude::*;

verus! {

/// The handle through which assets are loaded.
pub struct Resources();

impl Resources {
    pub fn new() -> Self {
        Self()
    }
}

} // verus!
