//! What every preset has in common.

use vstd::prelude::*;

verus! {

/// A preset of a sound generator, as far as the display is concerned.
/// Sound generators bring their own preset types.
pub trait Preset {
    fn get_id(self) -> usize;

    fn get_name(&self) -> String;
}

} // verus!
