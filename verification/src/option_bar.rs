//! Which page of the option bar an external renderer shows.

use vstd::prelude::*;

verus! {

/// The menu page currently shown under the board.
#[derive(Clone, Copy, Debug, PartialEq, Eq, Structural)]
pub enum MenuState {
    Main,
    Display,
}

} // verus!
