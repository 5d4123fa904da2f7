//! Display configuration read by an external renderer: which palette to use,
//! whether to color by tallies or by trails, and whether to print each cell's
//! cached count. The engine defines no color semantics itself.

use vstd::prelude::*;

verus! {

/// Color palette an external renderer picks cell colors from.
#[derive(Clone, Copy, Debug, PartialEq, Eq, Structural)]
pub enum Palette {
    Heatmap,
    White,
}

/// What a dead cell's color encodes: its cached tally, or its fading trail.
#[derive(Clone, Copy, Debug, PartialEq, Eq, Structural)]
pub enum Mode {
    Normal,
    Trail,
}

/// The renderer settings the input handler toggles.
#[derive(Clone, Copy, Debug, PartialEq, Eq, Structural)]
pub struct DisplayConfig {
    pub show_neighbor_count: bool,
    pub mode: Mode,
    pub color_palette: Palette,
}

} // verus!
