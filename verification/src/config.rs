//! Settings of one conversion run.

use vstd::prelude::*;

verus! {

/// The settings of the mapper and of whoever draws its output.
#[derive(Debug, Clone, Copy)]
pub struct Config {
    pub mapping: ConfigMapping,
    pub style: ConfigStyle,
}

/// The tile grid that roads are mapped onto.
#[derive(Debug, Clone, Copy)]
pub struct ConfigMapping {
    /// Width and height of one tile, in pixels.
    pub tile_res: u32,
    /// Exponent of the tile grid: the world is `2^zoom` tiles wide and high.
    pub zoom: u8,
}

/// How the roads are drawn.
#[derive(Debug, Clone, Copy)]
pub struct ConfigStyle {
    /// Not read by the conversion itself; carried along for whoever draws.
    pub road_color: [u8; 3],
}

} // verus!
