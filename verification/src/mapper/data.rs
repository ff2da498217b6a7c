use super::math::{projected, UnitPoint};
use std::collections::HashMap;
use vstd::prelude::*;

verus! {

/// The address of one pixel of the world: a tile of the grid and a pixel
/// inside that tile.
#[derive(Debug, Clone, Copy, PartialEq, Eq, Structural)]
pub struct GlobalLocation {
    pub tile_x: u32,
    pub tile_y: u32,
    pub x: u32,
    pub y: u32,
}

/// A road whose geometry lies on the Web Mercator unit square: what the
/// mapper takes in.
#[derive(Debug)]
pub struct ProjectedRoad {
    /// The corners of the bounding box: first the one of least latitude and
    /// longitude (south-west), then the one of greatest (north-east).
    pub extent: (UnitPoint, UnitPoint),
    pub points: Vec<UnitPoint>,
    /// In millimetres.
    pub width: u32,
    pub speedlimit: u8,
}

/// A road on the tile grid: what the mapper gives out.
#[derive(Debug)]
pub struct Road {
    pub points: Vec<GlobalLocation>,
    /// In millimetres.
    pub width: u32,
    pub speedlimit: u8,
}

impl Clone for Road {
    fn clone(&self) -> (road: Self)
        ensures
            road.points@ == self.points@,
            road.width == self.width,
            road.speedlimit == self.speedlimit,
    {
        let points = self.points.clone();
        Road { points, width: self.width, speedlimit: self.speedlimit }
    }
}

impl Road {
    /// This road is `source` with every point projected onto the grid, in
    /// the same order, and with the same attributes.
    pub open spec fn is_projection_of(
        &self,
        source: &ProjectedRoad,
        zoom: u8,
        tile_res: u32,
    ) -> bool {
        &&& self.points@.len() == source.points@.len()
        &&& forall|i: int|
            0 <= i < self.points@.len() ==> #[trigger] self.points@[i] == projected(
                source.points@[i],
                zoom,
                tile_res,
            )
        &&& self.width == source.width
        &&& self.speedlimit == source.speedlimit
    }
}

/// One tile of the grid and the roads that may cross it.
pub struct Tile {
    /// Column and row of the tile.
    pub location: (u32, u32),
    /// Indices into the shared road vector.
    pub road_indices: Vec<usize>,
}

impl Tile {
    /// A tile that no road has reached yet.
    pub fn empty(location: (u32, u32)) -> (tile: Self)
        ensures
            tile.location == location,
            tile.road_indices@ == Seq::<usize>::empty(),
    {
        Self { location, road_indices: Vec::new() }
    }
}

/// The roads of a map on the tile grid, and for each tile the roads whose
/// bounding box reaches it.
pub struct MapTiles {
    pub zoom: u8,
    /// The tiles that some road reaches, by tile key.
    pub tiles: HashMap<u64, Tile>,
    pub roads: Vec<Road>,
}

} // verus!
