//! Where tiles and points fall in one picture of the whole map.
//!
//! The picture shows the tiles side by side, each `tile_res` pixels wide
//! and high, from the least column and row among them to the greatest,
//! and one tile more on every side but the left and the top.

use crate::mapper::{GlobalLocation, Tile};
use std::collections::HashMap;
use vstd::prelude::*;
use vstd::std_specs::iter::IteratorSpec;

verus! {

broadcast use vstd::std_specs::hash::group_hash_axioms;

/// The least and the greatest column and row among some tiles.
#[derive(Debug, Clone, Copy, PartialEq, Eq, Structural)]
pub struct TileBounds {
    pub x_min: u32,
    pub y_min: u32,
    pub x_max: u32,
    pub y_max: u32,
}

impl TileBounds {
    /// The bounds hold the tile.
    pub open spec fn holds(self, location: (u32, u32)) -> bool {
        &&& self.x_min <= location.0 <= self.x_max
        &&& self.y_min <= location.1 <= self.y_max
    }

    /// The bounds are those of the tiles: they hold every tile, and each of
    /// the four is the column or row of one of them.
    pub open spec fn bound(self, tiles: Map<u64, Tile>) -> bool {
        &&& forall|key: u64| tiles.contains_key(key) ==> self.holds(#[trigger] tiles[key].location)
        &&& exists|key: u64|
            tiles.contains_key(key) && (#[trigger] tiles[key]).location.0 == self.x_min
        &&& exists|key: u64|
            tiles.contains_key(key) && (#[trigger] tiles[key]).location.1 == self.y_min
        &&& exists|key: u64|
            tiles.contains_key(key) && (#[trigger] tiles[key]).location.0 == self.x_max
        &&& exists|key: u64|
            tiles.contains_key(key) && (#[trigger] tiles[key]).location.1 == self.y_max
    }
}

/// Finds the bounds of the tiles. There are none where there is no tile.
pub fn tile_bounds(tiles: &HashMap<u64, Tile>) -> (bounds: Option<TileBounds>)
    ensures
        match bounds {
            Some(bounds) => bounds.bound(tiles@),
            None => tiles@.dom().len() == 0,
        },
{
    let mut bounds: Option<TileBounds> = None;
    let ghost walk = tiles.values().remaining();
    for tile in it: tiles.values()
        invariant
            it.seq() == walk,
            it.seq().unref().to_set() == tiles@.values(),
            it.seq().len() == tiles@.dom().len(),
            match bounds {
                Some(bounds) => {
                    &&& it.index() > 0
                    &&& forall|j: int|
                        0 <= j < it.index() ==> bounds.holds((#[trigger] walk[j]).location)
                    &&& exists|j: int|
                        0 <= j < it.index() && (#[trigger] walk[j]).location.0 == bounds.x_min
                    &&& exists|j: int|
                        0 <= j < it.index() && (#[trigger] walk[j]).location.1 == bounds.y_min
                    &&& exists|j: int|
                        0 <= j < it.index() && (#[trigger] walk[j]).location.0 == bounds.x_max
                    &&& exists|j: int|
                        0 <= j < it.index() && (#[trigger] walk[j]).location.1 == bounds.y_max
                },
                None => it.index() == 0,
            },
    {
        let (x, y) = tile.location;
        bounds = Some(
            match bounds {
                Some(b) => TileBounds {
                    x_min: if x < b.x_min { x } else { b.x_min },
                    y_min: if y < b.y_min { y } else { b.y_min },
                    x_max: if x > b.x_max { x } else { b.x_max },
                    y_max: if y > b.y_max { y } else { b.y_max },
                },
                None => TileBounds { x_min: x, y_min: y, x_max: x, y_max: y },
            },
        );
    }
    proof {
        if let Some(b) = bounds {
            let seen = walk.unref();
            assert forall|key: u64| tiles@.contains_key(key) implies b.holds(
                #[trigger] tiles@[key].location,
            ) by {
                assert(seen.to_set().contains(tiles@[key]));
                let j = choose|j: int| 0 <= j < seen.len() && seen[j] == tiles@[key];
            }
            let n = walk.len();
            let j = choose|j: int| 0 <= j < n && (#[trigger] walk[j]).location.0 == b.x_min;
            lemma_met_tile_has_key(tiles@, walk, j);
            let j = choose|j: int| 0 <= j < n && (#[trigger] walk[j]).location.1 == b.y_min;
            lemma_met_tile_has_key(tiles@, walk, j);
            let j = choose|j: int| 0 <= j < n && (#[trigger] walk[j]).location.0 == b.x_max;
            lemma_met_tile_has_key(tiles@, walk, j);
            let j = choose|j: int| 0 <= j < n && (#[trigger] walk[j]).location.1 == b.y_max;
            lemma_met_tile_has_key(tiles@, walk, j);
        }
    }
    bounds
}

/// A tile that was met on a walk through the values of the map sits
/// under some key.
proof fn lemma_met_tile_has_key(tiles: Map<u64, Tile>, walk: Seq<&Tile>, j: int)
    requires
        walk.unref().to_set() == tiles.values(),
        0 <= j < walk.len(),
    ensures
        exists|key: u64| tiles.contains_key(key) && #[trigger] tiles[key] == *walk[j],
{
    let tile = walk.unref()[j];
    assert(walk.unref().to_set().contains(tile));
}

/// The width and height of the picture in pixels: as many tiles as lie
/// between the bounds, both ends counted, and one more, each `tile_res`
/// pixels wide and high.
pub open spec fn picture_size(bounds: TileBounds, tile_res: u32) -> (int, int) {
    ((bounds.x_max - bounds.x_min + 2) * tile_res, (bounds.y_max - bounds.y_min + 2) * tile_res)
}

/// Computes the size of the picture. There is none where the bounds are
/// the wrong way round or where the width or height is more than a `u32`
/// holds.
pub fn image_size(bounds: TileBounds, tile_res: u32) -> (size: Option<(u32, u32)>)
    ensures
        size == if bounds.x_min <= bounds.x_max && bounds.y_min <= bounds.y_max && picture_size(
            bounds,
            tile_res,
        ).0 <= u32::MAX && picture_size(bounds, tile_res).1 <= u32::MAX {
            Some((picture_size(bounds, tile_res).0 as u32, picture_size(bounds, tile_res).1 as u32))
        } else {
            None
        },
{
    if bounds.x_min > bounds.x_max || bounds.y_min > bounds.y_max {
        return None;
    }
    let width = scale((bounds.x_max - bounds.x_min) as u64 + 2, tile_res);
    let height = scale((bounds.y_max - bounds.y_min) as u64 + 2, tile_res);
    if width > u32::MAX as u64 || height > u32::MAX as u64 {
        return None;
    }
    Some((width as u32, height as u32))
}

/// A number of tiles in pixels.
fn scale(tiles: u64, tile_res: u32) -> (pixels: u64)
    requires
        tiles <= 0x1_0000_0001,
    ensures
        pixels == tiles * tile_res,
        tiles <= 0xffff_ffff ==> pixels <= 0xffff_ffff * 0xffff_ffff,
{
    assert(tiles <= 0xffff_ffff ==> tiles as int * tile_res as int <= 0xffff_ffff * 0xffff_ffff)
        by (nonlinear_arith)
        requires
            0 <= tiles,
            0 <= tile_res <= 0xffff_ffff,
    ;
    assert(tiles as int * tile_res as int <= 0x1_0000_0001 * 0xffff_ffff) by (nonlinear_arith)
        requires
            0 <= tiles <= 0x1_0000_0001,
            0 <= tile_res <= 0xffff_ffff,
    ;
    tiles * tile_res as u64
}

/// Where a point falls in a picture whose top left corner is the top left
/// corner of the tile at `origin`: the tiles between, in pixels, plus the
/// pixel inside the point's own tile.
pub open spec fn picture_position(location: GlobalLocation, origin: (u32, u32), tile_res: u32) -> (
    int,
    int,
) {
    (
        (location.tile_x - origin.0) * tile_res + location.x,
        (location.tile_y - origin.1) * tile_res + location.y,
    )
}

/// Computes where a point falls in the picture. It falls nowhere where its
/// tile lies left of or above the origin, or where a position is more than
/// a `u32` holds.
pub fn pixel_position(location: GlobalLocation, origin: (u32, u32), tile_res: u32) -> (position:
    Option<(u32, u32)>)
    ensures
        position == if has_position(location, origin, tile_res) {
            Some(
                (
                    picture_position(location, origin, tile_res).0 as u32,
                    picture_position(location, origin, tile_res).1 as u32,
                ),
            )
        } else {
            None
        },
{
    if location.tile_x < origin.0 || location.tile_y < origin.1 {
        return None;
    }
    let x = scale((location.tile_x - origin.0) as u64, tile_res) + location.x as u64;
    let y = scale((location.tile_y - origin.1) as u64, tile_res) + location.y as u64;
    if x > u32::MAX as u64 || y > u32::MAX as u64 {
        return None;
    }
    Some((x as u32, y as u32))
}

/// Whether a point falls somewhere in the picture: its tile lies neither
/// left of nor above the origin, and its position is no more than a `u32`
/// holds.
pub open spec fn has_position(location: GlobalLocation, origin: (u32, u32), tile_res: u32) -> bool {
    &&& origin.0 <= location.tile_x
    &&& origin.1 <= location.tile_y
    &&& picture_position(location, origin, tile_res).0 <= u32::MAX
    &&& picture_position(location, origin, tile_res).1 <= u32::MAX
}

/// Whether `position` is where a point falls in the picture.
pub open spec fn falls_at(
    position: (u32, u32),
    location: GlobalLocation,
    origin: (u32, u32),
    tile_res: u32,
) -> bool {
    &&& position.0 == picture_position(location, origin, tile_res).0
    &&& position.1 == picture_position(location, origin, tile_res).1
}

/// Computes where the points of a road fall in the picture, in order.
/// There is no answer where one of them falls nowhere.
pub fn road_positions(
    points: &Vec<GlobalLocation>,
    origin: (u32, u32),
    tile_res: u32,
) -> (positions: Option<Vec<(u32, u32)>>)
    ensures
        positions is Some <==> forall|i: int|
            0 <= i < points@.len() ==> has_position(#[trigger] points@[i], origin, tile_res),
        positions matches Some(positions) ==> {
            &&& positions@.len() == points@.len()
            &&& forall|i: int|
                0 <= i < points@.len() ==> falls_at(
                    #[trigger] positions@[i],
                    points@[i],
                    origin,
                    tile_res,
                )
        },
{
    let mut positions: Vec<(u32, u32)> = Vec::new();
    let mut i: usize = 0;
    while i < points.len()
        invariant
            i <= points@.len(),
            positions@.len() == i,
            forall|j: int| 0 <= j < i ==> has_position(#[trigger] points@[j], origin, tile_res),
            forall|j: int|
                0 <= j < i ==> falls_at(#[trigger] positions@[j], points@[j], origin, tile_res),
        decreases points@.len() - i,
    {
        match pixel_position(points[i], origin, tile_res) {
            Some(position) => positions.push(position),
            None => {
                return None;
            },
        }
        i += 1;
    }
    Some(positions)
}

/// A point of a tile within the bounds falls inside the picture, more than
/// a tile away from its right and lower edge.
pub proof fn lemma_point_falls_inside_picture(
    bounds: TileBounds,
    location: GlobalLocation,
    tile_res: u32,
)
    requires
        bounds.holds((location.tile_x, location.tile_y)),
        location.x < tile_res,
        location.y < tile_res,
    ensures
        ({
            let position = picture_position(location, (bounds.x_min, bounds.y_min), tile_res);
            let size = picture_size(bounds, tile_res);
            &&& 0 <= position.0 < size.0 - tile_res
            &&& 0 <= position.1 < size.1 - tile_res
        }),
{
    let r = tile_res as int;
    let dx = location.tile_x - bounds.x_min;
    let dy = location.tile_y - bounds.y_min;
    let wx = bounds.x_max - bounds.x_min;
    let wy = bounds.y_max - bounds.y_min;
    assert(0 <= dx * r && dx * r + r <= (wx + 1) * r && (wx + 2) * r == (wx + 1) * r + r)
        by (nonlinear_arith)
        requires
            0 <= dx <= wx,
            0 <= r,
    ;
    assert(0 <= dy * r && dy * r + r <= (wy + 1) * r && (wy + 2) * r == (wy + 1) * r + r)
        by (nonlinear_arith)
        requires
            0 <= dy <= wy,
            0 <= r,
    ;
}

} // verus!
