//! The index of roads by tile.
//!
//! A road is entered in every tile that the scan of its bounding box
//! reaches. The scan goes by the tiles of the two corners of the box: it
//! takes the columns from that of the south-west corner up to, but not
//! including, that of the north-east corner, and the rows from that of the
//! north-east corner up to, but not including, that of the south-west
//! corner. So a road may be entered in a tile that its line never crosses,
//! and it is not entered in the last column and row that its box touches; a
//! road whose box lies within one column or one row is entered nowhere.

use super::data::{GlobalLocation, MapTiles, ProjectedRoad, Road, Tile};
use super::math::{
    coord_to_tile, lemma_tile_index_in_grid, projected, tiles_per_row, UnitPoint, MAX_ZOOM,
};
use crate::config::Config;
use std::collections::HashMap;
use vstd::arithmetic::div_mod::{lemma_fundamental_div_mod, lemma_fundamental_div_mod_converse};
use vstd::arithmetic::power2::{lemma2_to64, lemma_pow2_pos, lemma_pow2_strictly_increases, pow2};
use vstd::prelude::*;

verus! {

broadcast use vstd::std_specs::hash::group_hash_axioms;

/// The key of a tile in the tile map. The grid is numbered row by row,
/// `2^zoom` tiles to a row.
pub open spec fn tile_key(column: int, row: int, zoom: u8) -> int {
    column + pow2(zoom as nat) * row
}

/// The column of the tile that a key stands for.
pub open spec fn key_column(key: u64, zoom: u8) -> int {
    key as int % pow2(zoom as nat) as int
}

/// The row of the tile that a key stands for.
pub open spec fn key_row(key: u64, zoom: u8) -> int {
    key as int / pow2(zoom as nat) as int
}

/// Two different tiles of one grid never share a key.
pub proof fn lemma_tile_key_unique(zoom: u8, column1: int, row1: int, column2: int, row2: int)
    requires
        0 <= column1 < pow2(zoom as nat),
        0 <= column2 < pow2(zoom as nat),
        0 <= row1 < pow2(zoom as nat),
        0 <= row2 < pow2(zoom as nat),
        column1 != column2 || row1 != row2,
    ensures
        tile_key(column1, row1, zoom) != tile_key(column2, row2, zoom),
{
    let n = pow2(zoom as nat) as int;
    let key = tile_key(column1, row1, zoom);
    if key == tile_key(column2, row2, zoom) {
        lemma_fundamental_div_mod_converse(key, n, row1, column1);
        lemma_fundamental_div_mod_converse(key, n, row2, column2);
    }
}

/// A key names the tile at its column and row.
pub proof fn lemma_tile_key_parts(zoom: u8, column: int, row: int)
    requires
        0 <= column < pow2(zoom as nat),
        0 <= row,
        tile_key(column, row, zoom) <= u64::MAX,
    ensures
        key_column(tile_key(column, row, zoom) as u64, zoom) == column,
        key_row(tile_key(column, row, zoom) as u64, zoom) == row,
{
    let n = pow2(zoom as nat) as int;
    assert(0 <= n * row) by (nonlinear_arith)
        requires
            0 <= n,
            0 <= row,
    ;
    lemma_fundamental_div_mod_converse(tile_key(column, row, zoom), n, row, column);
}

/// Computes the key of a tile on a grid that is `max_tiles_x` tiles wide:
/// the column plus `max_tiles_x` times the row. With `max_tiles_x` the
/// [`tiles_per_row`] of a zoom level, that is the [`tile_key`] of the tile
/// at that zoom level.
pub fn tile_id(column: u32, row: u32, max_tiles_x: u64) -> (key: u64)
    requires
        max_tiles_x <= 0x1_0000_0000,
    ensures
        key == column + max_tiles_x * row,
{
    assert(max_tiles_x as int * row as int <= 0x1_0000_0000 * 0xffff_ffff) by (nonlinear_arith)
        requires
            0 <= max_tiles_x <= 0x1_0000_0000,
            0 <= row <= 0xffff_ffff,
    ;
    column as u64 + max_tiles_x * row as u64
}

/// Whether the scan of a bounding box reaches a tile. The box has its
/// south-west corner at `low` and its north-east corner at `high`; since rows
/// are counted southwards, `low` has the larger row. The scan takes the
/// columns from `low.tile_x` up to, not including, `high.tile_x`, and the rows
/// from `high.tile_y` up to, not including, `low.tile_y`.
pub open spec fn scan_reaches(
    low: GlobalLocation,
    high: GlobalLocation,
    column: int,
    row: int,
) -> bool {
    &&& low.tile_x <= column < high.tile_x
    &&& high.tile_y <= row < low.tile_y
}

/// Whether the scan of a road's bounding box reaches a tile.
pub open spec fn road_reaches(
    road: &ProjectedRoad,
    zoom: u8,
    tile_res: u32,
    column: int,
    row: int,
) -> bool {
    scan_reaches(
        projected(road.extent.0, zoom, tile_res),
        projected(road.extent.1, zoom, tile_res),
        column,
        row,
    )
}

/// One road being entered in the tile map: the map before, the grid, the
/// corners of the scan and the index of the road.
struct Entering {
    before: Map<u64, Tile>,
    zoom: u8,
    low: GlobalLocation,
    high: GlobalLocation,
    road_id: usize,
}

impl Entering {
    /// What entering the road does to the entry under one key. Where the
    /// road is `entered` in the tile that the key stands for, the tile holds
    /// one more index, that of the road, at the end, and is new if there was
    /// none. Where it is not, the entry is as before.
    spec fn entry_is(self, after: Map<u64, Tile>, key: u64, entered: bool) -> bool {
        if entered {
            &&& after.contains_key(key)
            &&& after[key].location == if self.before.contains_key(key) {
                self.before[key].location
            } else {
                (key_column(key, self.zoom) as u32, key_row(key, self.zoom) as u32)
            }
            &&& after[key].road_indices@ == if self.before.contains_key(key) {
                self.before[key].road_indices@.push(self.road_id)
            } else {
                seq![self.road_id]
            }
        } else {
            &&& after.contains_key(key) == self.before.contains_key(key)
            &&& after.contains_key(key) ==> after[key] == self.before[key]
        }
    }

    /// Whether the scan has passed the tile of a key by the time it is at
    /// `column`, `row`. It goes column by column and, within a column, row
    /// by row.
    spec fn passed(self, column: int, row: int, key: u64) -> bool {
        let c = key_column(key, self.zoom);
        let r = key_row(key, self.zoom);
        &&& scan_reaches(self.low, self.high, c, r)
        &&& (c < column || (c == column && r < row))
    }

    /// The entry under a key when the scan is at `column`, `row`: the road is
    /// entered in the tiles that the scan has passed.
    spec fn scanned(self, after: Map<u64, Tile>, column: int, row: int, key: u64) -> bool {
        self.entry_is(after, key, self.passed(column, row, key))
    }

    /// The entry under a key when the scan is over: the road is entered in
    /// the tiles that the scan reaches.
    spec fn done(self, after: Map<u64, Tile>, key: u64) -> bool {
        self.entry_is(
            after,
            key,
            scan_reaches(
                self.low,
                self.high,
                key_column(key, self.zoom),
                key_row(key, self.zoom),
            ),
        )
    }
}

/// Projects every point of a road, in order.
fn map_points(points: &Vec<UnitPoint>, zoom: u8, tile_res: u32) -> (mapped: Vec<GlobalLocation>)
    requires
        zoom <= MAX_ZOOM,
    ensures
        mapped@.len() == points@.len(),
        forall|i: int|
            0 <= i < mapped@.len() ==> #[trigger] mapped@[i] == projected(
                points@[i],
                zoom,
                tile_res,
            ),
{
    let mut mapped: Vec<GlobalLocation> = Vec::new();
    let mut i: usize = 0;
    while i < points.len()
        invariant
            zoom <= MAX_ZOOM,
            i <= points@.len(),
            mapped@.len() == i,
            forall|j: int|
                0 <= j < i ==> #[trigger] mapped@[j] == projected(points@[j], zoom, tile_res),
        decreases points@.len() - i,
    {
        mapped.push(coord_to_tile(points[i], zoom, tile_res));
        i += 1;
    }
    mapped
}

/// Appends the projected road to `mapped_roads` and its index there to
/// every tile that the scan of its bounding box reaches.
#[verifier::loop_isolation(false)]
fn map_road_to_tiles(
    zoom: u8,
    tile_res: u32,
    max_tiles_x: u64,
    tiles: &mut HashMap<u64, Tile>,
    mapped_roads: &mut Vec<Road>,
    road: &ProjectedRoad,
)
    requires
        zoom <= MAX_ZOOM,
        max_tiles_x == pow2(zoom as nat),
    ensures
        final(mapped_roads)@.len() == old(mapped_roads)@.len() + 1,
        final(mapped_roads)@.drop_last() == old(mapped_roads)@,
        final(mapped_roads)@.last().is_projection_of(road, zoom, tile_res),
        forall|key: u64| #[trigger]
            (Entering {
                before: old(tiles)@,
                zoom,
                low: projected(road.extent.0, zoom, tile_res),
                high: projected(road.extent.1, zoom, tile_res),
                road_id: old(mapped_roads)@.len() as usize,
            }).done(final(tiles)@, key),
{
    let mapped_points = map_points(&road.points, zoom, tile_res);
    let road_id: usize = mapped_roads.len();
    mapped_roads.push(
        Road { points: mapped_points, width: road.width, speedlimit: road.speedlimit },
    );

    let pos_min = coord_to_tile(road.extent.0, zoom, tile_res);
    let pos_max = coord_to_tile(road.extent.1, zoom, tile_res);
    let ghost entering = Entering { before: tiles@, zoom, low: pos_min, high: pos_max, road_id };
    let ghost first_row = pos_max.tile_y as int;
    proof {
        lemma2_to64();
        lemma_pow2_strictly_increases(zoom as nat, 32);
    }

    let mut tx: u32 = pos_min.tile_x;
    while tx < pos_max.tile_x
        invariant
            pos_min.tile_x <= tx,
            forall|key: u64| #[trigger] entering.scanned(tiles@, tx as int, first_row, key),
        decreases pos_max.tile_x - tx,
    {
        let mut ty: u32 = pos_max.tile_y;
        while ty < pos_min.tile_y
            invariant
                pos_min.tile_x <= tx < pos_max.tile_x,
                pos_max.tile_y <= ty,
                forall|key: u64| #[trigger] entering.scanned(tiles@, tx as int, ty as int, key),
            decreases pos_min.tile_y - ty,
        {
            let tile_id: u64 = tile_id(tx, ty, max_tiles_x);
            let ghost earlier = tiles@;
            proof {
                lemma_tile_key_parts(zoom, tx as int, ty as int);
            }
            let tile = tiles.entry(tile_id).or_insert(Tile::empty((tx, ty)));
            tile.road_indices.push(road_id);
            proof {
                assert forall|key: u64| #[trigger]
                    entering.scanned(tiles@, tx as int, ty + 1, key) by {
                    assert(entering.scanned(earlier, tx as int, ty as int, key));
                    if key != tile_id {
                        lemma_pow2_pos(zoom as nat);
                        lemma_fundamental_div_mod(key as int, pow2(zoom as nat) as int);
                    }
                }
            }
            ty += 1;
        }
        proof {
            assert forall|key: u64| #[trigger] entering.scanned(tiles@, tx + 1, first_row, key) by {
                assert(entering.scanned(tiles@, tx as int, ty as int, key));
            }
        }
        tx += 1;
    }
    proof {
        assert forall|key: u64| #[trigger] entering.done(tiles@, key) by {
            assert(entering.scanned(tiles@, tx as int, first_row, key));
        }
    }
}

/// `indices` names, in increasing order, exactly the roads whose scan
/// reaches the tile at `column`, `row`.
pub open spec fn lists_roads_reaching(
    indices: Seq<usize>,
    roads: Seq<ProjectedRoad>,
    zoom: u8,
    tile_res: u32,
    column: int,
    row: int,
) -> bool {
    &&& forall|j: int|
        0 <= j < indices.len() ==> (#[trigger] indices[j]) < roads.len() && road_reaches(
            &roads[indices[j] as int],
            zoom,
            tile_res,
            column,
            row,
        )
    &&& forall|j: int, k: int| 0 <= j < k < indices.len() ==> indices[j] < indices[k]
    &&& forall|i: int|
        0 <= i < roads.len() && #[trigger] road_reaches(&roads[i], zoom, tile_res, column, row)
            ==> indices.contains(i as usize)
}

/// Whether the scan of any of the roads reaches the tile at `column`, `row`.
pub open spec fn some_road_reaches(
    roads: Seq<ProjectedRoad>,
    zoom: u8,
    tile_res: u32,
    column: int,
    row: int,
) -> bool {
    exists|i: int|
        0 <= i < roads.len() && #[trigger] road_reaches(&roads[i], zoom, tile_res, column, row)
}

/// The entry under one key is as the roads demand: where some road's scan
/// reaches the tile that the key stands for, the map holds that tile with
/// the indices of all such roads; where none does, it holds nothing.
pub open spec fn entry_indexes_roads(
    tiles: Map<u64, Tile>,
    roads: Seq<ProjectedRoad>,
    zoom: u8,
    tile_res: u32,
    key: u64,
) -> bool {
    let column = key_column(key, zoom);
    let row = key_row(key, zoom);
    if some_road_reaches(roads, zoom, tile_res, column, row) {
        &&& tiles.contains_key(key)
        &&& tiles[key].location == (column as u32, row as u32)
        &&& lists_roads_reaching(tiles[key].road_indices@, roads, zoom, tile_res, column, row)
    } else {
        !tiles.contains_key(key)
    }
}

/// The tile map is the index of the roads: it holds exactly the tiles that
/// some road's scan reaches, each under its own key and with the indices of
/// the roads that reach it, in the order of the roads.
pub open spec fn tiles_index_roads(
    tiles: Map<u64, Tile>,
    roads: Seq<ProjectedRoad>,
    zoom: u8,
    tile_res: u32,
) -> bool {
    forall|key: u64| #[trigger] entry_indexes_roads(tiles, roads, zoom, tile_res, key)
}

impl MapTiles {
    /// Every tile sits under its own key, and every road index in a tile
    /// names a road of the road vector.
    pub open spec fn well_formed(&self) -> bool {
        &&& self.zoom <= MAX_ZOOM
        &&& forall|key: u64| #[trigger]
            self.tiles@.contains_key(key) ==> {
                &&& self.tiles@[key].location == (
                    key_column(key, self.zoom) as u32,
                    key_row(key, self.zoom) as u32,
                )
                &&& forall|j: int|
                    0 <= j < self.tiles@[key].road_indices@.len()
                        ==> (#[trigger] self.tiles@[key].road_indices@[j]) < self.roads@.len()
            }
    }
}

/// One more road keeps the tile map the index of the roads.
proof fn lemma_index_grows(
    before: Map<u64, Tile>,
    after: Map<u64, Tile>,
    roads: Seq<ProjectedRoad>,
    zoom: u8,
    tile_res: u32,
    done: int,
    key: u64,
)
    requires
        0 <= done < roads.len(),
        done <= usize::MAX,
        entry_indexes_roads(before, roads.take(done), zoom, tile_res, key),
        (Entering {
            before,
            zoom,
            low: projected(roads[done].extent.0, zoom, tile_res),
            high: projected(roads[done].extent.1, zoom, tile_res),
            road_id: done as usize,
        }).done(after, key),
    ensures
        entry_indexes_roads(after, roads.take(done + 1), zoom, tile_res, key),
{
    let column = key_column(key, zoom);
    let row = key_row(key, zoom);
    let earlier = roads.take(done);
    let now = roads.take(done + 1);
    assert forall|i: int| 0 <= i < done implies earlier[i] == now[i] by {}
    if road_reaches(&roads[done], zoom, tile_res, column, row) {
        // The road is entered: its index comes last, behind those of the
        // earlier roads that reach the tile.
        assert(road_reaches(&now[done], zoom, tile_res, column, row));
        let indices = after[key].road_indices@;
        let last = indices.len() - 1;
        assert forall|i: int|
            0 <= i < now.len() && #[trigger] road_reaches(&now[i], zoom, tile_res, column, row)
            implies indices.contains(i as usize) by {
            if i < done {
                let old_indices = before[key].road_indices@;
                let j = choose|j: int| 0 <= j < old_indices.len() && old_indices[j] == i as usize;
                assert(indices[j] == i as usize);
            } else {
                assert(indices[last] == i as usize);
            }
        }
    } else if some_road_reaches(now, zoom, tile_res, column, row) {
        // The road is not entered, and the entry is as before, where it
        // listed the earlier roads that reach the tile.
        let i = choose|i: int|
            0 <= i < now.len() && #[trigger] road_reaches(&now[i], zoom, tile_res, column, row);
        assert(road_reaches(&earlier[i], zoom, tile_res, column, row));
        let indices = after[key].road_indices@;
        assert forall|i: int|
            0 <= i < now.len() && #[trigger] road_reaches(&now[i], zoom, tile_res, column, row)
            implies indices.contains(i as usize) by {
            assert(road_reaches(&earlier[i], zoom, tile_res, column, row));
        }
    } else if some_road_reaches(earlier, zoom, tile_res, column, row) {
        // No road reaches the tile, so none of the earlier ones did.
        let i = choose|i: int|
            0 <= i < earlier.len() && #[trigger] road_reaches(
                &earlier[i],
                zoom,
                tile_res,
                column,
                row,
            );
        assert(road_reaches(&now[i], zoom, tile_res, column, row));
    }
}

/// A tile map that is the index of as many roads as the road vector holds
/// is well formed.
pub proof fn lemma_index_is_well_formed(
    map_tiles: MapTiles,
    roads: Seq<ProjectedRoad>,
    tile_res: u32,
)
    requires
        map_tiles.zoom <= MAX_ZOOM,
        map_tiles.roads@.len() == roads.len(),
        tiles_index_roads(map_tiles.tiles@, roads, map_tiles.zoom, tile_res),
    ensures
        map_tiles.well_formed(),
{
    assert forall|key: u64| #[trigger] map_tiles.tiles@.contains_key(key) implies {
        &&& map_tiles.tiles@[key].location == (
            key_column(key, map_tiles.zoom) as u32,
            key_row(key, map_tiles.zoom) as u32,
        )
        &&& forall|j: int|
            0 <= j < map_tiles.tiles@[key].road_indices@.len()
                ==> (#[trigger] map_tiles.tiles@[key].road_indices@[j]) < map_tiles.roads@.len()
    } by {
        assert(entry_indexes_roads(map_tiles.tiles@, roads, map_tiles.zoom, tile_res, key));
    }
}

/// Projects the roads onto the tile grid of the configured zoom level and
/// indexes them by tile.
///
/// The roads come out in the order they went in. A road is entered in the
/// tiles of the rectangle that [`scan_reaches`] describes, whether or not
/// its line crosses them; the tile row and column of the north-east corner
/// are not part of the rectangle. Zoom levels above [`MAX_ZOOM`] are out of
/// contract.
pub fn map_to_tiles(config: &Config, roads: Vec<ProjectedRoad>) -> (map_tiles: MapTiles)
    requires
        config.mapping.zoom <= MAX_ZOOM,
    ensures
        map_tiles.zoom == config.mapping.zoom,
        map_tiles.roads@.len() == roads@.len(),
        forall|i: int|
            0 <= i < roads@.len() ==> (#[trigger] map_tiles.roads@[i]).is_projection_of(
                &roads@[i],
                config.mapping.zoom,
                config.mapping.tile_res,
            ),
        tiles_index_roads(map_tiles.tiles@, roads@, config.mapping.zoom, config.mapping.tile_res),
        map_tiles.well_formed(),
{
    let zoom = config.mapping.zoom;
    let tile_res = config.mapping.tile_res;
    let max_tiles_x: u64 = tiles_per_row(zoom);

    let mut mapped_roads: Vec<Road> = Vec::new();
    let mut tiles: HashMap<u64, Tile> = HashMap::new();

    let mut i: usize = 0;
    assert forall|key: u64| #[trigger]
        entry_indexes_roads(tiles@, roads@.take(0), zoom, tile_res, key) by {}
    while i < roads.len()
        invariant
            zoom <= MAX_ZOOM,
            max_tiles_x == pow2(zoom as nat),
            i <= roads@.len(),
            mapped_roads@.len() == i,
            forall|j: int|
                0 <= j < i ==> (#[trigger] mapped_roads@[j]).is_projection_of(
                    &roads@[j],
                    zoom,
                    tile_res,
                ),
            forall|key: u64| #[trigger]
                entry_indexes_roads(tiles@, roads@.take(i as int), zoom, tile_res, key),
        decreases roads@.len() - i,
    {
        let ghost before = tiles@;
        map_road_to_tiles(zoom, tile_res, max_tiles_x, &mut tiles, &mut mapped_roads, &roads[i]);
        proof {
            assert forall|j: int| 0 <= j < i + 1 implies (#[trigger] mapped_roads@[j])
                .is_projection_of(&roads@[j], zoom, tile_res) by {
                if j < i {
                    assert(mapped_roads@[j] == mapped_roads@.drop_last()[j]);
                }
            }
            assert forall|key: u64| #[trigger]
                entry_indexes_roads(tiles@, roads@.take(i + 1), zoom, tile_res, key) by {
                assert((Entering {
                    before,
                    zoom,
                    low: projected(roads@[i as int].extent.0, zoom, tile_res),
                    high: projected(roads@[i as int].extent.1, zoom, tile_res),
                    road_id: i,
                }).done(tiles@, key));
                lemma_index_grows(before, tiles@, roads@, zoom, tile_res, i as int, key);
            }
        }
        i += 1;
    }
    assert(roads@.take(i as int) == roads@);
    let map_tiles = MapTiles { zoom, tiles, roads: mapped_roads };
    proof {
        lemma_index_is_well_formed(map_tiles, roads@, tile_res);
    }
    map_tiles
}

/// A road whose scan rectangle is not empty is entered in the tile at the
/// rectangle's first column and first row.
pub proof fn lemma_scan_registers_a_tile(
    tiles: Map<u64, Tile>,
    roads: Seq<ProjectedRoad>,
    zoom: u8,
    tile_res: u32,
    i: int,
)
    requires
        zoom <= MAX_ZOOM,
        tiles_index_roads(tiles, roads, zoom, tile_res),
        0 <= i < roads.len(),
        i <= usize::MAX,
        ({
            let low = projected(roads[i].extent.0, zoom, tile_res);
            let high = projected(roads[i].extent.1, zoom, tile_res);
            low.tile_x < high.tile_x && high.tile_y < low.tile_y
        }),
    ensures
        ({
            let low = projected(roads[i].extent.0, zoom, tile_res);
            let high = projected(roads[i].extent.1, zoom, tile_res);
            let key = tile_key(low.tile_x as int, high.tile_y as int, zoom) as u64;
            tiles.contains_key(key) && tiles[key].road_indices@.contains(i as usize)
        }),
{
    let low = projected(roads[i].extent.0, zoom, tile_res);
    let high = projected(roads[i].extent.1, zoom, tile_res);
    let n = pow2(zoom as nat) as int;
    lemma2_to64();
    lemma_pow2_strictly_increases(zoom as nat, 32);
    lemma_tile_index_in_grid(roads[i].extent.1.x, zoom);
    assert(n * high.tile_y <= 0xffff_ffff * 0xffff_ffff) by (nonlinear_arith)
        requires
            0 <= n <= 0xffff_ffff,
            0 <= high.tile_y <= 0xffff_ffff,
    ;
    lemma_tile_key_parts(zoom, low.tile_x as int, high.tile_y as int);
    let key = tile_key(low.tile_x as int, high.tile_y as int, zoom) as u64;
    assert(entry_indexes_roads(tiles, roads, zoom, tile_res, key));
    assert(road_reaches(&roads[i], zoom, tile_res, low.tile_x as int, high.tile_y as int));
}

} // verus!
