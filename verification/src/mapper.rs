//! Places roads on the tile grid and indexes them by tile.
//!
//! The grid is that of the slippy-map scheme: at zoom level `z` the Web
//! Mercator unit square is cut into `2^z` columns and `2^z` rows of tiles,
//! counted from the north-west corner.

mod data;
mod index;
mod math;
mod place;

pub use data::{GlobalLocation, MapTiles, ProjectedRoad, Road, Tile};
pub use index::{
    entry_indexes_roads, key_column, key_row, lemma_index_is_well_formed,
    lemma_scan_registers_a_tile, lemma_tile_key_parts, lemma_tile_key_unique,
    lists_roads_reaching, map_to_tiles, road_reaches, scan_reaches, some_road_reaches, tile_id,
    tile_key, tiles_index_roads,
};
pub use math::{
    coord_to_tile, lemma_longitude_ordinate_is_monotonic, lemma_projection_within_one_pixel,
    lemma_tile_index_in_grid, lemma_tile_index_is_monotonic, longitude_ordinate, pixel_offset,
    projected, scaled_ordinate, tile_index, tiles_per_row, unit_x, UnitPoint, FULL_TURN,
    HALF_TURN, MAX_ZOOM, UNIT,
};
pub use place::{
    lemma_corners_keep_their_sides, point_placed, project_roads, road_placed, runs_southwards,
};
