use converter::config::{Config, ConfigMapping, ConfigStyle};
use converter::mapper::{
    coord_to_tile, map_to_tiles, tile_id, tiles_per_row, unit_x, GlobalLocation, ProjectedRoad,
    Tile, UnitPoint, FULL_TURN, HALF_TURN, MAX_ZOOM, UNIT,
};

const HALF: u64 = 1 << 63;
const QUARTER: u64 = 1 << 62;

fn config(zoom: u8, tile_res: u32) -> Config {
    Config { mapping: ConfigMapping { tile_res, zoom }, style: ConfigStyle { road_color: [96; 3] } }
}

fn location(tile_x: u32, tile_y: u32, x: u32, y: u32) -> GlobalLocation {
    GlobalLocation { tile_x, tile_y, x, y }
}

/// The point in the middle of the tile at `column`, `row` of the grid of `zoom`.
fn middle_of(column: u64, row: u64, zoom: u8) -> UnitPoint {
    let step = 1u64 << (64 - zoom as u32);
    UnitPoint { x: column * step + step / 2, y: row * step + step / 2 }
}

/// A road from the tile at `west`, `south` to the tile at `east`, `north`.
fn road_across(west: u64, south: u64, east: u64, north: u64, zoom: u8) -> ProjectedRoad {
    let low = middle_of(west, south, zoom);
    let high = middle_of(east, north, zoom);
    ProjectedRoad { extent: (low, high), points: vec![low, high], width: 1000, speedlimit: 0 }
}

#[test]
fn unit_is_two_to_the_64() {
    assert_eq!(UNIT, 1u128 << 64);
    assert_eq!(MAX_ZOOM, 31);
}

#[test]
fn longitude_maps_linearly() {
    assert_eq!(HALF_TURN, 180_000_000_000);
    assert_eq!(FULL_TURN, 360_000_000_000);
    assert_eq!(unit_x(0), HALF);
    assert_eq!(unit_x(-90_000_000_000), QUARTER);
    assert_eq!(unit_x(90_000_000_000), HALF + QUARTER);
    assert_eq!(unit_x(13_405_000_000), 9910257048821655084);
    assert_eq!(unit_x(179_999_999_999), 18446744073658310660);
    assert_eq!(unit_x(-179_999_999_999), 51240955);
}

#[test]
fn longitude_on_or_beyond_an_edge_is_held_inside() {
    assert_eq!(unit_x(-180_000_000_000), 0);
    assert_eq!(unit_x(-180_000_000_001), 0);
    assert_eq!(unit_x(i64::MIN), 0);
    assert_eq!(unit_x(180_000_000_000), u64::MAX);
    assert_eq!(unit_x(180_000_000_001), u64::MAX);
    assert_eq!(unit_x(i64::MAX), u64::MAX);
}

#[test]
fn longitude_of_a_known_place_falls_in_its_tile() {
    let g = coord_to_tile(UnitPoint { x: unit_x(13_405_000_000), y: 0 }, 19, 64);
    assert_eq!((g.tile_x, g.x), (281666, 28));
    let g = coord_to_tile(UnitPoint { x: unit_x(151_209_300_000), y: 0 }, 19, 64);
    assert_eq!((g.tile_x, g.x), (482358, 32));
}

#[test]
fn empty_tile_has_no_roads() {
    let tile = Tile::empty((3, 4));
    assert_eq!(tile.location, (3, 4));
    assert!(tile.road_indices.is_empty());
}

#[test]
fn projection_at_zoom_zero() {
    let p = UnitPoint { x: HALF, y: QUARTER };
    assert_eq!(coord_to_tile(p, 0, 256), location(0, 0, 128, 64));
}

#[test]
fn projection_at_zoom_one() {
    let p = UnitPoint { x: HALF, y: QUARTER };
    assert_eq!(coord_to_tile(p, 1, 256), location(1, 0, 0, 128));
}

#[test]
fn projection_of_the_corners() {
    let origin = UnitPoint { x: 0, y: 0 };
    assert_eq!(coord_to_tile(origin, 0, 64), location(0, 0, 0, 0));
    assert_eq!(coord_to_tile(origin, 19, 64), location(0, 0, 0, 0));
    let last = UnitPoint { x: u64::MAX, y: u64::MAX };
    assert_eq!(coord_to_tile(last, 0, 64), location(0, 0, 63, 63));
    assert_eq!(coord_to_tile(last, 19, 64), location(524287, 524287, 63, 63));
    assert_eq!(
        coord_to_tile(last, 31, u32::MAX),
        location(2147483647, 2147483647, u32::MAX - 1, u32::MAX - 1)
    );
}

#[test]
fn projection_of_a_known_place() {
    // 52.52 N, 13.405 E on the unit square.
    let p = UnitPoint { x: 9910257048821655552, y: 6049704919079573504 };
    assert_eq!(coord_to_tile(p, 19, 64), location(281666, 171942, 28, 61));
    assert_eq!(coord_to_tile(p, 10, 512), location(550, 335, 66, 422));
    assert_eq!(coord_to_tile(p, 0, 256), location(0, 0, 137, 83));
}

#[test]
fn projection_with_tile_resolution_zero() {
    let p = UnitPoint { x: 9910257048821655552, y: 6049704919079573504 };
    assert_eq!(coord_to_tile(p, 19, 0), location(281666, 171942, 0, 0));
}

#[test]
fn projection_is_the_same_each_time() {
    let p = UnitPoint { x: 16971481088701358080, y: 11069748183276201984 };
    let first = coord_to_tile(p, 19, 64);
    assert_eq!(first, location(482358, 314621, 32, 10));
    assert_eq!(coord_to_tile(p, 19, 64), first);
}

#[test]
fn projection_read_back_is_within_one_pixel() {
    let points = [
        UnitPoint { x: 9910257048821655552, y: 6049704919079573504 },
        UnitPoint { x: 16971481088701358080, y: 11069748183276201984 },
        UnitPoint { x: 1, y: u64::MAX },
        UnitPoint { x: HALF - 1, y: HALF + 1 },
    ];
    for p in points {
        for (zoom, res) in [(0u8, 256u32), (7, 1), (19, 64), (31, 4096)] {
            let g = coord_to_tile(p, zoom, res);
            for (v, tile, pixel) in [(p.x, g.tile_x, g.x), (p.y, g.tile_y, g.y)] {
                let exact = (v as u128) * (1u128 << zoom) * (res as u128);
                let read_back = (tile as u128) * (res as u128) + pixel as u128;
                assert!(read_back * UNIT <= exact);
                assert!(exact < (read_back + 1) * UNIT);
                assert!(pixel < res);
            }
        }
    }
}

#[test]
fn grid_doubles_with_each_zoom_level() {
    assert_eq!(tiles_per_row(0), 1);
    assert_eq!(tiles_per_row(1), 2);
    assert_eq!(tiles_per_row(19), 524288);
    assert_eq!(tiles_per_row(31), 2147483648);
    for zoom in 0..31u8 {
        assert_eq!(tiles_per_row(zoom + 1), 2 * tiles_per_row(zoom));
    }
}

#[test]
fn tile_key_at_a_zoom_level() {
    assert_eq!(tile_id(281666, 171942, tiles_per_row(19)), 90147408962);
    assert_eq!(tile_id(0, 1, tiles_per_row(19)), 524288);
    assert_eq!(tile_id(524287, 0, tiles_per_row(19)), 524287);
    assert_eq!(tile_id(2147483647, 2147483647, tiles_per_row(31)), (1u64 << 62) - 1);
}

#[test]
fn tile_key_is_row_major() {
    assert_eq!(tile_id(0, 0, 1), 0);
    assert_eq!(tile_id(3, 2, 4), 11);
    assert_eq!(tile_id(281666, 171942, 1 << 19), 281666 + 524288 * 171942);
    assert_eq!(tile_id(u32::MAX, u32::MAX, 1 << 32), u64::MAX);
}

#[test]
fn tile_keys_do_not_collide() {
    for zoom in 0..5u32 {
        let n = 1u32 << zoom;
        let mut seen = std::collections::HashSet::new();
        for row in 0..n {
            for column in 0..n {
                assert!(seen.insert(tile_id(column, row, n as u64)));
            }
        }
        assert_eq!(seen.len(), (n * n) as usize);
    }
}

#[test]
fn mapped_road_can_be_copied() {
    let tiles = map_to_tiles(&config(2, 8), vec![road_across(0, 3, 2, 1, 2)]);
    let copy = tiles.roads[0].clone();
    assert_eq!(copy.points, tiles.roads[0].points);
    assert_eq!(copy.points, vec![location(0, 3, 4, 4), location(2, 1, 4, 4)]);
    assert_eq!(copy.width, 1000);
    assert_eq!(copy.speedlimit, 0);
}

#[test]
fn no_roads_give_no_tiles() {
    let tiles = map_to_tiles(&config(19, 64), vec![]);
    assert_eq!(tiles.zoom, 19);
    assert!(tiles.tiles.is_empty());
    assert!(tiles.roads.is_empty());
}

#[test]
fn road_is_entered_in_the_tiles_of_its_scan() {
    // From column 2, row 6 (south-west) to column 5, row 3 (north-east).
    let tiles = map_to_tiles(&config(3, 64), vec![road_across(2, 6, 5, 3, 3)]);
    assert_eq!(tiles.tiles.len(), 9);
    for column in 0..8u32 {
        for row in 0..8u32 {
            let key = tile_id(column, row, 8);
            let reached = (2..5).contains(&column) && (3..6).contains(&row);
            assert_eq!(tiles.tiles.contains_key(&key), reached);
            if reached {
                assert_eq!(tiles.tiles[&key].location, (column, row));
                assert_eq!(tiles.tiles[&key].road_indices, vec![0]);
            }
        }
    }
}

#[test]
fn road_across_tiles_is_entered_somewhere() {
    for zoom in [1u8, 2, 5, 19, 31] {
        let last = (1u64 << zoom) - 1;
        let tiles = map_to_tiles(&config(zoom, 64), vec![road_across(last - 1, last, last, last - 1, zoom)]);
        assert_eq!(tiles.tiles.len(), 1);
        let key = tile_id((last - 1) as u32, (last - 1) as u32, 1 << zoom);
        assert_eq!(tiles.tiles[&key].road_indices, vec![0]);
        assert_eq!(tiles.tiles[&key].location, ((last - 1) as u32, (last - 1) as u32));
    }
}

#[test]
fn road_inside_one_tile_is_entered_nowhere() {
    let low = UnitPoint { x: 9910257048821655552, y: 6049704919079573504 };
    let high = UnitPoint { x: 9910257561231212544, y: 6049704076971598848 };
    let road = ProjectedRoad { extent: (low, high), points: vec![low, high], width: 1000, speedlimit: 0 };
    let tiles = map_to_tiles(&config(19, 64), vec![road]);
    assert!(tiles.tiles.is_empty());
    assert_eq!(tiles.roads.len(), 1);
    assert_eq!(tiles.roads[0].points, vec![location(281666, 171942, 28, 61), location(281666, 171942, 29, 59)]);
}

#[test]
fn road_within_one_column_or_one_row_is_entered_nowhere() {
    let tiles = map_to_tiles(
        &config(3, 64),
        vec![road_across(2, 6, 2, 3, 3), road_across(2, 6, 5, 6, 3)],
    );
    assert!(tiles.tiles.is_empty());
    assert_eq!(tiles.roads.len(), 2);
}

#[test]
fn road_with_corners_the_wrong_way_round_is_entered_nowhere() {
    let tiles = map_to_tiles(&config(3, 64), vec![road_across(5, 3, 2, 6, 3)]);
    assert!(tiles.tiles.is_empty());
    assert_eq!(tiles.roads.len(), 1);
}

#[test]
fn zoom_zero_has_one_tile_and_no_scan() {
    let road = ProjectedRoad {
        extent: (UnitPoint { x: 0, y: u64::MAX }, UnitPoint { x: u64::MAX, y: 0 }),
        points: vec![UnitPoint { x: 0, y: u64::MAX }, UnitPoint { x: u64::MAX, y: 0 }],
        width: 1000,
        speedlimit: 0,
    };
    let tiles = map_to_tiles(&config(0, 64), vec![road]);
    assert_eq!(tiles.zoom, 0);
    assert!(tiles.tiles.is_empty());
    assert_eq!(tiles.roads[0].points, vec![location(0, 0, 0, 63), location(0, 0, 63, 0)]);
}

#[test]
fn roads_keep_order_and_attributes() {
    let mut a = road_across(0, 3, 2, 1, 2);
    a.width = 2500;
    a.speedlimit = 50;
    a.points = vec![middle_of(0, 3, 2), middle_of(1, 2, 2), middle_of(2, 1, 2)];
    let mut b = road_across(1, 2, 3, 0, 2);
    b.width = 700;
    b.speedlimit = 255;
    let tiles = map_to_tiles(&config(2, 8), vec![a, b]);
    assert_eq!(tiles.roads.len(), 2);
    assert_eq!(tiles.roads[0].width, 2500);
    assert_eq!(tiles.roads[0].speedlimit, 50);
    assert_eq!(
        tiles.roads[0].points,
        vec![location(0, 3, 4, 4), location(1, 2, 4, 4), location(2, 1, 4, 4)]
    );
    assert_eq!(tiles.roads[1].width, 700);
    assert_eq!(tiles.roads[1].speedlimit, 255);
    assert_eq!(tiles.roads[1].points, vec![location(1, 2, 4, 4), location(3, 0, 4, 4)]);
}

#[test]
fn tiles_list_their_roads_in_order() {
    // a reaches columns 0..2, rows 1..3; b reaches columns 1..3, rows 0..2.
    let a = road_across(0, 3, 2, 1, 2);
    let b = road_across(1, 2, 3, 0, 2);
    let c = road_across(0, 3, 2, 1, 2);
    let tiles = map_to_tiles(&config(2, 8), vec![a, b, c]);
    assert_eq!(tiles.tiles.len(), 7);
    assert_eq!(tiles.tiles[&tile_id(0, 1, 4)].road_indices, vec![0, 2]);
    assert_eq!(tiles.tiles[&tile_id(0, 2, 4)].road_indices, vec![0, 2]);
    assert_eq!(tiles.tiles[&tile_id(1, 1, 4)].road_indices, vec![0, 1, 2]);
    assert_eq!(tiles.tiles[&tile_id(1, 2, 4)].road_indices, vec![0, 2]);
    assert_eq!(tiles.tiles[&tile_id(1, 0, 4)].road_indices, vec![1]);
    assert_eq!(tiles.tiles[&tile_id(2, 0, 4)].road_indices, vec![1]);
    assert_eq!(tiles.tiles[&tile_id(2, 1, 4)].road_indices, vec![1]);
    assert!(!tiles.tiles.contains_key(&tile_id(2, 2, 4)));
    assert!(!tiles.tiles.contains_key(&tile_id(0, 0, 4)));
    assert!(!tiles.tiles.contains_key(&tile_id(0, 3, 4)));
}

#[test]
fn every_index_in_a_tile_names_a_road() {
    let roads = vec![
        road_across(0, 7, 7, 0, 3),
        road_across(3, 4, 4, 3, 3),
        road_across(1, 1, 2, 0, 3),
        road_across(5, 5, 5, 5, 3),
    ];
    let tiles = map_to_tiles(&config(3, 64), roads);
    assert_eq!(tiles.roads.len(), 4);
    assert_eq!(tiles.tiles.len(), 49);
    for (key, tile) in &tiles.tiles {
        assert_eq!(*key, tile_id(tile.location.0, tile.location.1, 8));
        assert!(!tile.road_indices.is_empty());
        for index in &tile.road_indices {
            assert!(*index < tiles.roads.len());
        }
    }
}
