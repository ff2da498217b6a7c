use converter::config::{Config, ConfigMapping, ConfigStyle};
use converter::mapper::{
    map_to_tiles, project_roads, tile_id, GlobalLocation, ProjectedRoad, UnitPoint,
};
use converter::reader::{read_osm_pbf, Coord, Element, Node, Road, Way};
use std::f64::consts::PI;

/// The `y` of a latitude on the unit square of the spherical Web Mercator
/// projection, as a binary fraction. The cast holds a position outside the
/// square at its edge.
fn mercator_y(lat: i64) -> u64 {
    let lat = lat as f64 * 1e-9;
    let y = 0.5 - (lat * PI / 180.0).tan().asinh() / (2.0 * PI);
    (y * 18446744073709551616.0) as u64
}

fn project(roads: &Vec<Road>) -> Vec<ProjectedRoad> {
    project_roads(roads, mercator_y)
}

fn node_at(id: i64, lat: i64, lon: i64) -> Element {
    Element::Node(Node { id, coord: Coord { lat, lon } })
}

fn grid(zoom: u8, tile_res: u32) -> Config {
    Config { mapping: ConfigMapping { tile_res, zoom }, style: ConfigStyle { road_color: [96; 3] } }
}

#[test]
fn mercator_of_known_latitudes() {
    assert_eq!(mercator_y(52_520_000_000), 6049704919079573504);
    assert_eq!(mercator_y(0), 1 << 63);
}

#[test]
fn mercator_near_the_poles_is_held_at_the_edge() {
    for lat in [85_051_128_780, 89_999_999_999, 90_000_000_000] {
        assert_eq!(mercator_y(lat), 0);
    }
    for lat in [-85_051_128_780, -89_999_999_999, -90_000_000_000] {
        assert_eq!(mercator_y(lat), u64::MAX);
    }
    assert!(mercator_y(85_051_128_779) > 0);
    assert!(mercator_y(-85_051_128_779) < u64::MAX);
}

#[test]
fn road_near_a_pole_stays_on_the_grid() {
    let map = read_osm_pbf(vec![
        node_at(1, 89_999_999_000, 179_999_999_000),
        node_at(2, 90_000_000_000, 180_000_000_000),
        Element::Way(Way {
            id: 1,
            refs: vec![1, 2],
            tags: vec![("highway".to_string(), "track".to_string())],
        }),
    ])
    .unwrap();
    let tiles = map_to_tiles(&grid(19, 64), project(&map.roads));
    assert_eq!(tiles.roads.len(), 1);
    for point in &tiles.roads[0].points {
        assert_eq!((point.tile_x, point.tile_y), (524287, 0));
        assert!(point.x < 64 && point.y < 64);
    }
    assert!(tiles.tiles.is_empty());
}

#[test]
fn roads_are_put_on_the_unit_square() {
    let road = Road {
        extent: (Coord { lat: -10, lon: -20 }, Coord { lat: 30, lon: 40 }),
        points: vec![Coord { lat: 30, lon: -20 }, Coord { lat: -10, lon: 40 }, Coord { lat: 0, lon: 0 }],
        width: 2500,
        speedlimit: 50,
    };
    let other = Road {
        extent: (Coord { lat: 1, lon: 2 }, Coord { lat: 3, lon: 4 }),
        points: vec![],
        width: 1,
        speedlimit: 2,
    };
    let placed = project_roads(&vec![road, other], |lat| (lat + 1000) as u64);
    assert_eq!(placed.len(), 2);
    let x = |lon: i128| ((lon + 180_000_000_000) * (1i128 << 64) / 360_000_000_000) as u64;
    assert_eq!(placed[0].extent.0, UnitPoint { x: x(-20), y: 990 });
    assert_eq!(placed[0].extent.1, UnitPoint { x: x(40), y: 1030 });
    assert_eq!(
        placed[0].points,
        vec![
            UnitPoint { x: x(-20), y: 1030 },
            UnitPoint { x: x(40), y: 990 },
            UnitPoint { x: 1 << 63, y: 1000 },
        ]
    );
    assert_eq!(placed[0].width, 2500);
    assert_eq!(placed[0].speedlimit, 50);
    assert_eq!(placed[1].extent, (UnitPoint { x: x(2), y: 1001 }, UnitPoint { x: x(4), y: 1003 }));
    assert!(placed[1].points.is_empty());
    assert_eq!(placed[1].width, 1);
    assert_eq!(placed[1].speedlimit, 2);
}

#[test]
fn one_way_of_three_nodes() {
    let map = read_osm_pbf(vec![
        Element::Way(Way {
            id: 1,
            refs: vec![1, 2, 3],
            tags: vec![("highway".to_string(), "residential".to_string())],
        }),
        node_at(1, 52_519_000_000, 13_403_000_000),
        node_at(2, 52_520_000_000, 13_405_000_000),
        node_at(3, 52_521_000_000, 13_407_000_000),
    ])
    .unwrap();
    assert_eq!(map.roads.len(), 1);

    let roads = project(&map.roads);
    let tiles = map_to_tiles(&grid(19, 64), roads);

    assert_eq!(tiles.zoom, 19);
    assert_eq!(tiles.roads.len(), 1);
    assert_eq!(
        tiles.roads[0].points,
        vec![
            GlobalLocation { tile_x: 281663, tile_y: 171945, x: 34, y: 22 },
            GlobalLocation { tile_x: 281666, tile_y: 171942, x: 28, y: 61 },
            GlobalLocation { tile_x: 281669, tile_y: 171940, x: 22, y: 35 },
        ]
    );
    assert_eq!(tiles.roads[0].width, 1000);
    assert_eq!(tiles.roads[0].speedlimit, 0);

    // Columns 281663 up to 281669 and rows 171940 up to 171945, the last of
    // each left out.
    assert_eq!(tiles.tiles.len(), 6 * 5);
    for column in 281663..281669u32 {
        for row in 171940..171945u32 {
            let tile = &tiles.tiles[&tile_id(column, row, 1 << 19)];
            assert_eq!(tile.location, (column, row));
            assert_eq!(tile.road_indices, vec![0]);
        }
    }
    for tile in tiles.tiles.values() {
        assert!((281663..281669).contains(&tile.location.0));
        assert!((171940..171945).contains(&tile.location.1));
    }
}

#[test]
fn two_roads_share_tiles() {
    let map = read_osm_pbf(vec![
        node_at(1, 52_519_000_000, 13_403_000_000),
        node_at(2, 52_520_000_000, 13_405_000_000),
        node_at(3, 52_521_000_000, 13_407_000_000),
        Element::Way(Way {
            id: 1,
            refs: vec![1, 2],
            tags: vec![
                ("highway".to_string(), "primary".to_string()),
                ("width".to_string(), "250cm".to_string()),
                ("speedlimit".to_string(), "50".to_string()),
            ],
        }),
        Element::Way(Way {
            id: 2,
            refs: vec![3, 1],
            tags: vec![("highway".to_string(), "track".to_string())],
        }),
    ])
    .unwrap();
    let roads = project(&map.roads);
    let tiles = map_to_tiles(&grid(19, 64), roads);

    assert_eq!(tiles.roads.len(), 2);
    assert_eq!(tiles.roads[0].width, 2500);
    assert_eq!(tiles.roads[0].speedlimit, 50);
    assert_eq!(tiles.roads[1].points[0], GlobalLocation { tile_x: 281669, tile_y: 171940, x: 22, y: 35 });

    // The first road reaches columns 281663..281666 and rows 171942..171945.
    assert_eq!(tiles.tiles.len(), 30);
    assert_eq!(tiles.tiles[&tile_id(281663, 171942, 1 << 19)].road_indices, vec![0, 1]);
    assert_eq!(tiles.tiles[&tile_id(281665, 171944, 1 << 19)].road_indices, vec![0, 1]);
    assert_eq!(tiles.tiles[&tile_id(281666, 171942, 1 << 19)].road_indices, vec![1]);
    assert_eq!(tiles.tiles[&tile_id(281663, 171941, 1 << 19)].road_indices, vec![1]);
}
