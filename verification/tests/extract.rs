use converter::config::{Config, ConfigMapping, ConfigStyle};
use converter::mapper::{map_to_tiles, project_roads, tile_id, tiles_per_row, GlobalLocation};
use converter::reader::{Coord, Element, Ingest, Node, ReadError, StreetMap, Way};
use osmpbf::IndexedReader;
use std::f64::consts::PI;
use std::io::Cursor;

// A writer of extracts, as far as the tests need one: blobs that are not
// compressed, and blocks of the default granularity of 100 nanodegrees.

fn varint(mut value: u64, out: &mut Vec<u8>) {
    while value >= 0x80 {
        out.push((value & 0x7f) as u8 | 0x80);
        value >>= 7;
    }
    out.push(value as u8);
}

fn zigzag(value: i64) -> u64 {
    ((value << 1) ^ (value >> 63)) as u64
}

fn number(field: u64, value: u64, out: &mut Vec<u8>) {
    varint(field << 3, out);
    varint(value, out);
}

fn bytes(field: u64, value: &[u8], out: &mut Vec<u8>) {
    varint(field << 3 | 2, out);
    varint(value.len() as u64, out);
    out.extend_from_slice(value);
}

fn packed(values: &[u64]) -> Vec<u8> {
    let mut out = Vec::new();
    for value in values {
        varint(*value, &mut out);
    }
    out
}

fn deltas(values: &[i64]) -> Vec<u64> {
    let mut last = 0;
    let mut out = Vec::new();
    for value in values {
        out.push(zigzag(value - last));
        last = *value;
    }
    out
}

fn blob(kind: &str, data: &[u8]) -> Vec<u8> {
    let mut body = Vec::new();
    bytes(1, data, &mut body);
    let mut header = Vec::new();
    bytes(1, kind.as_bytes(), &mut header);
    number(3, body.len() as u64, &mut header);
    let mut out = (header.len() as u32).to_be_bytes().to_vec();
    out.extend(header);
    out.extend(body);
    out
}

fn header_blob() -> Vec<u8> {
    let mut block = Vec::new();
    bytes(4, b"OsmSchema-V0.6", &mut block);
    bytes(4, b"DenseNodes", &mut block);
    blob("OSMHeader", &block)
}

/// A block with one group. The strings get the indices 1, 2, ... in the
/// order given; index 0 is the empty string.
fn data_blob(strings: &[&str], group: &[u8]) -> Vec<u8> {
    let mut table = Vec::new();
    bytes(1, b"", &mut table);
    for s in strings {
        bytes(1, s.as_bytes(), &mut table);
    }
    let mut block = Vec::new();
    bytes(1, &table, &mut block);
    bytes(2, group, &mut block);
    blob("OSMData", &block)
}

fn way(id: i64, refs: &[i64], keys: &[u64], vals: &[u64]) -> Vec<u8> {
    let mut out = Vec::new();
    number(1, id as u64, &mut out);
    bytes(2, &packed(keys), &mut out);
    bytes(3, &packed(vals), &mut out);
    bytes(8, &packed(&deltas(refs)), &mut out);
    out
}

fn ways_group(ways: &[Vec<u8>]) -> Vec<u8> {
    let mut out = Vec::new();
    for way in ways {
        bytes(3, way, &mut out);
    }
    out
}

fn nodes_group(nodes: &[(i64, i64, i64)]) -> Vec<u8> {
    let mut out = Vec::new();
    for (id, lat, lon) in nodes {
        let mut node = Vec::new();
        number(1, zigzag(*id), &mut node);
        number(8, zigzag(*lat), &mut node);
        number(9, zigzag(*lon), &mut node);
        bytes(1, &node, &mut out);
    }
    out
}

fn dense_group(nodes: &[(i64, i64, i64)]) -> Vec<u8> {
    let ids: Vec<i64> = nodes.iter().map(|n| n.0).collect();
    let lats: Vec<i64> = nodes.iter().map(|n| n.1).collect();
    let lons: Vec<i64> = nodes.iter().map(|n| n.2).collect();
    let mut dense = Vec::new();
    bytes(1, &packed(&deltas(&ids)), &mut dense);
    bytes(8, &packed(&deltas(&lats)), &mut dense);
    bytes(9, &packed(&deltas(&lons)), &mut dense);
    let mut out = Vec::new();
    bytes(2, &dense, &mut out);
    out
}

fn element(element: &osmpbf::Element) -> Element {
    match element {
        osmpbf::Element::Node(node) => Element::Node(Node {
            id: node.id(),
            coord: Coord { lat: node.nano_lat(), lon: node.nano_lon() },
        }),
        osmpbf::Element::DenseNode(node) => Element::DenseNode(Node {
            id: node.id(),
            coord: Coord { lat: node.nano_lat(), lon: node.nano_lon() },
        }),
        osmpbf::Element::Way(way) => Element::Way(Way {
            id: way.id(),
            refs: way.refs().collect(),
            tags: way.tags().map(|(key, value)| (key.to_string(), value.to_string())).collect(),
        }),
        osmpbf::Element::Relation(relation) => Element::Relation(relation.id()),
    }
}

fn read(extract: Vec<u8>) -> Result<StreetMap, ReadError> {
    let mut reader = IndexedReader::new(Cursor::new(extract)).unwrap();
    let mut ingest = Ingest::new();
    reader.read_ways_and_deps(|_| true, |e| ingest.observe(element(e))).unwrap();
    ingest.finish()
}

fn mercator_row(lat: i64) -> u64 {
    let lat = lat as f64 * 1e-9;
    let y = 0.5 - (lat * PI / 180.0).tan().asinh() / (2.0 * PI);
    (y * 18446744073709551616.0) as u64
}

fn at(lat: i64, lon: i64) -> Coord {
    Coord { lat, lon }
}

#[test]
fn extract_with_one_way_of_three_nodes() {
    let mut extract = header_blob();
    extract.extend(data_blob(
        &["highway", "residential"],
        &ways_group(&[way(7, &[11, 12, 13], &[1], &[2])]),
    ));
    extract.extend(data_blob(
        &[],
        &dense_group(&[
            (11, 525_190_000, 134_030_000),
            (12, 525_200_000, 134_050_000),
            (13, 525_210_000, 134_070_000),
        ]),
    ));

    let map = read(extract).unwrap();
    assert_eq!(map.roads.len(), 1);
    assert_eq!(
        map.roads[0].points,
        vec![
            at(52_519_000_000, 13_403_000_000),
            at(52_520_000_000, 13_405_000_000),
            at(52_521_000_000, 13_407_000_000),
        ]
    );
    assert_eq!(
        map.roads[0].extent,
        (at(52_519_000_000, 13_403_000_000), at(52_521_000_000, 13_407_000_000))
    );
    assert_eq!(map.extent, map.roads[0].extent);
    assert_eq!(map.roads[0].width, 1000);
    assert_eq!(map.roads[0].speedlimit, 0);

    let config = Config {
        mapping: ConfigMapping { tile_res: 64, zoom: 19 },
        style: ConfigStyle { road_color: [96; 3] },
    };
    let tiles = map_to_tiles(&config, project_roads(&map.roads, mercator_row));
    assert_eq!(tiles.roads.len(), 1);
    assert_eq!(
        tiles.roads[0].points,
        vec![
            GlobalLocation { tile_x: 281663, tile_y: 171945, x: 34, y: 22 },
            GlobalLocation { tile_x: 281666, tile_y: 171942, x: 28, y: 61 },
            GlobalLocation { tile_x: 281669, tile_y: 171940, x: 22, y: 35 },
        ]
    );
    assert_eq!(tiles.tiles.len(), 30);
    for column in 281663..281669u32 {
        for row in 171940..171945u32 {
            let tile = &tiles.tiles[&tile_id(column, row, tiles_per_row(19))];
            assert_eq!(tile.location, (column, row));
            assert_eq!(tile.road_indices, vec![0]);
        }
    }
}

#[test]
fn extract_with_a_node_missing() {
    let mut extract = header_blob();
    extract.extend(data_blob(
        &["highway", "residential", "service"],
        &ways_group(&[way(7, &[11, 99], &[1], &[2]), way(8, &[12, 11], &[1], &[3])]),
    ));
    extract.extend(data_blob(&[], &nodes_group(&[(11, 10, -20), (12, -30, 40)])));

    let map = read(extract).unwrap();
    assert_eq!(map.roads.len(), 1);
    assert_eq!(map.roads[0].points, vec![at(-3000, 4000), at(1000, -2000)]);
    assert_eq!(map.extent, (at(-3000, -2000), at(1000, 4000)));
}

#[test]
fn extract_with_tags_of_every_kind() {
    let strings = [
        "highway", "primary", "width", "250cm", "speedlimit", "100.0", "motorcar", "no", "building",
        "yes", "name", "Hauptstraße",
    ];
    let mut extract = header_blob();
    extract.extend(data_blob(
        &strings,
        &ways_group(&[
            way(1, &[1, 2], &[1, 3, 5, 11], &[2, 4, 6, 12]),
            way(2, &[2, 1], &[1, 7], &[2, 8]),
            way(3, &[1, 2], &[9], &[10]),
            way(-4, &[2, 2, 1], &[1], &[10]),
        ]),
    ));
    extract.extend(data_blob(&[], &dense_group(&[(1, 1, 2), (2, 3, 4)])));

    let map = read(extract).unwrap();
    assert_eq!(map.roads.len(), 2);
    assert_eq!(map.roads[0].points, vec![at(100, 200), at(300, 400)]);
    assert_eq!(map.roads[0].width, 2500);
    assert_eq!(map.roads[0].speedlimit, 100);
    assert_eq!(map.roads[1].points, vec![at(300, 400), at(300, 400), at(100, 200)]);
    assert_eq!(map.roads[1].width, 1000);
    assert_eq!(map.roads[1].speedlimit, 0);
}

#[test]
fn extract_without_nodes() {
    let mut extract = header_blob();
    extract.extend(data_blob(
        &["highway", "residential"],
        &ways_group(&[way(7, &[11, 12], &[1], &[2])]),
    ));
    assert_eq!(read(extract).unwrap_err(), ReadError::NoNodes);
    assert_eq!(read(header_blob()).unwrap_err(), ReadError::NoNodes);
}
