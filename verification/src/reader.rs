//! Turns the elements of a map extract into roads with resolved geometry.
//!
//! The elements are taken in one pass, in the order of the extract. A way
//! may name nodes that come after it, so the ways that are roads are kept
//! with their node identifiers, and the identifiers are looked up when all
//! elements have been seen.

mod data;
mod decimal;
mod ingest;
mod resolve;
mod tags;

pub use data::{
    bounds, lemma_bounds_are_tight, Coord, Element, ElementView, Node, Object, ObjectKind,
    ObjectView, Road, RoadRaw, RoadRawView, RoadView, StreetMap, StreetMapView, Tags, Way,
    WayView,
};
pub use decimal::{
    all_digits, capped, digit_value, digits_value, fixed_point_digits, fixed_point_value,
    fraction_digits, fraction_part, integer_part, is_decimal, is_digit, leading_digits,
    lemma_two_places_are_a_factor_of_a_hundred, parse_decimal,
};
pub use ingest::{
    ingest_all, ingested, is_node_with_id, lemma_extent_bounds_every_node,
    lemma_node_table_holds_last_node, lemma_node_table_knows_nodes_only,
    lemma_roads_are_the_road_ways, node_of, node_places, read_osm_pbf, road_of, Ingest,
    IngestView, ReadError,
};
pub use resolve::{lemma_roads_are_well_formed, resolved_points, road_on_map, roads_on_map};
pub use tags::{
    allows_cars, car_allowed, find_tag, lemma_centimetres_are_hundredths_of_metres,
    parse_speedlimit, parse_width, road_of_way,
    road_speedlimit, road_width, speedlimit_written, tag_value, tagged_speedlimit, tagged_width,
    way_to_road, width_written, DEFAULT_SPEEDLIMIT, DEFAULT_WIDTH,
};
