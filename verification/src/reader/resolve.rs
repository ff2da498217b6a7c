//! From node identifiers to places: the geometry of a road.

use super::data::{bounds, Coord, Road, RoadRaw, RoadRawView, RoadView};
use std::collections::HashMap;
use vstd::prelude::*;

verus! {

broadcast use vstd::std_specs::hash::group_hash_axioms;

/// The places of the nodes that a way runs through, in the way's order.
/// An identifier that names no known node is passed over.
pub open spec fn resolved_points(refs: Seq<i64>, nodes: Map<i64, Coord>) -> Seq<Coord>
    decreases refs.len(),
{
    if refs.len() == 0 {
        Seq::empty()
    } else {
        let before = resolved_points(refs.drop_last(), nodes);
        if nodes.contains_key(refs.last()) {
            before.push(nodes[refs.last()])
        } else {
            before
        }
    }
}

/// The road on the map that a way taken for a road gives, if it gives one:
/// a road needs two points at least.
pub open spec fn road_on_map(raw: RoadRawView, nodes: Map<i64, Coord>) -> Option<RoadView> {
    let points = resolved_points(raw.nodes, nodes);
    if points.len() >= 2 {
        Some(
            RoadView {
                extent: bounds(points),
                points,
                width: raw.width,
                speedlimit: raw.speedlimit,
            },
        )
    } else {
        None
    }
}

/// The roads on the map, in the order of their ways.
pub open spec fn roads_on_map(raws: Seq<RoadRawView>, nodes: Map<i64, Coord>) -> Seq<RoadView>
    decreases raws.len(),
{
    if raws.len() == 0 {
        Seq::empty()
    } else {
        let before = roads_on_map(raws.drop_last(), nodes);
        match road_on_map(raws.last(), nodes) {
            Some(road) => before.push(road),
            None => before,
        }
    }
}

/// Every road on the map is well formed: it has two points at least, and
/// its extent is their bounding box.
pub proof fn lemma_roads_are_well_formed(raws: Seq<RoadRawView>, nodes: Map<i64, Coord>)
    ensures
        forall|i: int|
            0 <= i < roads_on_map(raws, nodes).len() ==> (#[trigger] roads_on_map(
                raws,
                nodes,
            )[i]).well_formed(),
    decreases raws.len(),
{
    if raws.len() > 0 {
        let before = roads_on_map(raws.drop_last(), nodes);
        lemma_roads_are_well_formed(raws.drop_last(), nodes);
        let roads = roads_on_map(raws, nodes);
        assert forall|i: int| 0 <= i < roads.len() implies (#[trigger] roads[i]).well_formed() by {
            if i < before.len() {
                assert(roads[i] == before[i]);
            }
        }
    }
}

/// The places of the known nodes among `refs`, in order.
fn resolve_points(refs: &Vec<i64>, nodes: &HashMap<i64, Coord>) -> (points: Vec<Coord>)
    ensures
        points@ == resolved_points(refs@, nodes@),
{
    let mut points: Vec<Coord> = Vec::new();
    let mut i: usize = 0;
    while i < refs.len()
        invariant
            i <= refs@.len(),
            points@ == resolved_points(refs@.take(i as int), nodes@),
        decreases refs@.len() - i,
    {
        assert(refs@.take(i + 1).drop_last() == refs@.take(i as int));
        match nodes.get(&refs[i]) {
            Some(coord) => points.push(*coord),
            None => {},
        }
        i += 1;
    }
    assert(refs@.take(i as int) == refs@);
    points
}

/// The bounding box of the points.
fn bounding_box(points: &Vec<Coord>) -> (extent: (Coord, Coord))
    requires
        points@.len() > 0,
    ensures
        extent == bounds(points@),
{
    let mut low = points[0];
    let mut high = points[0];
    let mut i: usize = 1;
    while i < points.len()
        invariant
            1 <= i <= points@.len(),
            (low, high) == bounds(points@.take(i as int)),
        decreases points@.len() - i,
    {
        assert(points@.take(i + 1).drop_last() == points@.take(i as int));
        low = low.min_each(points[i]);
        high = high.max_each(points[i]);
        i += 1;
    }
    assert(points@.take(i as int) == points@);
    (low, high)
}

/// Gives a road its geometry, or drops it where fewer than two of its
/// nodes are known.
pub(super) fn resolve_road(raw: &RoadRaw, nodes: &HashMap<i64, Coord>) -> (road: Option<Road>)
    ensures
        road.deep_view() == road_on_map(raw@, nodes@),
{
    let points = resolve_points(&raw.nodes, nodes);
    if points.len() < 2 {
        return None;
    }
    let extent = bounding_box(&points);
    Some(Road { extent, points, width: raw.width, speedlimit: raw.speedlimit })
}

} // verus!
