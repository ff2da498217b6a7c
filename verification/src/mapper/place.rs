//! Puts the roads of a map on the Web Mercator unit square.

use super::data::ProjectedRoad;
use super::math::{
    lemma_longitude_ordinate_is_monotonic, lemma_tile_index_in_grid,
    lemma_tile_index_is_monotonic, longitude_ordinate, projected, unit_x, UnitPoint, MAX_ZOOM,
};
use crate::reader::{lemma_bounds_are_tight, Coord, Road, RoadView};
use vstd::arithmetic::power2::{lemma2_to64, lemma_pow2_strictly_increases};
use vstd::prelude::*;

verus! {

/// A point is a place put on the unit square: its `x` is that of the
/// place's longitude, its `y` one that `unit_y` gives for the latitude.
pub open spec fn point_placed<F: Fn(i64) -> u64>(
    unit_y: F,
    place: Coord,
    point: UnitPoint,
) -> bool {
    &&& point.x == longitude_ordinate(place.lon)
    &&& call_ensures(unit_y, (place.lat,), point.y)
}

/// A projected road is a road put on the unit square: point by point, the
/// corners of the bounding box too, with the same attributes.
pub open spec fn road_placed<F: Fn(i64) -> u64>(
    unit_y: F,
    road: RoadView,
    placed: &ProjectedRoad,
) -> bool {
    &&& point_placed(unit_y, road.extent.0, placed.extent.0)
    &&& point_placed(unit_y, road.extent.1, placed.extent.1)
    &&& placed.points@.len() == road.points.len()
    &&& forall|i: int|
        0 <= i < road.points.len() ==> point_placed(
            unit_y,
            road.points[i],
            #[trigger] placed.points@[i],
        )
    &&& placed.width == road.width
    &&& placed.speedlimit == road.speedlimit
}

/// Puts a place on the unit square.
fn place_point<F: Fn(i64) -> u64>(unit_y: &F, place: Coord) -> (point: UnitPoint)
    requires
        call_requires(*unit_y, (place.lat,)),
    ensures
        point_placed(*unit_y, place, point),
{
    UnitPoint { x: unit_x(place.lon), y: unit_y(place.lat) }
}

/// Puts roads on the Web Mercator unit square.
///
/// Longitude maps linearly onto `x`. Latitude maps onto `y` through the
/// Mercator function, which this library leaves to the caller: `unit_y`
/// takes a latitude in nanodegrees and gives the `y` of that latitude as a
/// binary fraction of 64 places, smaller for a place further north. It is
/// called once for each point of each road, in order, and for the two
/// corners of each bounding box.
pub fn project_roads<F: Fn(i64) -> u64>(roads: &Vec<Road>, unit_y: F) -> (placed: Vec<
    ProjectedRoad,
>)
    requires
        forall|lat: i64| call_requires(unit_y, (lat,)),
    ensures
        placed@.len() == roads@.len(),
        forall|i: int|
            0 <= i < roads@.len() ==> road_placed(unit_y, roads@[i]@, #[trigger] &placed@[i]),
{
    let mut placed: Vec<ProjectedRoad> = Vec::new();
    let mut i: usize = 0;
    while i < roads.len()
        invariant
            forall|lat: i64| call_requires(unit_y, (lat,)),
            i <= roads@.len(),
            placed@.len() == i,
            forall|j: int| 0 <= j < i ==> road_placed(unit_y, roads@[j]@, #[trigger] &placed@[j]),
        decreases roads@.len() - i,
    {
        let road = &roads[i];
        let low = place_point(&unit_y, road.extent.0);
        let high = place_point(&unit_y, road.extent.1);
        let mut points: Vec<UnitPoint> = Vec::new();
        let mut k: usize = 0;
        while k < road.points.len()
            invariant
                forall|lat: i64| call_requires(unit_y, (lat,)),
                k <= road.points@.len(),
                points@.len() == k,
                forall|j: int|
                    0 <= j < k ==> point_placed(unit_y, road.points@[j], #[trigger] points@[j]),
            decreases road.points@.len() - k,
        {
            points.push(place_point(&unit_y, road.points[k]));
            k += 1;
        }
        placed.push(
            ProjectedRoad {
                extent: (low, high),
                points,
                width: road.width,
                speedlimit: road.speedlimit,
            },
        );
        i += 1;
    }
    placed
}

/// Whether a mapping of latitudes runs southwards: of two latitudes, the
/// greater never gets the greater `y`.
pub open spec fn runs_southwards<F: Fn(i64) -> u64>(unit_y: F) -> bool {
    forall|south: i64, north: i64, y_south: u64, y_north: u64|
        south <= north && #[trigger] call_ensures(unit_y, (south,), y_south) && #[trigger] call_ensures(
            unit_y,
            (north,),
            y_north,
        ) ==> y_north <= y_south
}

/// On the grid, the south-west corner of a road's bounding box lies in no
/// later column than the north-east corner, and, where the mapping of
/// latitudes runs southwards, in no earlier row.
pub proof fn lemma_corners_keep_their_sides<F: Fn(i64) -> u64>(
    unit_y: F,
    road: RoadView,
    placed: &ProjectedRoad,
    zoom: u8,
    tile_res: u32,
)
    requires
        road.well_formed(),
        road_placed(unit_y, road, placed),
        zoom <= MAX_ZOOM,
    ensures
        projected(placed.extent.0, zoom, tile_res).tile_x <= projected(
            placed.extent.1,
            zoom,
            tile_res,
        ).tile_x,
        runs_southwards(unit_y) ==> projected(placed.extent.1, zoom, tile_res).tile_y
            <= projected(placed.extent.0, zoom, tile_res).tile_y,
{
    let (low, high) = placed.extent;
    lemma_bounds_are_tight(road.points);
    lemma_longitude_ordinate_is_monotonic(road.extent.0.lon, road.extent.1.lon);
    lemma_tile_index_is_monotonic(low.x, high.x, zoom);
    lemma_tile_index_in_grid(low.x, zoom);
    lemma_tile_index_in_grid(high.x, zoom);
    lemma_tile_index_in_grid(low.y, zoom);
    lemma_tile_index_in_grid(high.y, zoom);
    lemma2_to64();
    lemma_pow2_strictly_increases(zoom as nat, 32);
    if runs_southwards(unit_y) {
        lemma_tile_index_is_monotonic(high.y, low.y, zoom);
    }
}

} // verus!
