//! Slippy-map tiling: from a point of the Web Mercator unit square to a tile
//! and a pixel inside it.
//!
//! The unit square has its origin in the north-west corner: `x` grows
//! eastwards with the longitude, `y` grows southwards, so that a higher
//! latitude gives a smaller `y`. At zoom level `z` the square is cut into
//! `2^z` columns and `2^z` rows of tiles.

use super::data::GlobalLocation;
use vstd::arithmetic::div_mod::{
    lemma_div_is_ordered, lemma_div_pos_is_pos, lemma_fundamental_div_mod,
    lemma_multiply_divide_lt,
};
use vstd::arithmetic::power2::{lemma2_to64, lemma_pow2_pos, lemma_pow2_strictly_increases, pow2};
use vstd::bits::lemma_u64_shl_is_mul;
use vstd::prelude::*;

verus! {

/// The largest zoom level that the tile arithmetic supports: tile indices
/// stay below `2^31`, and a tile key below `2^62`.
pub const MAX_ZOOM: u8 = 31;

/// The denominator of an ordinate of a [`UnitPoint`]: `2^64`.
pub const UNIT: u128 = 0x1_0000_0000_0000_0000;

/// A point of the Web Mercator unit square.
///
/// Each ordinate is a binary fraction: the field value `v` stands for the
/// real number `v / 2^64`, so every value lies in `[0, 1)`. A position on or
/// beyond an edge of the square is held as the nearest value inside it.
#[derive(Debug, Clone, Copy, PartialEq, Eq, Structural)]
pub struct UnitPoint {
    pub x: u64,
    pub y: u64,
}

/// Half a turn in nanodegrees: the longitude of the eastern edge of the
/// unit square.
pub const HALF_TURN: i64 = 180_000_000_000;

/// A full turn in nanodegrees: the width of the unit square.
pub const FULL_TURN: i64 = 360_000_000_000;

/// The `x` of a longitude, given in nanodegrees: a half plus the longitude
/// over a full turn, so that longitude grows linearly from the western
/// edge to the eastern. The fraction is cut after 64 binary places; a
/// longitude on or beyond an edge is held just inside it.
pub open spec fn longitude_ordinate(lon: i64) -> u64 {
    let exact = (lon + HALF_TURN) * (UNIT as int) / (FULL_TURN as int);
    if exact < 0 {
        0
    } else if exact >= UNIT {
        (UNIT - 1) as u64
    } else {
        exact as u64
    }
}

/// Places a longitude, given in nanodegrees, on the `x` axis of the unit
/// square.
pub fn unit_x(lon: i64) -> (x: u64)
    ensures
        x == longitude_ordinate(lon),
{
    let shifted: i128 = lon as i128 + HALF_TURN as i128;
    if shifted <= 0 {
        assert((lon + HALF_TURN) * (UNIT as int) / (FULL_TURN as int) <= 0) by (nonlinear_arith)
            requires
                lon + HALF_TURN <= 0,
                UNIT > 0,
                FULL_TURN > 0,
        ;
        return 0;
    }
    assert(shifted as int * UNIT as int <= 0xffff_ffff_ffff_ffff * 0x1_0000_0000_0000_0000)
        by (nonlinear_arith)
        requires
            0 <= shifted <= 0xffff_ffff_ffff_ffff,
            UNIT == 0x1_0000_0000_0000_0000,
    ;
    let exact: u128 = (shifted as u128) * UNIT / (FULL_TURN as u128);
    if exact >= UNIT {
        u64::MAX
    } else {
        exact as u64
    }
}

/// Longitudes further east lie further right on the unit square.
pub proof fn lemma_longitude_ordinate_is_monotonic(west: i64, east: i64)
    requires
        west <= east,
    ensures
        longitude_ordinate(west) <= longitude_ordinate(east),
{
    let a = (west + HALF_TURN) * (UNIT as int);
    let b = (east + HALF_TURN) * (UNIT as int);
    assert(a <= b) by (nonlinear_arith)
        requires
            west <= east,
            a == (west + HALF_TURN) * (UNIT as int),
            b == (east + HALF_TURN) * (UNIT as int),
            UNIT > 0,
    ;
    lemma_div_is_ordered(a, b, FULL_TURN as int);
}

/// The number of tiles in a row, and of rows, of the grid of a zoom level:
/// `2^zoom`. Zoom levels above [`MAX_ZOOM`] are out of contract.
pub fn tiles_per_row(zoom: u8) -> (tiles: u64)
    requires
        zoom <= MAX_ZOOM,
    ensures
        tiles == pow2(zoom as nat),
        tiles <= 0x8000_0000,
{
    proof {
        lemma2_to64();
        lemma_pow2_strictly_increases(zoom as nat, 32);
        lemma_u64_shl_is_mul(1, zoom as u64);
        if zoom < 31 {
            lemma_pow2_strictly_increases(zoom as nat, 31);
        }
    }
    1u64 << (zoom as u64)
}

/// An ordinate scaled to tile space, in units of `1 / 2^64` tile.
pub open spec fn scaled_ordinate(v: u64, zoom: u8) -> int {
    v as int * pow2(zoom as nat) as int
}

/// The tile that an ordinate falls in: the integer part of its scaled value.
pub open spec fn tile_index(v: u64, zoom: u8) -> int {
    scaled_ordinate(v, zoom) / (UNIT as int)
}

/// The pixel inside its tile that an ordinate falls in: the fractional part
/// of its scaled value times the tile resolution, truncated.
pub open spec fn pixel_offset(v: u64, zoom: u8, tile_res: u32) -> int {
    (scaled_ordinate(v, zoom) % (UNIT as int)) * (tile_res as int) / (UNIT as int)
}

/// The tile and pixel of a point at a zoom level and tile resolution.
pub open spec fn projected(point: UnitPoint, zoom: u8, tile_res: u32) -> GlobalLocation {
    GlobalLocation {
        tile_x: tile_index(point.x, zoom) as u32,
        tile_y: tile_index(point.y, zoom) as u32,
        x: pixel_offset(point.x, zoom, tile_res) as u32,
        y: pixel_offset(point.y, zoom, tile_res) as u32,
    }
}

/// Tile index and pixel offset of one ordinate.
fn split_ordinate(v: u64, zoom: u8, tile_res: u32) -> (r: (u32, u32))
    requires
        zoom <= MAX_ZOOM,
    ensures
        r.0 == tile_index(v, zoom),
        r.1 == pixel_offset(v, zoom, tile_res),
        r.0 < pow2(zoom as nat),
        tile_res > 0 ==> r.1 < tile_res,
        tile_res == 0 ==> r.1 == 0,
{
    let tiles: u64 = tiles_per_row(zoom);
    assert(v as int * tiles as int <= 0xffff_ffff_ffff_ffff * 0x1_0000_0000) by (nonlinear_arith)
        requires
            0 <= v <= 0xffff_ffff_ffff_ffff,
            0 <= tiles < 0x1_0000_0000,
    ;
    proof {
        lemma_pow2_pos(zoom as nat);
    }
    let scaled: u128 = (v as u128) * (tiles as u128);
    let tile: u128 = scaled / UNIT;
    let fraction: u128 = scaled % UNIT;
    assert(tile < tiles) by {
        assert(scaled < UNIT * tiles) by (nonlinear_arith)
            requires
                scaled == v as int * tiles as int,
                v < UNIT,
                tiles > 0,
        ;
        lemma_multiply_divide_lt(scaled as int, UNIT as int, tiles as int);
    }
    assert(fraction as int * tile_res as int <= 0xffff_ffff_ffff_ffff * 0xffff_ffff)
        by (nonlinear_arith)
        requires
            0 <= fraction <= 0xffff_ffff_ffff_ffff,
            0 <= tile_res <= 0xffff_ffff,
    ;
    let sub: u128 = fraction * (tile_res as u128);
    let pixel: u128 = sub / UNIT;
    assert(tile_res > 0 ==> pixel < tile_res) by {
        if tile_res > 0 {
            assert(sub < UNIT * tile_res) by (nonlinear_arith)
                requires
                    sub == fraction as int * tile_res as int,
                    fraction < UNIT,
                    tile_res > 0,
            ;
            lemma_multiply_divide_lt(sub as int, UNIT as int, tile_res as int);
        }
    }
    (tile as u32, pixel as u32)
}

/// Projects a point of the unit square onto the tile grid.
///
/// The ordinates are scaled by `2^zoom`; the integer part of each is the
/// tile index, its fractional part times `tile_res`, truncated, the pixel
/// inside the tile. Zoom levels above [`MAX_ZOOM`] are out of contract.
pub fn coord_to_tile(point: UnitPoint, zoom: u8, tile_res: u32) -> (location: GlobalLocation)
    requires
        zoom <= MAX_ZOOM,
    ensures
        location == projected(point, zoom, tile_res),
        location.tile_x < pow2(zoom as nat),
        location.tile_y < pow2(zoom as nat),
        tile_res > 0 ==> location.x < tile_res && location.y < tile_res,
{
    let (tile_x, x) = split_ordinate(point.x, zoom, tile_res);
    let (tile_y, y) = split_ordinate(point.y, zoom, tile_res);
    GlobalLocation { tile_x, tile_y, x, y }
}

/// A projected ordinate, read back as a position in pixels, lies at most
/// one pixel below the exact position and never above it: with `p` the
/// tile index times the resolution plus the pixel offset,
/// `p <= v * 2^zoom * tile_res / 2^64 < p + 1`.
pub proof fn lemma_projection_within_one_pixel(v: u64, zoom: u8, tile_res: u32)
    ensures
        ({
            let p = tile_index(v, zoom) * tile_res + pixel_offset(v, zoom, tile_res);
            let exact = scaled_ordinate(v, zoom) * tile_res;
            p * UNIT <= exact < (p + 1) * UNIT
        }),
{
    let s = scaled_ordinate(v, zoom);
    let u = UNIT as int;
    let r = tile_res as int;
    let t = s / u;
    let f = s % u;
    let px = f * r / u;
    assert(s == t * u + f && 0 <= f < u) by {
        lemma_fundamental_div_mod(s, u);
    }
    assert(f * r == px * u + (f * r) % u && 0 <= (f * r) % u < u) by {
        lemma_fundamental_div_mod(f * r, u);
    }
    assert(s * r == (t * r + px) * u + (f * r) % u) by (nonlinear_arith)
        requires
            s == t * u + f,
            f * r == px * u + (f * r) % u,
    ;
}

/// An ordinate further along its axis falls in the same tile or in a
/// later one.
pub proof fn lemma_tile_index_is_monotonic(near: u64, far: u64, zoom: u8)
    requires
        near <= far,
    ensures
        tile_index(near, zoom) <= tile_index(far, zoom),
{
    let n = pow2(zoom as nat) as int;
    assert(near as int * n <= far as int * n) by (nonlinear_arith)
        requires
            near <= far,
            0 <= n,
    ;
    lemma_div_is_ordered(scaled_ordinate(near, zoom), scaled_ordinate(far, zoom), UNIT as int);
}

/// Every ordinate falls in a tile of the grid.
pub proof fn lemma_tile_index_in_grid(v: u64, zoom: u8)
    ensures
        0 <= tile_index(v, zoom) < pow2(zoom as nat),
{
    let n = pow2(zoom as nat) as int;
    lemma_pow2_pos(zoom as nat);
    assert(0 <= v as int * n < UNIT as int * n) by (nonlinear_arith)
        requires
            0 <= v < UNIT,
            0 < n,
    ;
    lemma_multiply_divide_lt(scaled_ordinate(v, zoom), UNIT as int, n);
    lemma_div_pos_is_pos(scaled_ordinate(v, zoom), UNIT as int);
}

} // verus!
