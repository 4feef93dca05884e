//! Cell addresses: the mapping between world positions and cubic cells.

use vstd::prelude::*;

verus! {

/// The address of one cubic cell of world space.
#[derive(Clone, Copy, Debug, PartialEq, Eq, Structural)]
pub struct MapAddress {
    pub x: i32,
    pub y: i32,
    pub z: i32,
}

/// A world position in whole world units.
#[derive(Clone, Copy, Debug, PartialEq, Eq, Structural)]
pub struct Translation {
    pub x: i64,
    pub y: i64,
    pub z: i64,
}

/// `value` held to the range of a cell coordinate.
pub open spec fn clamp_to_coordinate(value: int) -> int {
    if value < i32::MIN {
        i32::MIN as int
    } else if value > i32::MAX {
        i32::MAX as int
    } else {
        value
    }
}

/// The cell coordinate of a world coordinate: the quotient rounded toward
/// negative infinity, held to the range of a cell coordinate.
pub open spec fn axis_to_address(position: int, scale: int) -> int
    recommends
        scale > 0,
{
    clamp_to_coordinate(position / scale)
}

/// The cell that holds `translation` when cells have edge `scale`.
pub open spec fn spec_translation_to_address(translation: Translation, scale: int) -> MapAddress
    recommends
        scale > 0,
{
    MapAddress {
        x: axis_to_address(translation.x as int, scale) as i32,
        y: axis_to_address(translation.y as int, scale) as i32,
        z: axis_to_address(translation.z as int, scale) as i32,
    }
}

/// The minimum corner of the cell `address` when cells have edge `scale`.
pub open spec fn spec_address_to_translation(address: MapAddress, scale: int) -> Translation {
    Translation {
        x: (address.x * scale) as i64,
        y: (address.y * scale) as i64,
        z: (address.z * scale) as i64,
    }
}

/// Whether `point` lies strictly within `radius` cells of `bound` on all three axes.
pub open spec fn spec_intersecting(point: MapAddress, bound: MapAddress, radius: int) -> bool {
    &&& bound.x - radius < point.x < bound.x + radius
    &&& bound.y - radius < point.y < bound.y + radius
    &&& bound.z - radius < point.z < bound.z + radius
}

fn axis_address(position: i64, scale: i32) -> (cell: i32)
    requires
        scale > 0,
    ensures
        cell == axis_to_address(position as int, scale as int),
{
    let wide: i64 = scale as i64;
    let quotient: i64 = if position >= 0 {
        position / wide
    } else {
        let below: i64 = -(position + 1);
        proof {
            lemma_floor_of_negative(position as int, wide as int);
        }
        -1 - below / wide
    };
    if quotient < i32::MIN as i64 {
        i32::MIN
    } else if quotient > i32::MAX as i64 {
        i32::MAX
    } else {
        quotient as i32
    }
}

/// For a negative dividend the floored quotient is found from the
/// non-negative number `-(p + 1)`.
proof fn lemma_floor_of_negative(p: int, s: int)
    requires
        p < 0,
        s > 0,
    ensures
        p / s == -1 - (-(p + 1)) / s,
{
    let b = -(p + 1);
    let q = b / s;
    let r = b % s;
    vstd::arithmetic::div_mod::lemma_fundamental_div_mod(b, s);
    vstd::arithmetic::div_mod::lemma_mod_bound(b, s);
    // p = -(b + 1) = -(s * q + r) - 1 = s * (-1 - q) + (s - 1 - r)
    assert(p == s * (-1 - q) + (s - 1 - r)) by (nonlinear_arith)
        requires
            b == s * q + r,
            p == -(b + 1),
    ;
    vstd::arithmetic::div_mod::lemma_fundamental_div_mod_converse(p, s, -1 - q, s - 1 - r);
}

/// The cell that holds a world position: each coordinate divided by the
/// cell edge and rounded toward negative infinity.
pub fn translation_to_address(translation: Translation, scale: i32) -> (address: MapAddress)
    requires
        scale > 0,
    ensures
        address == spec_translation_to_address(translation, scale as int),
{
    MapAddress {
        x: axis_address(translation.x, scale),
        y: axis_address(translation.y, scale),
        z: axis_address(translation.z, scale),
    }
}

/// The world position of a cell: its minimum corner, each coordinate
/// multiplied by the cell edge.
pub fn address_to_translation(address: MapAddress, scale: i32) -> (translation: Translation)
    ensures
        translation == spec_address_to_translation(address, scale as int),
        translation.x == address.x * scale,
        translation.y == address.y * scale,
        translation.z == address.z * scale,
{
    proof {
        lemma_product_fits(address.x as int, scale as int);
        lemma_product_fits(address.y as int, scale as int);
        lemma_product_fits(address.z as int, scale as int);
    }
    Translation {
        x: (address.x as i64) * (scale as i64),
        y: (address.y as i64) * (scale as i64),
        z: (address.z as i64) * (scale as i64),
    }
}

proof fn lemma_product_fits(a: int, s: int)
    requires
        i32::MIN <= a <= i32::MAX,
        i32::MIN <= s <= i32::MAX,
    ensures
        i64::MIN <= a * s <= i64::MAX,
{
    assert(-0x8000_0000 * 0x8000_0000 <= a * s <= 0x8000_0000 * 0x8000_0000) by (nonlinear_arith)
        requires
            -0x8000_0000 <= a <= 0x8000_0000,
            -0x8000_0000 <= s <= 0x8000_0000,
    ;
}

/// Whether `a_point` lies strictly inside the cube of half-width `radius`
/// around `b_bound`. The cells at exactly `radius` from the centre are outside.
pub fn intersecting(a_point: &MapAddress, b_bound: &MapAddress, radius: &i32) -> (inside: bool)
    ensures
        inside == spec_intersecting(*a_point, *b_bound, *radius as int),
{
    let r: i64 = *radius as i64;
    (a_point.x as i64) < b_bound.x as i64 + r && a_point.x as i64 > b_bound.x as i64 - r
        && ((a_point.y as i64) < b_bound.y as i64 + r && a_point.y as i64 > b_bound.y as i64 - r)
        && ((a_point.z as i64) < b_bound.z as i64 + r && a_point.z as i64 > b_bound.z as i64 - r)
}

/// A cell's corner lies in that cell: turning an address into a position and
/// back gives the address again, whatever the positive cell edge.
pub proof fn lemma_address_round_trip(address: MapAddress, scale: i32)
    requires
        scale > 0,
    ensures
        spec_translation_to_address(
            spec_address_to_translation(address, scale as int),
            scale as int,
        ) == address,
{
    lemma_product_fits(address.x as int, scale as int);
    lemma_product_fits(address.y as int, scale as int);
    lemma_product_fits(address.z as int, scale as int);
    vstd::arithmetic::div_mod::lemma_div_multiples_vanish(address.x as int, scale as int);
    vstd::arithmetic::div_mod::lemma_div_multiples_vanish(address.y as int, scale as int);
    vstd::arithmetic::div_mod::lemma_div_multiples_vanish(address.z as int, scale as int);
}

/// A cell holds the positions from its corner up to, but without, the next
/// corner on every axis: below zero as above it.
pub proof fn lemma_cell_holds_its_positions(address: MapAddress, scale: i32, inside: Translation)
    requires
        scale > 0,
        address.x * scale <= inside.x < address.x * scale + scale,
        address.y * scale <= inside.y < address.y * scale + scale,
        address.z * scale <= inside.z < address.z * scale + scale,
    ensures
        spec_translation_to_address(inside, scale as int) == address,
{
    lemma_floor_in_cell(address.x as int, scale as int, inside.x as int);
    lemma_floor_in_cell(address.y as int, scale as int, inside.y as int);
    lemma_floor_in_cell(address.z as int, scale as int, inside.z as int);
}

proof fn lemma_floor_in_cell(cell: int, scale: int, position: int)
    requires
        scale > 0,
        cell * scale <= position < cell * scale + scale,
    ensures
        position / scale == cell,
{
    assert(position == scale * cell + (position - cell * scale)) by (nonlinear_arith);
    vstd::arithmetic::div_mod::lemma_fundamental_div_mod_converse(
        position,
        scale,
        cell,
        position - cell * scale,
    );
}

} // verus!
