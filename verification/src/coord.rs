//! Coordinate codec: packs an (x, y) board position into a single integer
//! key, with x in the high bits and y in the low four bits. Equality of
//! coordinates is equality of the packed integer.

use vstd::prelude::*;

verus! {

/// A board position packed as `x * 16 + y`.
pub type Coord = u16;

/// Largest x the codec accepts; boards are at most this wide.
pub const MAX_X: u8 = 26;

/// Largest y the codec accepts; boards are at most this tall.
pub const MAX_Y: u8 = 13;

/// The packed form of (x, y).
pub open spec fn encode(x: u8, y: u8) -> Coord {
    (x * 16 + y) as u16
}

/// The x component a packed coordinate decodes to.
pub open spec fn coord_x(c: Coord) -> u8 {
    (((c as int) / 16) % 32) as u8
}

/// The y component a packed coordinate decodes to.
pub open spec fn coord_y(c: Coord) -> u8 {
    ((c as int) % 16) as u8
}

/// The taxicab distance between the decoded positions of two packed coordinates.
pub open spec fn distance(c1: Coord, c2: Coord) -> int {
    let dx = if coord_x(c1) >= coord_x(c2) {
        coord_x(c1) - coord_x(c2)
    } else {
        coord_x(c2) - coord_x(c1)
    };
    let dy = if coord_y(c1) >= coord_y(c2) {
        coord_y(c1) - coord_y(c2)
    } else {
        coord_y(c2) - coord_y(c1)
    };
    dx + dy
}

/// Packs (x, y) into a coordinate. Positions outside the fixed board maximum
/// are a caller error, excluded up front.
pub fn new(x: u8, y: u8) -> (c: Coord)
    requires
        x <= MAX_X,
        y <= MAX_Y,
    ensures
        c == encode(x, y),
{
    (x as u16) * 16 + (y as u16)
}

/// Extracts the x component of a packed coordinate.
pub fn x(coord: Coord) -> (r: u8)
    ensures
        r == coord_x(coord),
{
    ((coord / 16) % 32) as u8
}

/// Extracts the y component of a packed coordinate.
pub fn y(coord: Coord) -> (r: u8)
    ensures
        r == coord_y(coord),
{
    (coord % 16) as u8
}

/// Taxicab distance between two packed coordinates.
pub fn manhattan_distance(coord1: Coord, coord2: Coord) -> (d: u8)
    ensures
        d == distance(coord1, coord2),
{
    let x1 = x(coord1);
    let x2 = x(coord2);
    let y1 = y(coord1);
    let y2 = y(coord2);
    let dx = if x1 >= x2 {
        x1 - x2
    } else {
        x2 - x1
    };
    let dy = if y1 >= y2 {
        y1 - y2
    } else {
        y2 - y1
    };
    dx + dy
}

/// Two coordinates are adjacent exactly when their taxicab distance is 1.
pub fn is_adjacent(coord1: Coord, coord2: Coord) -> (r: bool)
    ensures
        r == (distance(coord1, coord2) == 1),
{
    manhattan_distance(coord1, coord2) == 1
}

/// Law: encoding any in-range position and decoding it gives the position back.
pub proof fn lemma_coord_round_trip(x: u8, y: u8)
    requires
        x <= MAX_X,
        y <= MAX_Y,
    ensures
        coord_x(encode(x, y)) == x,
        coord_y(encode(x, y)) == y,
{
    assert(coord_x(encode(x, y)) == x && coord_y(encode(x, y)) == y) by (nonlinear_arith)
        requires
            x <= 26,
            y <= 13,
    ;
}

/// Law: taxicab distance is symmetric in its two arguments.
pub proof fn lemma_distance_symmetric(c1: Coord, c2: Coord)
    ensures
        distance(c1, c2) == distance(c2, c1),
{
}

} // verus!
