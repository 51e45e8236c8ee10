//! The facing direction of a placed organ, with the geometry of moving one
//! cell in a direction on the packed coordinate grid.

use vstd::prelude::*;
use crate::coord::{self, Coord};

verus! {

#[derive(Debug, Clone, Copy, PartialEq, Eq, Structural)]
pub enum OrganDirection {
    North,
    West,
    South,
    East,
    X,
}

/// The numeric code a direction is stored under in packed encodings.
pub open spec fn dir_code(d: OrganDirection) -> int {
    match d {
        OrganDirection::North => 0,
        OrganDirection::West => 1,
        OrganDirection::South => 2,
        OrganDirection::East => 3,
        OrganDirection::X => 4,
    }
}

/// The direction a numeric code decodes to.
pub open spec fn dir_of_code(code: int) -> OrganDirection {
    if code == 0 {
        OrganDirection::North
    } else if code == 1 {
        OrganDirection::West
    } else if code == 2 {
        OrganDirection::South
    } else if code == 3 {
        OrganDirection::East
    } else {
        OrganDirection::X
    }
}

/// The one-letter protocol name of a direction.
pub open spec fn dir_char(d: OrganDirection) -> char {
    match d {
        OrganDirection::North => 'N',
        OrganDirection::West => 'W',
        OrganDirection::South => 'S',
        OrganDirection::East => 'E',
        OrganDirection::X => 'X',
    }
}

/// The direction a one-letter protocol name decodes to.
pub open spec fn dir_of_char(c: char) -> OrganDirection {
    if c == 'N' {
        OrganDirection::North
    } else if c == 'W' {
        OrganDirection::West
    } else if c == 'S' {
        OrganDirection::South
    } else if c == 'E' {
        OrganDirection::East
    } else {
        OrganDirection::X
    }
}

/// The direction opposite to the given one; the neutral facing is its own
/// opposite.
pub open spec fn dir_opposite(d: OrganDirection) -> OrganDirection {
    match d {
        OrganDirection::North => OrganDirection::South,
        OrganDirection::West => OrganDirection::East,
        OrganDirection::South => OrganDirection::North,
        OrganDirection::East => OrganDirection::West,
        OrganDirection::X => OrganDirection::X,
    }
}

/// Whether a one-cell move in direction `d` from the position packed in `pos`
/// stays inside the coordinate codec's range.
pub open spec fn move_in_range(d: OrganDirection, pos: Coord) -> bool {
    let x = coord::coord_x(pos);
    let y = coord::coord_y(pos);
    &&& x <= coord::MAX_X
    &&& y <= coord::MAX_Y
    &&& match d {
        OrganDirection::North => y >= 1,
        OrganDirection::West => x >= 1,
        OrganDirection::South => y + 1 <= coord::MAX_Y,
        OrganDirection::East => x + 1 <= coord::MAX_X,
        OrganDirection::X => true,
    }
}

/// The coordinate one cell away from `pos` in direction `d`; the neutral
/// facing stays in place.
pub open spec fn moved_coord(d: OrganDirection, pos: Coord) -> Coord {
    let x = coord::coord_x(pos);
    let y = coord::coord_y(pos);
    match d {
        OrganDirection::North => coord::encode(x, (y - 1) as u8),
        OrganDirection::West => coord::encode((x - 1) as u8, y),
        OrganDirection::South => coord::encode(x, (y + 1) as u8),
        OrganDirection::East => coord::encode((x + 1) as u8, y),
        OrganDirection::X => coord::encode(x, y),
    }
}

impl OrganDirection {
    /// Decodes a direction from its protocol name, long or one-letter form.
    /// Any other string is a caller error, excluded up front.
    pub fn from_str(s: &str) -> (r: OrganDirection)
        requires
            s@ == "NORTH"@ || s@ == "N"@ || s@ == "WEST"@ || s@ == "W"@ || s@ == "SOUTH"@ || s@
                == "S"@ || s@ == "EAST"@ || s@ == "E"@ || s@ == "X"@,
        ensures
            s@.len() == 1 ==> r == dir_of_char(s@[0]),
            s@ == "NORTH"@ ==> r == OrganDirection::North,
            s@ == "WEST"@ ==> r == OrganDirection::West,
            s@ == "SOUTH"@ ==> r == OrganDirection::South,
            s@ == "EAST"@ ==> r == OrganDirection::East,
    {
        proof {
            reveal_strlit("NORTH");
            reveal_strlit("N");
            reveal_strlit("WEST");
            reveal_strlit("W");
            reveal_strlit("SOUTH");
            reveal_strlit("S");
            reveal_strlit("EAST");
            reveal_strlit("E");
            reveal_strlit("X");
        }
        let c = s.get_char(0);
        if c == 'N' {
            OrganDirection::North
        } else if c == 'W' {
            OrganDirection::West
        } else if c == 'S' {
            OrganDirection::South
        } else if c == 'E' {
            OrganDirection::East
        } else {
            OrganDirection::X
        }
    }

    /// Decodes a direction from its one-letter protocol name. Any other
    /// character is a caller error, excluded up front.
    pub fn from_char(c: char) -> (r: OrganDirection)
        requires
            c == 'N' || c == 'W' || c == 'S' || c == 'E' || c == 'X',
        ensures
            r == dir_of_char(c),
    {
        if c == 'N' {
            OrganDirection::North
        } else if c == 'W' {
            OrganDirection::West
        } else if c == 'S' {
            OrganDirection::South
        } else if c == 'E' {
            OrganDirection::East
        } else {
            OrganDirection::X
        }
    }

    /// Decodes a direction from its packed code. Codes above 4 are a caller
    /// error, excluded up front.
    pub fn from_index(i: usize) -> (r: OrganDirection)
        requires
            i <= 4,
        ensures
            r == dir_of_code(i as int),
    {
        if i == 0 {
            OrganDirection::North
        } else if i == 1 {
            OrganDirection::West
        } else if i == 2 {
            OrganDirection::South
        } else if i == 3 {
            OrganDirection::East
        } else {
            OrganDirection::X
        }
    }

    /// The one-letter protocol name of this direction.
    pub fn to_char(&self) -> (r: char)
        ensures
            r == dir_char(*self),
    {
        match self {
            OrganDirection::North => 'N',
            OrganDirection::West => 'W',
            OrganDirection::South => 'S',
            OrganDirection::East => 'E',
            OrganDirection::X => 'X',
        }
    }

    /// The direction pointing the opposite way.
    pub fn opposite(&self) -> (r: OrganDirection)
        ensures
            r == dir_opposite(*self),
    {
        match self {
            OrganDirection::North => OrganDirection::South,
            OrganDirection::West => OrganDirection::East,
            OrganDirection::South => OrganDirection::North,
            OrganDirection::East => OrganDirection::West,
            OrganDirection::X => OrganDirection::X,
        }
    }

    /// The direction one quarter turn to the left.
    pub fn turn_left(&self) -> (r: OrganDirection)
        ensures
            r == (match *self {
                OrganDirection::North => OrganDirection::West,
                OrganDirection::West => OrganDirection::South,
                OrganDirection::South => OrganDirection::East,
                OrganDirection::East => OrganDirection::North,
                OrganDirection::X => OrganDirection::X,
            }),
    {
        match self {
            OrganDirection::North => OrganDirection::West,
            OrganDirection::West => OrganDirection::South,
            OrganDirection::South => OrganDirection::East,
            OrganDirection::East => OrganDirection::North,
            OrganDirection::X => OrganDirection::X,
        }
    }

    /// The direction one quarter turn to the right.
    pub fn turn_right(&self) -> (r: OrganDirection)
        ensures
            r == (match *self {
                OrganDirection::North => OrganDirection::East,
                OrganDirection::West => OrganDirection::North,
                OrganDirection::South => OrganDirection::West,
                OrganDirection::East => OrganDirection::South,
                OrganDirection::X => OrganDirection::X,
            }),
    {
        match self {
            OrganDirection::North => OrganDirection::East,
            OrganDirection::West => OrganDirection::North,
            OrganDirection::South => OrganDirection::West,
            OrganDirection::East => OrganDirection::South,
            OrganDirection::X => OrganDirection::X,
        }
    }

    /// The coordinate one cell away from `pos` in this direction. A move that
    /// would leave the coordinate range is a caller error, excluded up front.
    pub fn move_pos(&self, pos: Coord) -> (r: Coord)
        requires
            move_in_range(*self, pos),
        ensures
            r == moved_coord(*self, pos),
    {
        let x = coord::x(pos);
        let y = coord::y(pos);
        match self {
            OrganDirection::North => coord::new(x, y - 1),
            OrganDirection::West => coord::new(x - 1, y),
            OrganDirection::South => coord::new(x, y + 1),
            OrganDirection::East => coord::new(x + 1, y),
            OrganDirection::X => coord::new(x, y),
        }
    }
}

/// The axis direction that steps from `src` toward `dst`, preferring the x
/// axis; north when the two coordinates decode to the same position.
pub open spec fn next_direction(src: Coord, dst: Coord) -> OrganDirection {
    if coord::coord_x(src) < coord::coord_x(dst) {
        OrganDirection::East
    } else if coord::coord_x(src) > coord::coord_x(dst) {
        OrganDirection::West
    } else if coord::coord_y(src) < coord::coord_y(dst) {
        OrganDirection::South
    } else {
        OrganDirection::North
    }
}

/// Picks the axis direction that steps from `src` toward `dst`.
pub fn found_next_direction(src: Coord, dst: Coord) -> (r: OrganDirection)
    ensures
        r == next_direction(src, dst),
{
    if coord::x(src) < coord::x(dst) {
        return OrganDirection::East;
    }
    if coord::x(src) > coord::x(dst) {
        return OrganDirection::West;
    }
    if coord::y(src) < coord::y(dst) {
        return OrganDirection::South;
    }
    OrganDirection::North
}

/// Whether `dst` lies close enough to `src`, on or near an axis, for a facing
/// direction between them to be well defined.
pub open spec fn dir_between_defined(src: Coord, dst: Coord) -> bool {
    let ax = abs_diff_x(src, dst);
    let ay = abs_diff_y(src, dst);
    ax == 2 || ay == 2 || ax == 1 || ay == 1
}

/// How far apart the x components of two coordinates are.
pub open spec fn abs_diff_x(c1: Coord, c2: Coord) -> int {
    let x1 = coord::coord_x(c1);
    let x2 = coord::coord_x(c2);
    if x1 >= x2 {
        x1 - x2
    } else {
        x2 - x1
    }
}

/// How far apart the y components of two coordinates are.
pub open spec fn abs_diff_y(c1: Coord, c2: Coord) -> int {
    let y1 = coord::coord_y(c1);
    let y2 = coord::coord_y(c2);
    if y1 >= y2 {
        y1 - y2
    } else {
        y2 - y1
    }
}

/// The facing direction from `src` toward a nearby `dst`: two-cell axis gaps
/// take priority over one-cell gaps, and the x axis over the y axis.
pub open spec fn dir_toward(src: Coord, dst: Coord) -> OrganDirection {
    let ax = abs_diff_x(src, dst);
    let ay = abs_diff_y(src, dst);
    if ax == 2 {
        if coord::coord_x(src) < coord::coord_x(dst) {
            OrganDirection::East
        } else {
            OrganDirection::West
        }
    } else if ay == 2 {
        if coord::coord_y(src) < coord::coord_y(dst) {
            OrganDirection::South
        } else {
            OrganDirection::North
        }
    } else if coord::coord_x(src) < coord::coord_x(dst) {
        OrganDirection::East
    } else if coord::coord_x(src) > coord::coord_x(dst) {
        OrganDirection::West
    } else if coord::coord_y(src) < coord::coord_y(dst) {
        OrganDirection::South
    } else {
        OrganDirection::North
    }
}

/// The facing direction from `src` toward a nearby `dst`. Pairs with no
/// defined direction are a caller error, excluded up front.
pub fn get_direction_from_coord_to_coord(src: Coord, dst: Coord, _grid: &crate::grid::Grid) -> (r:
    OrganDirection)
    requires
        dir_between_defined(src, dst),
    ensures
        r == dir_toward(src, dst),
{
    let sx = coord::x(src);
    let sy = coord::y(src);
    let dx = coord::x(dst);
    let dy = coord::y(dst);
    let abs_x = if sx >= dx {
        sx - dx
    } else {
        dx - sx
    };
    let abs_y = if sy >= dy {
        sy - dy
    } else {
        dy - sy
    };
    if abs_x == 2 {
        if sx < dx {
            return OrganDirection::East;
        } else {
            return OrganDirection::West;
        }
    }
    if abs_y == 2 {
        if sy < dy {
            return OrganDirection::South;
        } else {
            return OrganDirection::North;
        }
    }
    if sx < dx {
        return OrganDirection::East;
    }
    if sx > dx {
        return OrganDirection::West;
    }
    if sy < dy {
        return OrganDirection::South;
    }
    OrganDirection::North
}

} // verus!
