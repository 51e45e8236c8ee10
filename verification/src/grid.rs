//! The board: a fixed-capacity array of packed cells plus the connectivity
//! map from each organ to the organs first recorded as grown from it. Owns
//! placement, cascading removal, and every placement-legality query.

use vstd::prelude::*;
use crate::cell::{self, Cell};
use crate::coord::{self, Coord};
use crate::organ::{self, Organ};
use crate::organ_direction::{self, OrganDirection};
use crate::organ_type;

verus! {

/// Widest board the grid can hold.
pub const MAX_WIDTH: usize = 24;

/// Tallest board the grid can hold.
pub const MAX_HEIGHT: usize = 12;

/// One past the largest packed coordinate the connectivity map can key.
pub const CONN_SLOTS: usize = 512;

/// The mathematical state of a grid: its cells by index `x + width * y`, and
/// the connectivity map from a parent coordinate to the coordinates recorded
/// as its children.
#[verifier::ext_equal]
pub struct GridModel {
    pub cells: Seq<Cell>,
    pub kids: Map<Coord, Seq<Coord>>,
    pub width: int,
    pub height: int,
}

/// The cell a model holds at (x, y).
pub open spec fn cell_at(m: GridModel, x: int, y: int) -> Cell {
    m.cells[x + m.width * y]
}

/// Whether (x, y) lies on the board.
pub open spec fn spec_in_bounds(m: GridModel, x: int, y: int) -> bool {
    0 <= x < m.width && 0 <= y < m.height
}

/// Whether the cell at (x, y) holds an organ of `owner`.
pub open spec fn owned_at(m: GridModel, x: int, y: int, owner: int) -> bool {
    cell::spec_is_owned_by(cell_at(m, x, y), owner)
}

/// Whether the cell at (x, y) holds an organ of `owner` rooted at `root`.
pub open spec fn rooted_at(m: GridModel, x: int, y: int, owner: int, root: Coord) -> bool {
    cell::spec_is_owned_and_rooted_by(cell_at(m, x, y), owner, root)
}

/// Whether some in-bounds neighbor of (x, y) holds an organ of `owner`.
pub open spec fn spec_contains_adjacent_organ(m: GridModel, x: int, y: int, owner: int) -> bool {
    ||| (x > 0 && owned_at(m, x - 1, y, owner))
    ||| (x < m.width - 1 && owned_at(m, x + 1, y, owner))
    ||| (y > 0 && owned_at(m, x, y - 1, owner))
    ||| (y < m.height - 1 && owned_at(m, x, y + 1, owner))
}

/// Whether some in-bounds neighbor of (x, y) holds an organ rooted at `root`.
pub open spec fn spec_contains_adjacent_same_root(m: GridModel, x: int, y: int, root: Coord)
    -> bool {
    ||| (x > 0 && cell::spec_has_root_coord(cell_at(m, x - 1, y), root))
    ||| (x < m.width - 1 && cell::spec_has_root_coord(cell_at(m, x + 1, y), root))
    ||| (y > 0 && cell::spec_has_root_coord(cell_at(m, x, y - 1), root))
    ||| (y < m.height - 1 && cell::spec_has_root_coord(cell_at(m, x, y + 1), root))
}

/// Whether some in-bounds neighbor of (x, y) holds a protein deposit.
pub open spec fn spec_contains_adjacent_protein(m: GridModel, x: int, y: int) -> bool {
    ||| (x > 0 && cell::spec_is_protein(cell_at(m, x - 1, y)))
    ||| (x < m.width - 1 && cell::spec_is_protein(cell_at(m, x + 1, y)))
    ||| (y > 0 && cell::spec_is_protein(cell_at(m, x, y - 1)))
    ||| (y < m.height - 1 && cell::spec_is_protein(cell_at(m, x, y + 1)))
}

/// Whether the cell at `tentacle_coord` holds a tentacle of the player
/// opposing `owner` that faces exactly `initial_coord`.
pub open spec fn spec_front_of_enemy_tentacle(
    m: GridModel,
    initial_coord: Coord,
    tentacle_coord: Coord,
    owner: int,
) -> bool {
    let tc = cell_at(m, coord::coord_x(tentacle_coord) as int, coord::coord_y(tentacle_coord) as int);
    &&& cell::spec_is_tentacle_cell(tc)
    &&& cell::spec_is_owned_by(tc, 1 - owner)
    &&& organ::spec_is_faced_to(cell::cell_payload(tc) as Organ, tentacle_coord, initial_coord)
}

/// The front-blocking rule: placement by `owner` at in-bounds (x, y) is
/// forbidden when any in-bounds neighbor holds an enemy tentacle facing
/// (x, y).
pub open spec fn spec_canceled_by_tentacle(m: GridModel, x: int, y: int, owner: int) -> bool {
    let here = coord::encode(x as u8, y as u8);
    ||| (x > 0 && spec_front_of_enemy_tentacle(m, here, coord::encode((x - 1) as u8, y as u8), owner))
    ||| (x < m.width - 1 && spec_front_of_enemy_tentacle(
        m,
        here,
        coord::encode((x + 1) as u8, y as u8),
        owner,
    ))
    ||| (y > 0 && spec_front_of_enemy_tentacle(m, here, coord::encode(x as u8, (y - 1) as u8), owner))
    ||| (y < m.height - 1 && spec_front_of_enemy_tentacle(
        m,
        here,
        coord::encode(x as u8, (y + 1) as u8),
        owner,
    ))
}

/// Whether `organ` may be placed at `dest` when growth may attach to any
/// organ of the same owner: `dest` is in bounds, empty, not front-blocked,
/// and either the organ is a root or some neighbor is owned by the same
/// player.
pub open spec fn spec_can_add_without_root(m: GridModel, dest: Coord, o: Organ) -> bool {
    let x = coord::coord_x(dest) as int;
    let y = coord::coord_y(dest) as int;
    &&& spec_in_bounds(m, x, y)
    &&& cell::spec_is_empty(cell_at(m, x, y))
    &&& !spec_canceled_by_tentacle(m, x, y, organ::organ_owner_of(o))
    &&& (organ::organ_type_code(o) == organ_type::type_code(organ_type::OrganType::Root)
        || spec_contains_adjacent_organ(m, x, y, organ::organ_owner_of(o)))
}

/// Whether `organ` may be placed at `dest` when growth must stay attached to
/// the organism rooted at the organ's root coordinate.
pub open spec fn spec_can_add_with_root(m: GridModel, dest: Coord, o: Organ) -> bool {
    let x = coord::coord_x(dest) as int;
    let y = coord::coord_y(dest) as int;
    &&& spec_in_bounds(m, x, y)
    &&& cell::spec_is_empty(cell_at(m, x, y))
    &&& !spec_canceled_by_tentacle(m, x, y, organ::organ_owner_of(o))
    &&& (organ::organ_type_code(o) == organ_type::type_code(organ_type::OrganType::Root)
        || spec_contains_adjacent_same_root(m, x, y, organ::organ_root_of(o) as Coord))
}

/// The neighbor recorded as the adjacency parent of a non-root organ at
/// `c`: the first in-bounds neighbor in west, east, north, south order that
/// holds an organ of the same owner and root.
pub open spec fn spec_parent_of(m: GridModel, c: Coord, owner: int, root: Coord) -> Option<Coord> {
    let x = coord::coord_x(c) as int;
    let y = coord::coord_y(c) as int;
    if x > 0 && rooted_at(m, x - 1, y, owner, root) {
        Some(coord::encode((x - 1) as u8, y as u8))
    } else if x < m.width - 1 && rooted_at(m, x + 1, y, owner, root) {
        Some(coord::encode((x + 1) as u8, y as u8))
    } else if y > 0 && rooted_at(m, x, y - 1, owner, root) {
        Some(coord::encode(x as u8, (y - 1) as u8))
    } else if y < m.height - 1 && rooted_at(m, x, y + 1, owner, root) {
        Some(coord::encode(x as u8, (y + 1) as u8))
    } else {
        None
    }
}

/// The in-bounds neighbors of `c` in west, east, north, south order.
pub open spec fn spec_adjacent_coords(m: GridModel, c: Coord) -> Seq<Coord> {
    let x = coord::coord_x(c) as int;
    let y = coord::coord_y(c) as int;
    let s0 = Seq::<Coord>::empty();
    let s1 = if x > 0 && spec_in_bounds(m, x - 1, y) {
        s0.push(coord::encode((x - 1) as u8, y as u8))
    } else {
        s0
    };
    let s2 = if spec_in_bounds(m, x + 1, y) {
        s1.push(coord::encode((x + 1) as u8, y as u8))
    } else {
        s1
    };
    let s3 = if y > 0 && spec_in_bounds(m, x, y - 1) {
        s2.push(coord::encode(x as u8, (y - 1) as u8))
    } else {
        s2
    };
    if spec_in_bounds(m, x, y + 1) {
        s3.push(coord::encode(x as u8, (y + 1) as u8))
    } else {
        s3
    }
}

/// An in-bounds (x, y) position indexes the cell array within the board area.
pub proof fn lemma_index_bound(x: int, y: int, w: int, h: int)
    requires
        0 <= x < w,
        0 <= y < h,
        w <= 24,
        h <= 12,
    ensures
        0 <= x + w * y,
        x + w * y < w * h,
        w * h <= 288,
{
    assert(x + w * y < w * h && w * h <= 288) by (nonlinear_arith)
        requires
            0 <= x < w,
            0 <= y < h,
            w <= 24,
            h <= 12,
    ;
}

pub struct Grid {
    cells: Vec<Cell>,
    children: Vec<Option<Vec<Coord>>>,
    width: u8,
    height: u8,
}

impl View for Grid {
    type V = GridModel;

    closed spec fn view(&self) -> GridModel {
        GridModel {
            cells: self.cells@,
            kids: Map::new(
                |c: Coord| c < 512 && self.children@[c as int] is Some,
                |c: Coord| self.children@[c as int]->0@,
            ),
            width: self.width as int,
            height: self.height as int,
        }
    }
}

impl Grid {
    /// The grid's structural invariant: full-capacity backing arrays, a board
    /// size within capacity, well-formed cells, and connectivity entries that
    /// hold each child coordinate at most once, in bounds.
    pub closed spec fn inv(&self) -> bool {
        &&& self.cells@.len() == MAX_WIDTH * MAX_HEIGHT
        &&& self.children@.len() == CONN_SLOTS
        &&& 1 <= self.width <= MAX_WIDTH
        &&& 1 <= self.height <= MAX_HEIGHT
        &&& forall|i: int|
            0 <= i < self.cells@.len() ==> cell::cell_wf(#[trigger] self.cells@[i])
        &&& forall|k: int|
            0 <= k < CONN_SLOTS && self.children@[k] is Some ==> entry_ok(
                #[trigger] self.children@[k]->0@,
                self.width as int,
                self.height as int,
            )
    }

    /// The board width this grid was created with.
    pub fn width(&self) -> (r: u8)
        requires
            self.inv(),
        ensures
            r == self@.width,
            1 <= r <= MAX_WIDTH,
    {
        self.width
    }

    /// The board height this grid was created with.
    pub fn height(&self) -> (r: u8)
        requires
            self.inv(),
        ensures
            r == self@.height,
            1 <= r <= MAX_HEIGHT,
    {
        self.height
    }

    /// A grid that satisfies its invariant has its board size within the
    /// fixed capacity.
    pub proof fn lemma_size_bounds(&self)
        requires
            self.inv(),
        ensures
            1 <= self@.width <= MAX_WIDTH,
            1 <= self@.height <= MAX_HEIGHT,
            self@.cells.len() == MAX_WIDTH * MAX_HEIGHT,
    {
    }

    /// Creates an empty grid of the given size. A size beyond the fixed
    /// capacity is a caller error, excluded up front.
    pub fn new(width: u8, height: u8) -> (g: Grid)
        requires
            1 <= width <= MAX_WIDTH,
            1 <= height <= MAX_HEIGHT,
        ensures
            g.inv(),
            g@.width == width,
            g@.height == height,
            forall|i: int| 0 <= i < g@.cells.len() ==> g@.cells[i] == cell::EMPTY,
            g@.kids == Map::<Coord, Seq<Coord>>::empty(),
    {
        let mut cells: Vec<Cell> = Vec::new();
        let mut i: usize = 0;
        while i < MAX_WIDTH * MAX_HEIGHT
            invariant
                cells@.len() == i,
                i <= MAX_WIDTH * MAX_HEIGHT,
                forall|j: int| 0 <= j < i ==> cells@[j] == cell::EMPTY,
            decreases MAX_WIDTH * MAX_HEIGHT - i,
        {
            cells.push(cell::EMPTY);
            i = i + 1;
        }
        let mut children: Vec<Option<Vec<Coord>>> = Vec::new();
        let mut k: usize = 0;
        while k < CONN_SLOTS
            invariant
                children@.len() == k,
                k <= CONN_SLOTS,
                forall|j: int| 0 <= j < k ==> children@[j] is None,
            decreases CONN_SLOTS - k,
        {
            children.push(None);
            k = k + 1;
        }
        let g = Grid { cells, children, width, height };
        proof {
            assert(g@.kids =~= Map::<Coord, Seq<Coord>>::empty());
        }
        g
    }

    /// Whether (x, y) lies on this grid's board.
    pub fn is_in_bounds(&self, x: u8, y: u8) -> (r: bool)
        ensures
            r == spec_in_bounds(self@, x as int, y as int),
    {
        x < self.width && y < self.height
    }

    /// Whether a packed coordinate lies on this grid's board.
    pub fn is_in_bounds_coord(&self, coord: Coord) -> (r: bool)
        ensures
            r == spec_in_bounds(
                self@,
                coord::coord_x(coord) as int,
                coord::coord_y(coord) as int,
            ),
    {
        self.is_in_bounds(coord::x(coord), coord::y(coord))
    }

    /// Reads the cell at (x, y). An out-of-bounds position is a caller error,
    /// excluded up front.
    pub fn get_cell(&self, x: u8, y: u8) -> (r: Cell)
        requires
            self.inv(),
            spec_in_bounds(self@, x as int, y as int),
        ensures
            r == cell_at(self@, x as int, y as int),
            cell::cell_wf(r),
    {
        proof {
            lemma_index_bound(x as int, y as int, self@.width, self@.height);
        }
        self.cells[(x as usize) + (self.width as usize) * (y as usize)]
    }

    /// Reads the cell at a packed coordinate. An out-of-bounds coordinate is
    /// a caller error, excluded up front.
    pub fn get_cell_from_coord(&self, coord: Coord) -> (r: Cell)
        requires
            self.inv(),
            spec_in_bounds(self@, coord::coord_x(coord) as int, coord::coord_y(coord) as int),
        ensures
            r == cell_at(self@, coord::coord_x(coord) as int, coord::coord_y(coord) as int),
            cell::cell_wf(r),
    {
        self.get_cell(coord::x(coord), coord::y(coord))
    }

    /// Overwrites the cell at (x, y). An out-of-bounds position or a
    /// malformed cell is a caller error, excluded up front.
    pub fn set_cell(&mut self, x: u8, y: u8, cell: Cell)
        requires
            old(self).inv(),
            spec_in_bounds(old(self)@, x as int, y as int),
            cell::cell_wf(cell),
        ensures
            final(self).inv(),
            final(self)@.cells == old(self)@.cells.update(x + old(self)@.width * y, cell),
            final(self)@.kids == old(self)@.kids,
            final(self)@.width == old(self)@.width,
            final(self)@.height == old(self)@.height,
    {
        proof {
            lemma_index_bound(x as int, y as int, self@.width, self@.height);
        }
        let idx = (x as usize) + (self.width as usize) * (y as usize);
        self.cells.set(idx, cell);
    }

    /// The up-to-four in-bounds neighbor coordinates of `coord`, in west,
    /// east, north, south order.
    pub fn get_adjacent_coords(&self, coord: Coord) -> (r: Vec<Coord>)
        requires
            self.inv(),
        ensures
            r@ == spec_adjacent_coords(self@, coord),
    {
        let mut adjacents: Vec<Coord> = Vec::new();
        let x = coord::x(coord);
        let y = coord::y(coord);
        if x > 0 && self.is_in_bounds(x - 1, y) {
            adjacents.push(coord::new(x - 1, y));
        }
        if self.is_in_bounds(x + 1, y) {
            adjacents.push(coord::new(x + 1, y));
        }
        if y > 0 && self.is_in_bounds(x, y - 1) {
            adjacents.push(coord::new(x, y - 1));
        }
        if self.is_in_bounds(x, y + 1) {
            adjacents.push(coord::new(x, y + 1));
        }
        adjacents
    }

    /// The cells of the up-to-four in-bounds neighbors of `coord`, in west,
    /// east, north, south order.
    pub fn get_adjacent_cells(&self, coord: Coord) -> (r: Vec<Cell>)
        requires
            self.inv(),
        ensures
            r@ == spec_adjacent_coords(self@, coord).map_values(
                |c: Coord| cell_at(self@, coord::coord_x(c) as int, coord::coord_y(c) as int),
            ),
    {
        let coords = self.get_adjacent_coords(coord);
        let mut cells: Vec<Cell> = Vec::new();
        let mut i: usize = 0;
        proof {
            lemma_adjacent_coords_in_bounds(self@, coord);
        }
        while i < coords.len()
            invariant
                self.inv(),
                i <= coords@.len(),
                coords@ == spec_adjacent_coords(self@, coord),
                forall|j: int|
                    0 <= j < coords@.len() ==> spec_in_bounds(
                        self@,
                        coord::coord_x(#[trigger] coords@[j]) as int,
                        coord::coord_y(coords@[j]) as int,
                    ),
                cells@ == coords@.take(i as int).map_values(
                    |c: Coord| cell_at(self@, coord::coord_x(c) as int, coord::coord_y(c) as int),
                ),
            decreases coords@.len() - i,
        {
            let c = coords[i];
            cells.push(self.get_cell_from_coord(c));
            proof {
                assert(coords@.take(i + 1) =~= coords@.take(i as int).push(coords@[i as int]));
                assert(cells@ =~= coords@.take(i + 1).map_values(
                    |c: Coord| cell_at(self@, coord::coord_x(c) as int, coord::coord_y(c) as int),
                ));
            }
            i = i + 1;
        }
        proof {
            assert(coords@.take(coords@.len() as int) =~= coords@);
        }
        cells
    }

    /// The connectivity entry of `coord`: the coordinates this cell is the
    /// recorded adjacency parent of, or none when no entry exists.
    pub fn get_children(&self, coord: Coord) -> (r: Option<&Vec<Coord>>)
        requires
            self.inv(),
        ensures
            match r {
                Some(v) => self@.kids.dom().contains(coord) && v@ == self@.kids[coord]
                    && entry_ok(v@, self@.width, self@.height),
                None => !self@.kids.dom().contains(coord),
            },
    {
        if (coord as usize) < self.children.len() {
            self.children[coord as usize].as_ref()
        } else {
            None
        }
    }
}

/// What every connectivity entry satisfies: each child coordinate appears at
/// most once, lies on the board, and fits the connectivity map's key space.
pub open spec fn entry_ok(s: Seq<Coord>, width: int, height: int) -> bool {
    &&& forall|i: int, j: int| 0 <= i < j < s.len() ==> s[i] != s[j]
    &&& forall|i: int|
        0 <= i < s.len() ==> (#[trigger] s[i]) < 512 && 0 <= coord::coord_x(s[i]) < width
            && 0 <= coord::coord_y(s[i]) < height
}

/// Every coordinate the adjacency list yields lies on the board and fits the
/// connectivity key space.
pub proof fn lemma_adjacent_in_key_space(m: GridModel, c: Coord)
    requires
        m.width <= MAX_WIDTH,
        m.height <= MAX_HEIGHT,
    ensures
        forall|j: int|
            0 <= j < spec_adjacent_coords(m, c).len() ==> coord_ok(
                m,
                #[trigger] spec_adjacent_coords(m, c)[j],
            ),
{
    lemma_adjacent_coords_in_bounds(m, c);
    let x = coord::coord_x(c) as int;
    let y = coord::coord_y(c) as int;
    if x > 0 && spec_in_bounds(m, x - 1, y) {
        lemma_encode_bound((x - 1) as u8, y as u8);
    }
    if spec_in_bounds(m, x + 1, y) {
        lemma_encode_bound((x + 1) as u8, y as u8);
    }
    if y > 0 && spec_in_bounds(m, x, y - 1) {
        lemma_encode_bound(x as u8, (y - 1) as u8);
    }
    if spec_in_bounds(m, x, y + 1) {
        lemma_encode_bound(x as u8, (y + 1) as u8);
    }
}

/// Every coordinate the adjacency list yields decodes to a position exactly
/// one step away from the position `c` decodes to.
pub proof fn lemma_adjacent_decodes(m: GridModel, c: Coord)
    requires
        m.width <= MAX_WIDTH,
        m.height <= MAX_HEIGHT,
    ensures
        forall|j: int|
            0 <= j < spec_adjacent_coords(m, c).len() ==> organ_direction::abs_diff_x(
                #[trigger] spec_adjacent_coords(m, c)[j],
                c,
            ) + organ_direction::abs_diff_y(spec_adjacent_coords(m, c)[j], c) == 1,
{
    let x = coord::coord_x(c) as int;
    let y = coord::coord_y(c) as int;
    if x > 0 && spec_in_bounds(m, x - 1, y) {
        coord::lemma_coord_round_trip((x - 1) as u8, y as u8);
    }
    if spec_in_bounds(m, x + 1, y) {
        coord::lemma_coord_round_trip((x + 1) as u8, y as u8);
    }
    if y > 0 && spec_in_bounds(m, x, y - 1) {
        coord::lemma_coord_round_trip(x as u8, (y - 1) as u8);
    }
    if spec_in_bounds(m, x, y + 1) {
        coord::lemma_coord_round_trip(x as u8, (y + 1) as u8);
    }
}

/// Every coordinate the adjacency list yields lies on the board.
proof fn lemma_adjacent_coords_in_bounds(m: GridModel, c: Coord)
    requires
        m.width <= MAX_WIDTH,
        m.height <= MAX_HEIGHT,
    ensures
        forall|j: int|
            0 <= j < spec_adjacent_coords(m, c).len() ==> spec_in_bounds(
                m,
                coord::coord_x(#[trigger] spec_adjacent_coords(m, c)[j]) as int,
                coord::coord_y(spec_adjacent_coords(m, c)[j]) as int,
            ),
{
    let x = coord::coord_x(c) as int;
    let y = coord::coord_y(c) as int;
    if x > 0 && spec_in_bounds(m, x - 1, y) {
        coord::lemma_coord_round_trip((x - 1) as u8, y as u8);
    }
    if spec_in_bounds(m, x + 1, y) {
        coord::lemma_coord_round_trip((x + 1) as u8, y as u8);
    }
    if y > 0 && spec_in_bounds(m, x, y - 1) {
        coord::lemma_coord_round_trip(x as u8, (y - 1) as u8);
    }
    if spec_in_bounds(m, x, y + 1) {
        coord::lemma_coord_round_trip(x as u8, (y + 1) as u8);
    }
}

impl Grid {
    /// Decides whether the cell at `tentacle_coord` holds an enemy tentacle
    /// of the player opposing `owner` that faces exactly `initial_coord`.
    fn is_front_of_enemy_tentacle(&self, initial_coord: Coord, tentacle_coord: Coord, owner: u8)
        -> (r: bool)
        requires
            self.inv(),
            owner <= 1,
            spec_in_bounds(
                self@,
                coord::coord_x(tentacle_coord) as int,
                coord::coord_y(tentacle_coord) as int,
            ),
        ensures
            r == spec_front_of_enemy_tentacle(self@, initial_coord, tentacle_coord, owner as int),
    {
        let tentacle_cell = self.get_cell_from_coord(tentacle_coord);
        if cell::is_tentacle(tentacle_cell) && cell::is_owned_by(tentacle_cell, 1 - owner) {
            let o = match cell::get_organ(tentacle_cell) {
                Some(o) => o,
                None => 0,
            };
            organ::is_faced_to(o, tentacle_coord, initial_coord)
        } else {
            false
        }
    }

    /// Decides whether placement by `owner` at in-bounds (x, y) is forbidden
    /// by an enemy tentacle facing it from some neighbor.
    fn is_canceled_by_tentacle(&self, x: u8, y: u8, owner: u8) -> (r: bool)
        requires
            self.inv(),
            owner <= 1,
            spec_in_bounds(self@, x as int, y as int),
        ensures
            r == spec_canceled_by_tentacle(self@, x as int, y as int, owner as int),
    {
        proof {
            lemma_neighbor_coords_decode(x as int, y as int);
        }
        let initial_coord = coord::new(x, y);
        (x > 0 && self.is_front_of_enemy_tentacle(initial_coord, coord::new(x - 1, y), owner)) || (
        x < self.width - 1 && self.is_front_of_enemy_tentacle(
            initial_coord,
            coord::new(x + 1, y),
            owner,
        )) || (y > 0 && self.is_front_of_enemy_tentacle(initial_coord, coord::new(x, y - 1), owner))
            || (y < self.height - 1 && self.is_front_of_enemy_tentacle(
            initial_coord,
            coord::new(x, y + 1),
            owner,
        ))
    }

    /// Decides whether some in-bounds neighbor of (x, y) holds an organ of
    /// `owner`.
    pub fn contains_an_adjacent_organ(&self, x: u8, y: u8, owner: u8) -> (r: bool)
        requires
            self.inv(),
            spec_in_bounds(self@, x as int, y as int),
        ensures
            r == spec_contains_adjacent_organ(self@, x as int, y as int, owner as int),
    {
        (x > 0 && cell::is_owned_by(self.get_cell(x - 1, y), owner)) || ((x < self.width - 1)
            && cell::is_owned_by(self.get_cell(x + 1, y), owner)) || (y > 0 && cell::is_owned_by(
            self.get_cell(x, y - 1),
            owner,
        )) || ((y < self.height - 1) && cell::is_owned_by(self.get_cell(x, y + 1), owner))
    }

    /// Decides whether some in-bounds neighbor of (x, y) holds an organ
    /// rooted at `root_coord`.
    fn contains_an_adjacent_organ_with_same_root(&self, x: u8, y: u8, root_coord: Coord) -> (r:
        bool)
        requires
            self.inv(),
            spec_in_bounds(self@, x as int, y as int),
        ensures
            r == spec_contains_adjacent_same_root(self@, x as int, y as int, root_coord),
    {
        (x > 0 && cell::has_root_coord(self.get_cell(x - 1, y), root_coord)) || (x < self.width - 1
            && cell::has_root_coord(self.get_cell(x + 1, y), root_coord)) || (y > 0
            && cell::has_root_coord(self.get_cell(x, y - 1), root_coord)) || (y < self.height - 1
            && cell::has_root_coord(self.get_cell(x, y + 1), root_coord))
    }

    /// Decides whether some in-bounds neighbor of (x, y) holds a protein
    /// deposit.
    pub fn contains_an_adjacent_protein(&self, x: u8, y: u8) -> (r: bool)
        requires
            self.inv(),
            spec_in_bounds(self@, x as int, y as int),
        ensures
            r == spec_contains_adjacent_protein(self@, x as int, y as int),
    {
        (x > 0 && cell::is_protein(self.get_cell(x - 1, y))) || ((x < self.width - 1)
            && cell::is_protein(self.get_cell(x + 1, y))) || (y > 0 && cell::is_protein(
            self.get_cell(x, y - 1),
        )) || ((y < self.height - 1) && cell::is_protein(self.get_cell(x, y + 1)))
    }

    /// Decides whether `organ` may be placed at `dest` when growth may attach
    /// to any organ of the same owner.
    pub fn can_add_organ_without_root_coord(&self, dest: Coord, organ: Organ) -> (r: bool)
        requires
            self.inv(),
        ensures
            r == spec_can_add_without_root(self@, dest, organ),
    {
        let x = coord::x(dest);
        let y = coord::y(dest);
        (self.is_in_bounds(x, y) && cell::is_empty(self.get_cell(x, y))
            && !self.is_canceled_by_tentacle(x, y, organ::get_owner(organ))) && (organ::is_root(
            organ,
        ) || self.contains_an_adjacent_organ(x, y, organ::get_owner(organ)))
    }

    /// Decides whether `organ` may be placed at `dest` when growth must stay
    /// attached to the organism rooted at the organ's root coordinate.
    pub fn can_add_organ_with_root_coord(&self, dest: Coord, organ: Organ) -> (r: bool)
        requires
            self.inv(),
        ensures
            r == spec_can_add_with_root(self@, dest, organ),
    {
        let x = coord::x(dest);
        let y = coord::y(dest);
        (self.is_in_bounds(x, y) && cell::is_empty(self.get_cell(x, y))
            && !self.is_canceled_by_tentacle(x, y, organ::get_owner(organ))) && (organ::is_root(
            organ,
        ) || self.contains_an_adjacent_organ_with_same_root(x, y, organ::get_root_coord(organ)))
    }

    /// Finds the neighbor recorded as adjacency parent of a non-root organ at
    /// `coord`: the first same-owner, same-root neighbor in west, east,
    /// north, south order. A position with no such neighbor is a caller
    /// error, excluded up front.
    fn get_one_adjacent_organ(&self, coord: Coord, owner: u8, root_coord: Coord) -> (r: Coord)
        requires
            self.inv(),
            spec_in_bounds(self@, coord::coord_x(coord) as int, coord::coord_y(coord) as int),
            spec_parent_of(self@, coord, owner as int, root_coord) is Some,
        ensures
            Some(r) == spec_parent_of(self@, coord, owner as int, root_coord),
    {
        let x = coord::x(coord);
        let y = coord::y(coord);
        proof {
            lemma_neighbor_coords_decode(x as int, y as int);
        }
        if x > 0 && cell::is_owned_and_rooted_by(self.get_cell(x - 1, y), owner, root_coord) {
            return coord::new(x - 1, y);
        }
        if x < self.width - 1 && cell::is_owned_and_rooted_by(
            self.get_cell(x + 1, y),
            owner,
            root_coord,
        ) {
            return coord::new(x + 1, y);
        }
        if y > 0 && cell::is_owned_and_rooted_by(self.get_cell(x, y - 1), owner, root_coord) {
            return coord::new(x, y - 1);
        }
        coord::new(x, y + 1)
    }

    /// The direction from (x, y) toward the first in-bounds neighbor holding
    /// an organ of `owner`, in west, east, north, south scan order.
    pub fn get_direction_to_an_adjacent_organ(&self, coord: Coord, owner: u8) -> (r: Option<
        OrganDirection,
    >)
        requires
            self.inv(),
            spec_in_bounds(self@, coord::coord_x(coord) as int, coord::coord_y(coord) as int),
        ensures
            r == spec_dir_to_adjacent_organ(self@, coord, owner as int),
    {
        let x = coord::x(coord);
        let y = coord::y(coord);
        if x > 0 && cell::is_owned_by(self.get_cell(x - 1, y), owner) {
            return Some(OrganDirection::West);
        }
        if x < self.width - 1 && cell::is_owned_by(self.get_cell(x + 1, y), owner) {
            return Some(OrganDirection::East);
        }
        if y > 0 && cell::is_owned_by(self.get_cell(x, y - 1), owner) {
            return Some(OrganDirection::North);
        }
        if y < self.height - 1 && cell::is_owned_by(self.get_cell(x, y + 1), owner) {
            return Some(OrganDirection::South);
        }
        None
    }

    /// The facing to give a harvester at `coord`: the direction pointing away
    /// from the first in-bounds neighbor holding a protein deposit, in west,
    /// east, north, south scan order.
    pub fn get_direction_to_an_adjacent_protein(&self, coord: Coord) -> (r: Option<OrganDirection>)
        requires
            self.inv(),
            spec_in_bounds(self@, coord::coord_x(coord) as int, coord::coord_y(coord) as int),
        ensures
            r == spec_dir_to_adjacent_protein(self@, coord),
    {
        let x = coord::x(coord);
        let y = coord::y(coord);
        if x > 0 && cell::is_protein(self.get_cell(x - 1, y)) {
            return Some(OrganDirection::East);
        }
        if x < self.width - 1 && cell::is_protein(self.get_cell(x + 1, y)) {
            return Some(OrganDirection::West);
        }
        if y > 0 && cell::is_protein(self.get_cell(x, y - 1)) {
            return Some(OrganDirection::South);
        }
        if y < self.height - 1 && cell::is_protein(self.get_cell(x, y + 1)) {
            return Some(OrganDirection::North);
        }
        None
    }

    /// The coordinate of the first in-bounds neighbor of (x, y) holding an
    /// organ of `owner`, in west, east, north, south scan order.
    pub fn get_an_adjacent_organ(&self, x: u8, y: u8, owner: u8) -> (r: Option<Coord>)
        requires
            self.inv(),
            spec_in_bounds(self@, x as int, y as int),
        ensures
            r == spec_get_adjacent_organ(self@, x as int, y as int, owner as int),
    {
        proof {
            lemma_neighbor_coords_decode(x as int, y as int);
        }
        if x > 0 && cell::is_owned_by(self.get_cell(x - 1, y), owner) {
            return Some(coord::new(x - 1, y));
        }
        if x < self.width - 1 && cell::is_owned_by(self.get_cell(x + 1, y), owner) {
            return Some(coord::new(x + 1, y));
        }
        if y > 0 && cell::is_owned_by(self.get_cell(x, y - 1), owner) {
            return Some(coord::new(x, y - 1));
        }
        if y < self.height - 1 && cell::is_owned_by(self.get_cell(x, y + 1), owner) {
            return Some(coord::new(x, y + 1));
        }
        None
    }
}

/// The direction from (x, y) toward the first neighbor with an organ of
/// `owner`, in west, east, north, south scan order.
pub open spec fn spec_dir_to_adjacent_organ(m: GridModel, c: Coord, owner: int) -> Option<
    OrganDirection,
> {
    let x = coord::coord_x(c) as int;
    let y = coord::coord_y(c) as int;
    if x > 0 && owned_at(m, x - 1, y, owner) {
        Some(OrganDirection::West)
    } else if x < m.width - 1 && owned_at(m, x + 1, y, owner) {
        Some(OrganDirection::East)
    } else if y > 0 && owned_at(m, x, y - 1, owner) {
        Some(OrganDirection::North)
    } else if y < m.height - 1 && owned_at(m, x, y + 1, owner) {
        Some(OrganDirection::South)
    } else {
        None
    }
}

/// The facing for a harvester at `c`: away from the first neighbor with a
/// protein deposit, in west, east, north, south scan order.
pub open spec fn spec_dir_to_adjacent_protein(m: GridModel, c: Coord) -> Option<OrganDirection> {
    let x = coord::coord_x(c) as int;
    let y = coord::coord_y(c) as int;
    if x > 0 && cell::spec_is_protein(cell_at(m, x - 1, y)) {
        Some(OrganDirection::East)
    } else if x < m.width - 1 && cell::spec_is_protein(cell_at(m, x + 1, y)) {
        Some(OrganDirection::West)
    } else if y > 0 && cell::spec_is_protein(cell_at(m, x, y - 1)) {
        Some(OrganDirection::South)
    } else if y < m.height - 1 && cell::spec_is_protein(cell_at(m, x, y + 1)) {
        Some(OrganDirection::North)
    } else {
        None
    }
}

/// The coordinate of the first neighbor of (x, y) with an organ of `owner`,
/// in west, east, north, south scan order.
pub open spec fn spec_get_adjacent_organ(m: GridModel, x: int, y: int, owner: int) -> Option<
    Coord,
> {
    if x > 0 && owned_at(m, x - 1, y, owner) {
        Some(coord::encode((x - 1) as u8, y as u8))
    } else if x < m.width - 1 && owned_at(m, x + 1, y, owner) {
        Some(coord::encode((x + 1) as u8, y as u8))
    } else if y > 0 && owned_at(m, x, y - 1, owner) {
        Some(coord::encode(x as u8, (y - 1) as u8))
    } else if y < m.height - 1 && owned_at(m, x, y + 1, owner) {
        Some(coord::encode(x as u8, (y + 1) as u8))
    } else {
        None
    }
}

/// On-board positions and their four neighbors decode from their packed form
/// to themselves.
pub proof fn lemma_neighbor_coords_decode(x: int, y: int)
    requires
        0 <= x <= 26,
        0 <= y <= 13,
    ensures
        coord::coord_x(coord::encode(x as u8, y as u8)) == x,
        coord::coord_y(coord::encode(x as u8, y as u8)) == y,
        x > 0 ==> coord::coord_x(coord::encode((x - 1) as u8, y as u8)) == x - 1
            && coord::coord_y(coord::encode((x - 1) as u8, y as u8)) == y,
        x < 26 ==> coord::coord_x(coord::encode((x + 1) as u8, y as u8)) == x + 1
            && coord::coord_y(coord::encode((x + 1) as u8, y as u8)) == y,
        y > 0 ==> coord::coord_x(coord::encode(x as u8, (y - 1) as u8)) == x
            && coord::coord_y(coord::encode(x as u8, (y - 1) as u8)) == y - 1,
        y < 13 ==> coord::coord_x(coord::encode(x as u8, (y + 1) as u8)) == x
            && coord::coord_y(coord::encode(x as u8, (y + 1) as u8)) == y + 1,
{
    coord::lemma_coord_round_trip(x as u8, y as u8);
    if x > 0 {
        coord::lemma_coord_round_trip((x - 1) as u8, y as u8);
    }
    if x < 26 {
        coord::lemma_coord_round_trip((x + 1) as u8, y as u8);
    }
    if y > 0 {
        coord::lemma_coord_round_trip(x as u8, (y - 1) as u8);
    }
    if y < 13 {
        coord::lemma_coord_round_trip(x as u8, (y + 1) as u8);
    }
}


/// A connectivity entry with `c` appended, unless already recorded.
pub open spec fn add_child(e: Seq<Coord>, c: Coord) -> Seq<Coord> {
    if e.contains(c) {
        e
    } else {
        e.push(c)
    }
}

/// The connectivity entry of `p`, or an empty one when none exists.
pub open spec fn entry_or_empty(m: GridModel, p: Coord) -> Seq<Coord> {
    if m.kids.dom().contains(p) {
        m.kids[p]
    } else {
        Seq::empty()
    }
}

/// Model after placing `o` at `c`: the cell is overwritten with the organ,
/// and a non-root organ is recorded as a child of its first same-owner,
/// same-root neighbor in west, east, north, south order.
pub open spec fn spec_add_organ(m: GridModel, c: Coord, o: Organ) -> GridModel {
    let x = coord::coord_x(c) as int;
    let y = coord::coord_y(c) as int;
    let m2 = GridModel {
        cells: m.cells.update(x + m.width * y, cell::make_cell(false, None, Some(o))),
        kids: m.kids,
        width: m.width,
        height: m.height,
    };
    if organ::organ_type_code(o) == organ_type::type_code(organ_type::OrganType::Root) {
        m2
    } else {
        let p = spec_parent_of(m2, c, organ::organ_owner_of(o), organ::organ_root_of(o) as Coord)->0;
        GridModel {
            cells: m2.cells,
            kids: m2.kids.insert(p, add_child(entry_or_empty(m2, p), c)),
            width: m2.width,
            height: m2.height,
        }
    }
}

/// The cells of `m` with every organ cell whose coordinate lies in `p`
/// cleared to empty.
pub open spec fn cleared_cells(m: GridModel, p: Set<Coord>) -> Seq<Cell> {
    Seq::new(
        m.cells.len() as nat,
        |i: int|
            if 0 <= i < m.width * m.height && p.contains(
                coord::encode((i % m.width) as u8, (i / m.width) as u8),
            ) && cell::spec_is_organ(m.cells[i]) {
                cell::EMPTY
            } else {
                m.cells[i]
            },
    )
}

/// Model after cascading removal below `c`: every organ cell in the recorded
/// subtree of `c` becomes empty, and every subtree coordinate loses its
/// connectivity entry.
pub open spec fn spec_remove_children(m: GridModel, c: Coord) -> GridModel {
    GridModel {
        cells: cleared_cells(m, crate::reach::reach_set(m.kids, c)),
        kids: m.kids.remove_keys(crate::reach::reach_set(m.kids, c)),
        width: m.width,
        height: m.height,
    }
}

/// Model after removing the organ at `c`: a non-root organ is first erased
/// from its recorded parent's entry, then the whole subtree below `c` is
/// removed.
pub open spec fn spec_remove_organ(m: GridModel, c: Coord) -> GridModel {
    let o = cell::cell_payload(
        cell_at(m, coord::coord_x(c) as int, coord::coord_y(c) as int),
    ) as Organ;
    let kids1 = if organ::organ_type_code(o) != organ_type::type_code(
        organ_type::OrganType::Root,
    ) {
        let p = spec_parent_of(m, c, organ::organ_owner_of(o), organ::organ_root_of(o) as Coord)->0;
        m.kids.insert(p, erase_child(m.kids[p], c))
    } else {
        m.kids
    };
    spec_remove_children(
        GridModel { cells: m.cells, kids: kids1, width: m.width, height: m.height },
        c,
    )
}

/// The total size of the connectivity store: one for each entry plus one for
/// each recorded child. Cascading removal shrinks it, which bounds the work.
pub open spec fn conn_weight(s: Seq<Option<Vec<Coord>>>) -> nat
    decreases s.len(),
{
    if s.len() == 0 {
        0
    } else {
        conn_weight(s.drop_last()) + (match s.last() {
            Some(l) => l@.len() + 1,
            None => 0nat,
        })
    }
}

/// Emptying one slot lowers the connectivity store's size by that entry's
/// weight.
proof fn lemma_conn_weight_update_none(s: Seq<Option<Vec<Coord>>>, i: int)
    requires
        0 <= i < s.len(),
    ensures
        conn_weight(s.update(i, None)) + (match s[i] {
            Some(l) => l@.len() + 1,
            None => 0nat,
        }) == conn_weight(s),
    decreases s.len(),
{
    let s2 = s.update(i, None);
    if i == s.len() - 1 {
        assert(s2.drop_last() =~= s.drop_last());
    } else {
        lemma_conn_weight_update_none(s.drop_last(), i);
        assert(s2.drop_last() =~= s.drop_last().update(i, None));
        assert(s2.last() == s.last());
    }
}

/// A packed coordinate below the key-space bound decodes and re-encodes to
/// itself.
pub proof fn lemma_coord_canonical(c: Coord)
    requires
        c < 512,
    ensures
        coord::encode(coord::coord_x(c), coord::coord_y(c)) == c,
        coord::coord_x(c) < 32,
{
    vstd::arithmetic::div_mod::lemma_fundamental_div_mod(c as int, 16);
    vstd::arithmetic::div_mod::lemma_small_mod(((c as int) / 16) as nat, 32);
}

/// An in-range position packs below the key-space bound.
pub proof fn lemma_encode_bound(x: u8, y: u8)
    requires
        x <= 26,
        y <= 13,
    ensures
        coord::encode(x, y) < 512,
        coord::encode(x, y) == 16 * x + y,
{
}

/// A cell index on the board decomposes into its column and row.
proof fn lemma_idx_decomp(w: int, h: int, i: int)
    requires
        1 <= w <= 24,
        1 <= h <= 12,
        0 <= i < w * h,
    ensures
        0 <= i % w < w,
        0 <= i / w < h,
        i == (i % w) + w * (i / w),
{
    assert(0 <= i % w < w && 0 <= i / w < h && i == (i % w) + w * (i / w)) by (nonlinear_arith)
        requires
            1 <= w,
            1 <= h,
            0 <= i < w * h,
    ;
}

impl Grid {
    /// Decides whether the recorded child list `v` holds `c`.
    fn entry_contains(v: &Vec<Coord>, c: Coord) -> (r: bool)
        ensures
            r == v@.contains(c),
    {
        let mut i: usize = 0;
        while i < v.len()
            invariant
                i <= v@.len(),
                forall|j: int| 0 <= j < i ==> v@[j] != c,
            decreases v@.len() - i,
        {
            if v[i] == c {
                return true;
            }
            i = i + 1;
        }
        false
    }

    /// Places `organ` at `coord` and, unless it is a root, records `coord` as
    /// a child of its first same-owner, same-root neighbor in west, east,
    /// north, south scan order. A non-root organ with no such neighbor is a
    /// caller error, excluded up front.
    pub fn add_organ(&mut self, coord: Coord, organ: Organ)
        requires
            old(self).inv(),
            coord < 512,
            spec_in_bounds(
                old(self)@,
                coord::coord_x(coord) as int,
                coord::coord_y(coord) as int,
            ),
            organ::organ_wf(organ),
            organ < 16777216,
            organ::organ_type_code(organ) != organ_type::type_code(organ_type::OrganType::Root)
                ==> spec_parent_of(
                spec_add_organ(old(self)@, coord, organ),
                coord,
                organ::organ_owner_of(organ),
                organ::organ_root_of(organ) as Coord,
            ) is Some,
        ensures
            final(self).inv(),
            final(self)@ == spec_add_organ(old(self)@, coord, organ),
    {
        let ghost m2 = spec_add_organ(old(self)@, coord, organ);
        let x = coord::x(coord);
        let y = coord::y(coord);
        self.set_cell(x, y, cell::new(false, None, Some(organ)));
        if organ::is_root(organ) {
            return;
        }
        let parent_cell = self.get_one_adjacent_organ(
            coord,
            organ::get_owner(organ),
            organ::get_root_coord(organ),
        );
        proof {
            lemma_neighbor_coords_decode(
                coord::coord_x(coord) as int,
                coord::coord_y(coord) as int,
            );
            assert(parent_cell < 512);
        }
        let ghost kids_before = self@.kids;
        let ghost children_before = self.children@;
        let mut entry_opt: Option<Vec<Coord>> = None;
        core::mem::swap(&mut entry_opt, &mut self.children[parent_cell as usize]);
        proof {
            assert(entry_opt == children_before[parent_cell as int]);
        }
        let ghost old_entry = if kids_before.dom().contains(parent_cell) {
            kids_before[parent_cell]
        } else {
            Seq::<Coord>::empty()
        };
        let mut entry: Vec<Coord> = match entry_opt {
            Some(v) => v,
            None => Vec::new(),
        };
        proof {
            assert(entry@ == old_entry);
            assert(entry_ok(entry@, self@.width, self@.height));
        }
        if !Self::entry_contains(&entry, coord) {
            entry.push(coord);
        }
        proof {
            assert(entry@ == add_child(old_entry, coord));
            assert(entry_ok(entry@, self@.width, self@.height)) by {
                if !old_entry.contains(coord) {
                    assert forall|a: int, b: int| 0 <= a < b < entry@.len() implies entry@[a]
                        != entry@[b] by {
                        if b == entry@.len() - 1 {
                            assert(old_entry.contains(entry@[a]) && entry@[b] == coord);
                        }
                    }
                }
            }
        }
        self.children.set(parent_cell as usize, Some(entry));
        proof {
            assert forall|k: int|
                0 <= k < CONN_SLOTS && self.children@[k] is Some implies entry_ok(
                #[trigger] self.children@[k]->0@,
                self@.width as int,
                self@.height as int,
            ) by {
                if k != parent_cell as int {
                    assert(self.children@[k] == children_before[k]);
                }
            }
            assert(self@.kids =~= m2.kids);
            assert(self@.cells =~= m2.cells);
            assert(self@ == m2);
        }
    }
}


/// A connectivity entry with every record of `c` erased.
pub open spec fn erase_child(e: Seq<Coord>, c: Coord) -> Seq<Coord> {
    e.filter(|x: Coord| x != c)
}

/// Erasing from a sequence extended by one element keeps the element exactly
/// when it is not the erased one.
proof fn lemma_erase_push(s: Seq<Coord>, e: Coord, c: Coord)
    ensures
        erase_child(s.push(e), c) == if e != c {
            erase_child(s, c).push(e)
        } else {
            erase_child(s, c)
        },
{
    reveal(Seq::filter);
    assert(s.push(e).drop_last() =~= s);
    assert(s.push(e).last() == e);
}

/// Dropping the last element of a worklist keeps every other recorded value.
proof fn lemma_pop_keeps(work: Seq<Coord>, e: Coord)
    requires
        work.len() > 0,
        work.contains(e),
        e != work.last(),
    ensures
        work.subrange(0, work.len() - 1).contains(e),
{
    let i = choose|i: int| 0 <= i < work.len() && work[i] == e;
    assert(work.subrange(0, work.len() - 1)[i] == e);
}

/// A value found in the left part of a concatenation is in the whole.
proof fn lemma_concat_keeps(a: Seq<Coord>, b: Seq<Coord>, e: Coord)
    requires
        a.contains(e),
    ensures
        (a + b).contains(e),
{
    let i = choose|i: int| 0 <= i < a.len() && a[i] == e;
    assert((a + b)[i] == e);
}

/// Appends every recorded child to the worklist.
fn push_all(work: &mut Vec<Coord>, ch: &Vec<Coord>)
    ensures
        final(work)@ == old(work)@ + ch@,
{
    let mut j: usize = 0;
    while j < ch.len()
        invariant
            j <= ch@.len(),
            work@ == old(work)@ + ch@.take(j as int),
        decreases ch@.len() - j,
    {
        work.push(ch[j]);
        proof {
            assert(ch@.take(j + 1) =~= ch@.take(j as int).push(ch@[j as int]));
            assert(work@ =~= old(work)@ + ch@.take(j + 1));
        }
        j = j + 1;
    }
    proof {
        assert(ch@.take(ch@.len() as int) =~= ch@);
    }
}

impl Grid {
    /// Clears the whole recorded subtree below `coord`: every organ cell the
    /// connectivity map reaches from `coord` becomes empty and loses its
    /// entry. Calling this on a cell that holds no organ is a caller error,
    /// excluded up front.
    #[verifier::loop_isolation(false)]
    fn remove_children(&mut self, coord: Coord)
        requires
            old(self).inv(),
            coord < 512,
            spec_in_bounds(
                old(self)@,
                coord::coord_x(coord) as int,
                coord::coord_y(coord) as int,
            ),
            cell::spec_is_organ(
                cell_at(old(self)@, coord::coord_x(coord) as int, coord::coord_y(coord) as int),
            ),
        ensures
            final(self).inv(),
            final(self)@ == spec_remove_children(old(self)@, coord),
    {
        let ghost g0 = self@;
        let mut work: Vec<Coord> = Vec::new();
        work.push(coord);
        let ghost mut processed: Set<Coord> = Set::empty();
        proof {
            crate::reach::lemma_reach_refl(g0.kids, coord);
            assert(work@[0] == coord);
            assert(self@.kids =~= g0.kids.remove_keys(processed));
            assert(self@.cells =~= cleared_cells(g0, processed));
        }
        while work.len() > 0
            invariant
                self.inv(),
                self@.width == g0.width,
                self@.height == g0.height,
                self@.kids == g0.kids.remove_keys(processed),
                self@.cells == cleared_cells(g0, processed),
                forall|d: Coord|
                    #[trigger] processed.contains(d) ==> crate::reach::reaches(g0.kids, coord, d),
                forall|i: int|
                    0 <= i < work@.len() ==> crate::reach::reaches(
                        g0.kids,
                        coord,
                        #[trigger] work@[i],
                    ) && work@[i] < 512 && spec_in_bounds(
                        g0,
                        coord::coord_x(work@[i]) as int,
                        coord::coord_y(work@[i]) as int,
                    ),
                processed.contains(coord) || work@.contains(coord),
                forall|d: Coord, e: Coord|
                    processed.contains(d) && #[trigger] crate::reach::kid_edge(g0.kids, d, e)
                        ==> processed.contains(e) || work@.contains(e),
            decreases conn_weight(self.children@) + work@.len(),
        {
            let ghost children_entry = self.children@;
            let ghost work_before = work@;
            let d = match work.pop() {
                Some(d) => d,
                None => 0,
            };
            proof {
                assert(work@ =~= work_before.subrange(0, work_before.len() - 1));
                assert(d == work_before[work_before.len() - 1]);
            }
            let ghost work_pop = work@;
            let dx = coord::x(d);
            let dy = coord::y(d);
            let ghost didx = dx + g0.width * dy;
            proof {
                lemma_coord_canonical(d);
                lemma_index_bound(dx as int, dy as int, g0.width, g0.height);
            }
            let cellv = self.get_cell(dx, dy);
            if cell::is_organ(cellv) {
                let idx = (dx as usize) + (self.width as usize) * (dy as usize);
                self.cells.set(idx, cell::EMPTY);
            }
            proof {
                assert(self.children@ == children_entry);
                assert forall|i: int| 0 <= i < g0.cells.len() implies self@.cells[i]
                    == cleared_cells(g0, processed.insert(d))[i] by {
                    if 0 <= i < g0.width * g0.height {
                        lemma_idx_decomp(g0.width, g0.height, i);
                        lemma_encode_bound((i % g0.width) as u8, (i / g0.width) as u8);
                        coord::lemma_coord_round_trip((i % g0.width) as u8, (i / g0.width) as u8);
                        if coord::encode((i % g0.width) as u8, (i / g0.width) as u8) == d {
                            assert(i % g0.width == dx && i / g0.width == dy);
                            assert(i == didx);
                        }
                        if i == didx {
                            lemma_div_mod_converse_board(i, g0.width, dy as int, dx as int);
                            assert(i % g0.width == dx && i / g0.width == dy);
                            assert(coord::encode((i % g0.width) as u8, (i / g0.width) as u8) == d);
                        }
                    }
                }
                assert(self@.cells =~= cleared_cells(g0, processed.insert(d)));
            }
            let ghost kids_at = self@.kids;
            let ghost children_before = self.children@;
            let mut entry_opt: Option<Vec<Coord>> = None;
            core::mem::swap(&mut entry_opt, &mut self.children[d as usize]);
            proof {
                assert(entry_opt == children_before[d as int]);
                assert(self.children@ =~= children_before.update(d as int, None));
                lemma_conn_weight_update_none(children_before, d as int);
                if children_before[d as int] is None {
                    assert(self.children@ =~= children_before);
                    assert(conn_weight(self.children@) == conn_weight(children_before));
                }
                assert forall|k: int|
                    0 <= k < CONN_SLOTS && self.children@[k] is Some implies entry_ok(
                    #[trigger] self.children@[k]->0@,
                    self@.width as int,
                    self@.height as int,
                ) by {
                    if k != d as int {
                        assert(self.children@[k] == children_before[k]);
                    }
                }
                assert(self.inv());
                assert forall|c: Coord|
                    self@.kids.dom().contains(c) == (g0.kids.remove_keys(
                        processed.insert(d),
                    ).dom().contains(c)) by {
                    if c < 512 && c != d {
                        assert(self.children@[c as int] == children_before[c as int]);
                        assert(self@.kids.dom().contains(c) == (self.children@[c as int] is Some));
                        assert(kids_at.dom().contains(c) == (children_before[c as int] is Some));
                        assert(kids_at == g0.kids.remove_keys(processed));
                        assert(kids_at.dom().contains(c) == (g0.kids.dom().contains(c)
                            && !processed.contains(c)));
                    } else if c == d {
                        assert(self.children@[c as int] is None);
                        assert(!self@.kids.dom().contains(c));
                    } else {
                        assert(c >= 512);
                        assert(!self@.kids.dom().contains(c));
                        assert(!g0.kids.dom().contains(c));
                    }
                }
                assert forall|c: Coord| self@.kids.dom().contains(c) implies self@.kids[c]
                    == g0.kids.remove_keys(processed.insert(d))[c] by {
                    assert(c < 512 && c != d);
                    assert(self.children@[c as int] == children_before[c as int]);
                    assert(self@.kids[c] == self.children@[c as int]->0@);
                    assert(kids_at[c] == children_before[c as int]->0@);
                    assert(kids_at[c] == g0.kids.remove_keys(processed)[c]);
                    assert(g0.kids.remove_keys(processed)[c] == g0.kids[c]);
                    assert(g0.kids.remove_keys(processed.insert(d))[c] == g0.kids[c]);
                }
                assert(self@.kids =~= g0.kids.remove_keys(processed.insert(d)));
            }
            let ghost pushed: Seq<Coord> = match &entry_opt {
                Some(ch) => ch@,
                None => Seq::empty(),
            };
            match &entry_opt {
                Some(ch) => {
                    proof {
                        assert(children_before[d as int] == Some(*ch));
                        assert(kids_at.dom().contains(d) == (children_before[d as int] is Some));
                        assert(kids_at.dom().contains(d));
                        assert(kids_at == g0.kids.remove_keys(processed));
                        assert(!processed.contains(d));
                        assert(g0.kids.dom().contains(d));
                        assert(kids_at[d] == children_before[d as int]->0@);
                        assert(kids_at[d] == g0.kids[d]);
                        assert(ch@ == g0.kids[d]);
                        assert(entry_ok(ch@, g0.width, g0.height));
                        assert forall|jj: int| 0 <= jj < ch@.len() implies crate::reach::reaches(
                            g0.kids,
                            coord,
                            #[trigger] ch@[jj],
                        ) by {
                            assert(crate::reach::kid_edge(g0.kids, d, ch@[jj]));
                            crate::reach::lemma_reach_step(g0.kids, coord, d, ch@[jj]);
                        }
                    }
                    push_all(&mut work, ch);
                },
                None => {
                    proof {
                        assert(work@ =~= work_pop + pushed);
                    }
                },
            }
            proof {
                assert(work@ == work_pop + pushed);
                let processed_before = processed;
                processed = processed.insert(d);
                assert forall|dd: Coord, e: Coord|
                    processed.contains(dd) && #[trigger] crate::reach::kid_edge(g0.kids, dd, e)
                        implies processed.contains(e) || work@.contains(e) by {
                    if processed_before.contains(dd) {
                        if !processed_before.contains(e) {
                            assert(work_before.contains(e));
                            if e != d {
                                lemma_pop_keeps(work_before, e);
                                lemma_concat_keeps(work_pop, pushed, e);
                            }
                        }
                    } else {
                        assert(dd == d);
                        if g0.kids.dom().contains(d) {
                            assert(kids_at == g0.kids.remove_keys(processed_before));
                            assert(kids_at.dom().contains(d));
                            assert(kids_at.dom().contains(d) == (children_before[d as int]
                                is Some));
                            assert(children_before[d as int] is Some);
                            assert(pushed == g0.kids[d]);
                            assert(pushed.contains(e));
                            let jj = choose|jj: int| 0 <= jj < pushed.len() && pushed[jj] == e;
                            assert(work@[work_pop.len() + jj] == e);
                        }
                    }
                }
                if !processed.contains(coord) {
                    assert(work_before.contains(coord));
                    assert(coord != d);
                    lemma_pop_keeps(work_before, coord);
                    lemma_concat_keeps(work_pop, pushed, coord);
                }
                assert(work@.len() == work_before.len() - 1 + pushed.len());
                if children_before[d as int] is Some {
                    assert(conn_weight(self.children@) + pushed.len() + 1 == conn_weight(
                        children_before,
                    ));
                } else {
                    assert(pushed.len() == 0);
                    assert(conn_weight(self.children@) == conn_weight(children_before));
                }
                assert(conn_weight(self.children@) + work@.len() < conn_weight(children_entry)
                    + work_before.len());
            }
        }
        proof {
            assert forall|b: Coord|
                crate::reach::reach_set(g0.kids, coord).contains(b) implies processed.contains(
                b,
            ) by {
                crate::reach::lemma_closed_set_covers(g0.kids, processed, coord, b);
            }
            assert(processed =~= crate::reach::reach_set(g0.kids, coord));
            assert(self@.cells =~= cleared_cells(g0, crate::reach::reach_set(g0.kids, coord)));
            assert forall|c: Coord| self@.kids.dom().contains(c) implies self@.kids[c]
                == g0.kids.remove_keys(crate::reach::reach_set(g0.kids, coord))[c] by {
                assert(self@.kids[c] == g0.kids.remove_keys(processed)[c]);
            }
            assert(self@.kids =~= g0.kids.remove_keys(crate::reach::reach_set(g0.kids, coord)));
            assert(self@ =~= spec_remove_children(g0, coord));
        }
    }

    /// Removes the organ at `coord` together with everything recorded as
    /// grown from it: a non-root organ is first erased from its parent's
    /// child list, then the whole subtree below `coord` is cleared. Removing
    /// from a cell that holds no organ, or a non-root organ whose recorded
    /// parent has no connectivity entry, is a caller error, excluded up
    /// front.
    pub fn remove_organ(&mut self, coord: Coord)
        requires
            old(self).inv(),
            coord < 512,
            spec_in_bounds(
                old(self)@,
                coord::coord_x(coord) as int,
                coord::coord_y(coord) as int,
            ),
            cell::spec_is_organ(
                cell_at(old(self)@, coord::coord_x(coord) as int, coord::coord_y(coord) as int),
            ),
            ({
                let o = cell::cell_payload(
                    cell_at(
                        old(self)@,
                        coord::coord_x(coord) as int,
                        coord::coord_y(coord) as int,
                    ),
                ) as Organ;
                organ::organ_type_code(o) != organ_type::type_code(organ_type::OrganType::Root)
                    ==> {
                    let po = spec_parent_of(
                        old(self)@,
                        coord,
                        organ::organ_owner_of(o),
                        organ::organ_root_of(o) as Coord,
                    );
                    po is Some && old(self)@.kids.dom().contains(po->0)
                }
            }),
        ensures
            final(self).inv(),
            final(self)@ == spec_remove_organ(old(self)@, coord),
    {
        let ghost g0 = self@;
        let x = coord::x(coord);
        let y = coord::y(coord);
        let cellv = self.get_cell(x, y);
        let o = match cell::get_organ(cellv) {
            Some(o) => o,
            None => 0,
        };
        if !organ::is_root(o) {
            let parent_cell = self.get_one_adjacent_organ(
                coord,
                organ::get_owner(o),
                organ::get_root_coord(o),
            );
            proof {
                lemma_neighbor_coords_decode(
                    coord::coord_x(coord) as int,
                    coord::coord_y(coord) as int,
                );
                assert(parent_cell < 512);
                assert(self@.kids.dom().contains(parent_cell));
            }
            let mut entry_opt: Option<Vec<Coord>> = None;
            core::mem::swap(&mut entry_opt, &mut self.children[parent_cell as usize]);
            let entry: Vec<Coord> = match entry_opt {
                Some(v) => v,
                None => Vec::new(),
            };
            proof {
                assert(entry@ == g0.kids[parent_cell]);
            }
            let mut kept: Vec<Coord> = Vec::new();
            let mut i: usize = 0;
            while i < entry.len()
                invariant
                    i <= entry@.len(),
                    kept@ == erase_child(entry@.take(i as int), coord),
                    entry_ok(entry@, g0.width, g0.height),
                    forall|a: int|
                        0 <= a < kept@.len() ==> exists|w: int|
                            0 <= w < i && entry@[w] == #[trigger] kept@[a],
                    forall|a: int, b: int| 0 <= a < b < kept@.len() ==> kept@[a] != kept@[b],
                decreases entry@.len() - i,
            {
                let e = entry[i];
                proof {
                    assert(entry@.take(i + 1) =~= entry@.take(i as int).push(entry@[i as int]));
                    lemma_erase_push(entry@.take(i as int), entry@[i as int], coord);
                }
                if e != coord {
                    let ghost kept_before = kept@;
                    kept.push(e);
                    proof {
                        assert forall|a: int| 0 <= a < kept@.len() implies exists|w: int|
                            0 <= w < i + 1 && entry@[w] == #[trigger] kept@[a] by {
                            if a < kept_before.len() {
                                let w = choose|w: int|
                                    0 <= w < i && entry@[w] == kept_before[a as int];
                                assert(0 <= w < i + 1 && entry@[w] == kept@[a]);
                            } else {
                                assert(kept@[a] == entry@[i as int]);
                            }
                        }
                        assert forall|a: int, b: int| 0 <= a < b < kept@.len() implies kept@[a]
                            != kept@[b] by {
                            if b == kept@.len() - 1 {
                                let w = choose|w: int|
                                    0 <= w < i && entry@[w] == kept_before[a as int];
                                assert(entry@[w] != entry@[i as int]);
                            }
                        }
                    }
                }
                i = i + 1;
            }
            proof {
                assert(entry@.take(entry@.len() as int) =~= entry@);
                assert(kept@ == erase_child(entry@, coord));
                assert(entry_ok(kept@, g0.width, g0.height)) by {
                    assert forall|a: int| 0 <= a < kept@.len() implies (#[trigger] kept@[a]) < 512
                        && 0 <= coord::coord_x(kept@[a]) < g0.width && 0 <= coord::coord_y(
                        kept@[a],
                    ) < g0.height by {
                        let w = choose|w: int|
                            0 <= w < entry@.len() && entry@[w] == kept@[a];
                        assert(entry@[w] < 512 && 0 <= coord::coord_x(entry@[w]) < g0.width && 0
                            <= coord::coord_y(entry@[w]) < g0.height);
                    }
                }
            }
            self.children.set(parent_cell as usize, Some(kept));
            proof {
                assert(self@.kids =~= g0.kids.insert(
                    parent_cell,
                    erase_child(g0.kids[parent_cell], coord),
                ));
                assert(self@.cells =~= g0.cells);
            }
        }
        proof {
            let om = cell::cell_payload(
                cell_at(g0, coord::coord_x(coord) as int, coord::coord_y(coord) as int),
            ) as Organ;
            assert(o == om);
            let kids1 = if organ::organ_type_code(om) != organ_type::type_code(
                organ_type::OrganType::Root,
            ) {
                let p = spec_parent_of(
                    g0,
                    coord,
                    organ::organ_owner_of(om),
                    organ::organ_root_of(om) as Coord,
                )->0;
                g0.kids.insert(p, erase_child(g0.kids[p], coord))
            } else {
                g0.kids
            };
            assert(self@ =~= (GridModel {
                cells: g0.cells,
                kids: kids1,
                width: g0.width,
                height: g0.height,
            }));
        }
        self.remove_children(coord);
        proof {
            assert(self@ == spec_remove_organ(g0, coord));
        }
    }
}

/// Division and remainder by the board width recover a cell index's row and
/// column.
proof fn lemma_div_mod_converse_board(i: int, w: int, q: int, r: int)
    requires
        w > 0,
        0 <= r < w,
        i == r + w * q,
    ensures
        i / w == q,
        i % w == r,
{
    vstd::arithmetic::mul::lemma_mul_is_commutative(w, q);
    vstd::arithmetic::div_mod::lemma_fundamental_div_mod_converse(i, w, q, r);
}



/// The in-bounds neighbors of `c` that a basic organ of `owner` could grow
/// into, in west, east, north, south order.
#[verifier::opaque]
pub open spec fn spec_adjacents_reachable(m: GridModel, c: Coord, owner: int) -> Seq<Coord> {
    let x = coord::coord_x(c) as int;
    let y = coord::coord_y(c) as int;
    let o = organ::make_organ(
        owner,
        organ_type::OrganType::Basic,
        organ_direction::OrganDirection::North,
        c,
    );
    let s0 = Seq::<Coord>::empty();
    let s1 = if x > 0 && spec_can_add_without_root(m, coord::encode((x - 1) as u8, y as u8), o) {
        s0.push(coord::encode((x - 1) as u8, y as u8))
    } else {
        s0
    };
    let s2 = if x < m.width - 1 && spec_can_add_without_root(
        m,
        coord::encode((x + 1) as u8, y as u8),
        o,
    ) {
        s1.push(coord::encode((x + 1) as u8, y as u8))
    } else {
        s1
    };
    let s3 = if y > 0 && spec_can_add_without_root(m, coord::encode(x as u8, (y - 1) as u8), o) {
        s2.push(coord::encode(x as u8, (y - 1) as u8))
    } else {
        s2
    };
    if y < m.height - 1 && spec_can_add_without_root(m, coord::encode(x as u8, (y + 1) as u8), o) {
        s3.push(coord::encode(x as u8, (y + 1) as u8))
    } else {
        s3
    }
}

/// One step of the growth search: every coordinate a basic organ of `owner`
/// could grow into from some coordinate of `s`.
pub open spec fn spec_reach_step(m: GridModel, s: Set<Coord>, owner: int) -> Set<Coord> {
    Set::new(
        |c2: Coord|
            exists|c: Coord|
                s.contains(c) && #[trigger] spec_adjacents_reachable(m, c, owner).contains(c2),
    )
}

/// The coordinates reached after exactly `k` growth steps from `s`.
pub open spec fn spec_reach_level(m: GridModel, s: Set<Coord>, owner: int, k: nat) -> Set<Coord>
    decreases k,
{
    if k == 0 {
        s
    } else {
        spec_reach_level(m, spec_reach_step(m, s, owner), owner, (k - 1) as nat)
    }
}

/// What holds of every coordinate a growth search yields: it is on the board
/// and fits the connectivity key space.
pub open spec fn coord_ok(m: GridModel, c: Coord) -> bool {
    &&& c < 512
    &&& spec_in_bounds(m, coord::coord_x(c) as int, coord::coord_y(c) as int)
}

impl Grid {
    /// The in-bounds neighbors of `coord` that a basic organ of `owner`
    /// could grow into this turn.
    #[verifier::loop_isolation(false)]
    pub fn get_adjacents_reachable_cells(&self, coord: Coord, owner: u8) -> (r: Vec<Coord>)
        requires
            self.inv(),
            owner <= 1,
            coord_ok(self@, coord),
        ensures
            r@ == spec_adjacents_reachable(self@, coord, owner as int),
            forall|i: int| 0 <= i < r@.len() ==> coord_ok(self@, #[trigger] r@[i]),
    {
        let mut adjacents: Vec<Coord> = Vec::new();
        let x = coord::x(coord);
        let y = coord::y(coord);
        let organ = organ::new(
            owner,
            organ_type::OrganType::Basic,
            organ_direction::OrganDirection::North,
            coord,
        );
        proof {
            reveal(spec_adjacents_reachable);
            lemma_neighbor_coords_decode(x as int, y as int);
        }
        if x > 0 && self.can_add_organ_without_root_coord(coord::new(x - 1, y), organ) {
            adjacents.push(coord::new(x - 1, y));
        }
        if x < self.width - 1 && self.can_add_organ_without_root_coord(coord::new(x + 1, y), organ)
        {
            adjacents.push(coord::new(x + 1, y));
        }
        if y > 0 && self.can_add_organ_without_root_coord(coord::new(x, y - 1), organ) {
            adjacents.push(coord::new(x, y - 1));
        }
        if y < self.height - 1 && self.can_add_organ_without_root_coord(
            coord::new(x, y + 1),
            organ,
        ) {
            adjacents.push(coord::new(x, y + 1));
        }
        proof {
            assert forall|i: int| 0 <= i < adjacents@.len() implies coord_ok(
                self@,
                #[trigger] adjacents@[i],
            ) by {
                assert(spec_can_add_without_root(self@, adjacents@[i], organ));
            }
        }
        adjacents
    }

    /// One expansion of the growth search: every coordinate a basic organ of
    /// `owner` could grow into from some coordinate of `coords`, without
    /// repetition.
    /// Whether `c2` is a growth neighbor of some coordinate listed in `cs`.
    pub open spec fn step_sourced(m: GridModel, cs: Seq<Coord>, owner: int, c2: Coord) -> bool {
        exists|ci: int|
            0 <= ci < cs.len() && #[trigger] spec_adjacents_reachable(m, cs[ci], owner).contains(
                c2,
            )
    }

    fn growth_step(&self, coords: &Vec<Coord>, owner: u8) -> (r: Vec<Coord>)
        requires
            self.inv(),
            owner <= 1,
            forall|i: int| 0 <= i < coords@.len() ==> coord_ok(self@, #[trigger] coords@[i]),
        ensures
            r@.to_set() == spec_reach_step(self@, coords@.to_set(), owner as int),
            forall|i: int| 0 <= i < r@.len() ==> coord_ok(self@, #[trigger] r@[i]),
    {
        let mut temp: Vec<Coord> = Vec::new();
        let mut i: usize = 0;
        while i < coords.len()
            invariant
                self.inv(),
                owner <= 1,
                forall|ii: int| 0 <= ii < coords@.len() ==> coord_ok(self@, #[trigger] coords@[ii]),
                i <= coords@.len(),
                forall|jj: int| 0 <= jj < temp@.len() ==> coord_ok(self@, #[trigger] temp@[jj]),
                forall|jj: int|
                    0 <= jj < temp@.len() ==> Self::step_sourced(
                        self@,
                        coords@,
                        owner as int,
                        #[trigger] temp@[jj],
                    ),
                forall|ci: int, c2: Coord|
                    0 <= ci < i && #[trigger] spec_adjacents_reachable(
                        self@,
                        coords@[ci],
                        owner as int,
                    ).contains(c2) ==> temp@.contains(c2),
            decreases coords@.len() - i,
        {
            let adj = self.get_adjacents_reachable_cells(coords[i], owner);
            let mut j: usize = 0;
            while j < adj.len()
                invariant
                    self.inv(),
                    owner <= 1,
                    0 <= i < coords@.len(),
                    forall|ii: int|
                        0 <= ii < coords@.len() ==> coord_ok(self@, #[trigger] coords@[ii]),
                    j <= adj@.len(),
                    adj@ == spec_adjacents_reachable(self@, coords@[i as int], owner as int),
                    forall|jj: int| 0 <= jj < temp@.len() ==> coord_ok(self@, #[trigger] temp@[jj]),
                    forall|jj: int|
                        0 <= jj < temp@.len() ==> Self::step_sourced(
                            self@,
                            coords@,
                            owner as int,
                            #[trigger] temp@[jj],
                        ),
                    forall|ci: int, c2: Coord|
                        0 <= ci < i && #[trigger] spec_adjacents_reachable(
                            self@,
                            coords@[ci],
                            owner as int,
                        ).contains(c2) ==> temp@.contains(c2),
                    forall|jj: int| 0 <= jj < adj@.len() ==> coord_ok(self@, #[trigger] adj@[jj]),
                    forall|jj: int| 0 <= jj < j ==> temp@.contains(#[trigger] adj@[jj]),
                decreases adj@.len() - j,
            {
                let e = adj[j];
                let ghost temp_before = temp@;
                if !Self::entry_contains(&temp, e) {
                    temp.push(e);
                    proof {
                        assert(temp@[temp@.len() - 1] == e);
                        assert(adj@[j as int] == e);
                        assert(adj@.contains(e));
                        assert(spec_adjacents_reachable(
                            self@,
                            coords@[i as int],
                            owner as int,
                        ).contains(e));
                        assert forall|c2: Coord| temp_before.contains(c2) implies temp@.contains(
                            c2,
                        ) by {
                            let ii = choose|ii: int|
                                0 <= ii < temp_before.len() && temp_before[ii] == c2;
                            assert(temp@[ii] == c2);
                        }
                        assert forall|jj: int| 0 <= jj < temp@.len() implies coord_ok(
                            self@,
                            #[trigger] temp@[jj],
                        ) by {
                            if jj < temp_before.len() {
                                assert(temp@[jj] == temp_before[jj]);
                            } else {
                                assert(temp@[jj] == e);
                                assert(coord_ok(self@, adj@[j as int]));
                            }
                        }
                        assert forall|jj: int| 0 <= jj < temp@.len() implies Self::step_sourced(
                            self@,
                            coords@,
                            owner as int,
                            #[trigger] temp@[jj],
                        ) by {
                            if jj < temp_before.len() {
                                assert(temp@[jj] == temp_before[jj]);
                            } else {
                                assert(temp@[jj] == e);
                                assert(spec_adjacents_reachable(
                                    self@,
                                    coords@[i as int],
                                    owner as int,
                                ).contains(temp@[jj]));
                            }
                        }
                    }
                } else {
                    proof {
                        assert(temp@.contains(adj@[j as int]));
                    }
                }
                j = j + 1;
            }
            i = i + 1;
        }
        proof {
            assert forall|c2: Coord|
                spec_reach_step(self@, coords@.to_set(), owner as int).contains(c2) implies
                temp@.to_set().contains(c2) by {
                let c = choose|c: Coord|
                    coords@.to_set().contains(c) && #[trigger] spec_adjacents_reachable(
                        self@,
                        c,
                        owner as int,
                    ).contains(c2);
                let ci = choose|ci: int| 0 <= ci < coords@.len() && coords@[ci] == c;
                assert(spec_adjacents_reachable(self@, coords@[ci], owner as int).contains(c2));
            }
            assert forall|c2: Coord| temp@.to_set().contains(c2) implies spec_reach_step(
                self@,
                coords@.to_set(),
                owner as int,
            ).contains(c2) by {
                let jj = choose|jj: int| 0 <= jj < temp@.len() && temp@[jj] == c2;
                assert(Self::step_sourced(self@, coords@, owner as int, temp@[jj]));
                let ci = choose|ci: int|
                    0 <= ci < coords@.len() && #[trigger] spec_adjacents_reachable(
                        self@,
                        coords@[ci],
                        owner as int,
                    ).contains(temp@[jj]);
                assert(coords@.to_set().contains(coords@[ci]));
            }
            assert(temp@.to_set() =~= spec_reach_step(self@, coords@.to_set(), owner as int));
        }
        temp
    }

    /// The set of coordinates reachable in exactly `range` growth steps from
    /// `coord`, stepping only through cells a basic organ of `owner` could
    /// grow into.
    #[verifier::loop_isolation(false)]
    pub fn get_reachable_coords_in_range(&self, coord: Coord, range: usize, owner: u8) -> (r: Vec<
        Coord,
    >)
        requires
            self.inv(),
            owner <= 1,
            coord_ok(self@, coord),
        ensures
            r@.to_set() == spec_reach_level(self@, set![coord], owner as int, range as nat),
            forall|i: int| 0 <= i < r@.len() ==> coord_ok(self@, #[trigger] r@[i]),
    {
        let mut coords: Vec<Coord> = Vec::new();
        coords.push(coord);
        proof {
            assert(coords@.len() == 1 && coords@[0] == coord);
            assert forall|a: Coord| coords@.to_set().contains(a) implies a == coord by {
                let i = choose|i: int| 0 <= i < coords@.len() && coords@[i] == a;
            }
            assert(coords@.to_set().contains(coord)) by {
                assert(coords@[0] == coord);
            }
            assert(coords@.to_set() =~= set![coord]);
        }
        let mut k: usize = 0;
        while k < range
            invariant
                k <= range,
                coords@.to_set() == spec_reach_level(self@, set![coord], owner as int, k as nat),
                forall|i: int| 0 <= i < coords@.len() ==> coord_ok(self@, #[trigger] coords@[i]),
            decreases range - k,
        {
            let temp = self.growth_step(&coords, owner);
            proof {
                lemma_reach_level_push(self@, set![coord], owner as int, k as nat);
            }
            coords = temp;
            k = k + 1;
        }
        coords
    }

    /// Searches the cells two growth steps out from `coord` for one that sits
    /// next to an organ of `opponent`, and hands back that organ's
    /// coordinate.
    #[verifier::loop_isolation(false)]
    pub fn get_opponent_in_three_cells(&self, coord: Coord, opponent: u8) -> (r: Option<Coord>)
        requires
            self.inv(),
            opponent <= 1,
            coord_ok(self@, coord),
        ensures
            match r {
                Some(oc) => exists|c: Coord|
                    #[trigger] spec_reach_level(self@, set![coord], opponent as int, 2).contains(c)
                        && spec_get_adjacent_organ(
                        self@,
                        coord::coord_x(c) as int,
                        coord::coord_y(c) as int,
                        opponent as int,
                    ) == Some(oc),
                None => forall|c: Coord|
                    #[trigger] spec_reach_level(self@, set![coord], opponent as int, 2).contains(c)
                        ==> spec_get_adjacent_organ(
                        self@,
                        coord::coord_x(c) as int,
                        coord::coord_y(c) as int,
                        opponent as int,
                    ) is None,
            },
    {
        let reachable = self.get_reachable_coords_in_range(coord, 2, opponent);
        let ghost level2 = spec_reach_level(self@, set![coord], opponent as int, 2);
        let mut i: usize = 0;
        while i < reachable.len()
            invariant
                i <= reachable@.len(),
                reachable@.to_set() == level2,
                forall|ii: int|
                    0 <= ii < reachable@.len() ==> coord_ok(self@, #[trigger] reachable@[ii]),
                forall|ii: int|
                    0 <= ii < i ==> spec_get_adjacent_organ(
                        self@,
                        coord::coord_x(#[trigger] reachable@[ii]) as int,
                        coord::coord_y(reachable@[ii]) as int,
                        opponent as int,
                    ) is None,
            decreases reachable@.len() - i,
        {
            let c = reachable[i];
            let x = coord::x(c);
            let y = coord::y(c);
            match self.get_an_adjacent_organ(x, y, opponent) {
                Some(opp) => {
                    proof {
                        assert(level2.contains(reachable@[i as int]));
                    }
                    return Some(opp);
                },
                None => {},
            }
            i = i + 1;
        }
        proof {
            assert forall|c: Coord| level2.contains(c) implies spec_get_adjacent_organ(
                self@,
                coord::coord_x(c) as int,
                coord::coord_y(c) as int,
                opponent as int,
            ) is None by {
                let ii = choose|ii: int| 0 <= ii < reachable@.len() && reachable@[ii] == c;
            }
        }
        None
    }
}

/// A growth search one level deeper searches one step out from the previous
/// level.
proof fn lemma_reach_level_push(m: GridModel, s: Set<Coord>, owner: int, k: nat)
    ensures
        spec_reach_level(m, s, owner, (k + 1) as nat) == spec_reach_step(
            m,
            spec_reach_level(m, s, owner, k),
            owner,
        ),
    decreases k,
{
    let s1 = spec_reach_step(m, s, owner);
    if k == 0 {
        assert(spec_reach_level(m, s, owner, 1) == spec_reach_level(m, s1, owner, 0));
        assert(spec_reach_level(m, s1, owner, 0) == s1);
    } else {
        lemma_reach_level_push(m, s1, owner, (k - 1) as nat);
        assert(spec_reach_level(m, s, owner, (k + 1) as nat) == spec_reach_level(
            m,
            s1,
            owner,
            k as nat,
        ));
    }
}


/// Law: placing a root and then growing a child next to it records exactly
/// that child under the root, and removing the root afterwards empties both
/// cells and deletes the root's connectivity entry. Holds on any empty board
/// for any in-bounds root position, any adjacent in-bounds child position,
/// and any owner.
pub proof fn lemma_place_then_remove(
    m0: GridModel,
    root: Coord,
    child: Coord,
    owner: int,
    kind: organ_type::OrganType,
    dir: OrganDirection,
    cdir: OrganDirection,
)
    requires
        m0.cells.len() == MAX_WIDTH * MAX_HEIGHT,
        1 <= m0.width <= MAX_WIDTH,
        1 <= m0.height <= MAX_HEIGHT,
        forall|i: int| 0 <= i < m0.cells.len() ==> m0.cells[i] == cell::EMPTY,
        m0.kids == Map::<Coord, Seq<Coord>>::empty(),
        0 <= owner <= 1,
        kind != organ_type::OrganType::Root,
        root < 512,
        child < 512,
        root == coord::encode(coord::coord_x(root), coord::coord_y(root)),
        child == coord::encode(coord::coord_x(child), coord::coord_y(child)),
        spec_in_bounds(m0, coord::coord_x(root) as int, coord::coord_y(root) as int),
        spec_in_bounds(m0, coord::coord_x(child) as int, coord::coord_y(child) as int),
        coord::distance(root, child) == 1,
    ensures
        ({
            let rorg = organ::make_organ(owner, organ_type::OrganType::Root, dir, root);
            let corg = organ::make_organ(owner, kind, cdir, root);
            let m1 = spec_add_organ(m0, root, rorg);
            let m2 = spec_add_organ(m1, child, corg);
            let m3 = spec_remove_organ(m2, root);
            &&& m2.kids.dom() =~= set![root]
            &&& m2.kids[root] =~= seq![child]
            &&& cell::spec_is_empty(cell_at(m3, coord::coord_x(root) as int, coord::coord_y(root) as int))
            &&& cell::spec_is_empty(
                cell_at(m3, coord::coord_x(child) as int, coord::coord_y(child) as int),
            )
            &&& !m3.kids.dom().contains(root)
            &&& m3.kids =~= Map::<Coord, Seq<Coord>>::empty()
        }),
{
    let rorg = organ::make_organ(owner, organ_type::OrganType::Root, dir, root);
    let corg = organ::make_organ(owner, kind, cdir, root);
    let rx = coord::coord_x(root) as int;
    let ry = coord::coord_y(root) as int;
    let cx = coord::coord_x(child) as int;
    let cy = coord::coord_y(child) as int;
    lemma_organ_law_fields(owner, organ_type::OrganType::Root, dir, root);
    lemma_organ_law_fields(owner, kind, cdir, root);
    lemma_index_bound(rx, ry, m0.width, m0.height);
    lemma_index_bound(cx, cy, m0.width, m0.height);
    lemma_index_distinct(m0.width, m0.height, rx, ry, cx, cy);
    let m1 = spec_add_organ(m0, root, rorg);
    assert(m1.kids == m0.kids);
    assert(m1.cells[rx + m0.width * ry] == cell::make_cell(false, None, Some(rorg)));
    let m2full = spec_add_organ(m1, child, corg);
    // the parent scan from the child finds the root: the only organ on the board
    let m2mid = GridModel {
        cells: m1.cells.update(cx + m1.width * cy, cell::make_cell(false, None, Some(corg))),
        kids: m1.kids,
        width: m1.width,
        height: m1.height,
    };
    assert forall|x: int, y: int|
        spec_in_bounds(m2mid, x, y) && (x != rx || y != ry) && (x != cx || y != cy)
            implies !#[trigger] rooted_at(m2mid, x, y, owner, root) by {
        lemma_index_bound(x, y, m0.width, m0.height);
        lemma_index_distinct(m0.width, m0.height, x, y, rx, ry);
        lemma_index_distinct(m0.width, m0.height, x, y, cx, cy);
        assert(m2mid.cells[x + m0.width * y] == cell::EMPTY);
    }
    assert(rooted_at(m2mid, rx, ry, owner, root)) by {
        cell::lemma_cell_round_trip(false, None, Some(rorg));
    }
    lemma_parent_scan_finds(m2mid, child, root, owner, root);
    let p = spec_parent_of(m2mid, child, owner, root)->0;
    assert(p == root);
    assert(m2full.kids == m1.kids.insert(root, add_child(entry_or_empty(m2mid, root), child)));
    assert(entry_or_empty(m2mid, root) =~= Seq::<Coord>::empty());
    assert(m2full.kids[root] =~= seq![child]);
    assert(m2full.kids.dom() =~= set![root]);
    // removing the root cascades into the child
    let o2 = cell::cell_payload(cell_at(m2full, rx, ry)) as Organ;
    assert(cell_at(m2full, rx, ry) == cell::make_cell(false, None, Some(rorg)));
    cell::lemma_cell_round_trip(false, None, Some(rorg));
    assert(o2 == rorg);
    assert(organ::organ_type_code(o2) == organ_type::type_code(organ_type::OrganType::Root));
    let m3 = spec_remove_organ(m2full, root);
    crate::reach::lemma_reach_single_link(m2full.kids, root, child);
    assert(child != root);
    let rs = crate::reach::reach_set(m2full.kids, root);
    assert(rs =~= set![root, child]);
    assert(m3.kids =~= Map::<Coord, Seq<Coord>>::empty());
    assert(cell::spec_is_organ(m2full.cells[rx + m0.width * ry]));
    assert(cell::spec_is_organ(m2full.cells[cx + m0.width * cy]));
    lemma_cleared_at(m2full, rs, rx, ry);
    lemma_cleared_at(m2full, rs, cx, cy);
}

/// The packed organ built by a law's hypothesis decodes to its fields.
proof fn lemma_organ_law_fields(owner: int, kind: organ_type::OrganType, dir: OrganDirection, root: Coord)
    requires
        0 <= owner <= 1,
    ensures
        ({
            let o = organ::make_organ(owner, kind, dir, root);
            &&& organ::organ_owner_of(o) == owner
            &&& organ::organ_type_code(o) == organ_type::type_code(kind)
            &&& organ::organ_dir_code(o) == organ_direction::dir_code(dir)
            &&& organ::organ_root_of(o) == root
            &&& o < 16777216
        }),
{
    organ::lemma_organ_round_trip(owner as u8, kind, dir, root);
    assert(organ::make_organ(owner, kind, dir, root) < 16777216) by {
        assert(organ_type::type_code(kind) <= 4 && organ_direction::dir_code(dir) <= 4);
    }
}

/// Two distinct in-bounds positions index distinct cells.
proof fn lemma_index_distinct(w: int, h: int, x1: int, y1: int, x2: int, y2: int)
    requires
        1 <= w <= 24,
        1 <= h <= 12,
        0 <= x1 < w,
        0 <= y1 < h,
        0 <= x2 < w,
        0 <= y2 < h,
        x1 != x2 || y1 != y2,
    ensures
        x1 + w * y1 != x2 + w * y2,
{
    assert(x1 + w * y1 != x2 + w * y2) by (nonlinear_arith)
        requires
            1 <= w,
            0 <= x1 < w,
            0 <= x2 < w,
            0 <= y1,
            0 <= y2,
            x1 != x2 || y1 != y2,
    ;
}

/// On a board whose only organ sits at `parent`, adjacent to `c`, the parent
/// scan from `c` finds exactly `parent`.
proof fn lemma_parent_scan_finds(m: GridModel, c: Coord, parent: Coord, owner: int, root: Coord)
    requires
        1 <= m.width <= MAX_WIDTH,
        1 <= m.height <= MAX_HEIGHT,
        m.cells.len() == MAX_WIDTH * MAX_HEIGHT,
        spec_in_bounds(m, coord::coord_x(c) as int, coord::coord_y(c) as int),
        spec_in_bounds(m, coord::coord_x(parent) as int, coord::coord_y(parent) as int),
        parent == coord::encode(coord::coord_x(parent), coord::coord_y(parent)),
        coord::distance(c, parent) == 1,
        rooted_at(m, coord::coord_x(parent) as int, coord::coord_y(parent) as int, owner, root),
        forall|x: int, y: int|
            spec_in_bounds(m, x, y) && (x != coord::coord_x(parent) as int || y != coord::coord_y(
                parent,
            ) as int) && (x != coord::coord_x(c) as int || y != coord::coord_y(c) as int)
                ==> !#[trigger] rooted_at(m, x, y, owner, root),
    ensures
        spec_parent_of(m, c, owner, root) == Some(parent),
{
    let x = coord::coord_x(c) as int;
    let y = coord::coord_y(c) as int;
    lemma_neighbor_coords_decode(x, y);
}

/// A cleared cell at an organ position in the removal set reads empty.
proof fn lemma_cleared_at(m: GridModel, p: Set<Coord>, x: int, y: int)
    requires
        1 <= m.width <= MAX_WIDTH,
        1 <= m.height <= MAX_HEIGHT,
        m.cells.len() == MAX_WIDTH * MAX_HEIGHT,
        0 <= x < m.width,
        0 <= y < m.height,
        p.contains(coord::encode(x as u8, y as u8)),
        cell::spec_is_organ(m.cells[x + m.width * y]),
    ensures
        cleared_cells(m, p)[x + m.width * y] == cell::EMPTY,
{
    lemma_index_bound(x, y, m.width, m.height);
    let i = x + m.width * y;
    lemma_div_mod_converse_board(i, m.width, y, x);
    assert(coord::encode((i % m.width) as u8, (i / m.width) as u8) == coord::encode(
        x as u8,
        y as u8,
    ));
}

/// Law: building a three-organ chain and removing its middle organ empties
/// the middle organ and everything grown from it, while the root keeps its
/// cell; the root's entry afterwards records no children. Holds for any
/// in-bounds chain positions on a board carrying exactly that chain.
#[verifier::rlimit(100)]
pub proof fn lemma_subtree_removal(m: GridModel, root: Coord, a: Coord, b: Coord, owner: int)
    requires
        m.cells.len() == MAX_WIDTH * MAX_HEIGHT,
        1 <= m.width <= MAX_WIDTH,
        1 <= m.height <= MAX_HEIGHT,
        0 <= owner <= 1,
        root < 512,
        a < 512,
        b < 512,
        root != a && root != b && a != b,
        spec_in_bounds(m, coord::coord_x(root) as int, coord::coord_y(root) as int),
        spec_in_bounds(m, coord::coord_x(a) as int, coord::coord_y(a) as int),
        spec_in_bounds(m, coord::coord_x(b) as int, coord::coord_y(b) as int),
        m.kids == Map::<Coord, Seq<Coord>>::empty().insert(root, seq![a]).insert(a, seq![b]),
        cell::spec_is_organ(cell_at(m, coord::coord_x(a) as int, coord::coord_y(a) as int)),
        cell::spec_is_organ(cell_at(m, coord::coord_x(b) as int, coord::coord_y(b) as int)),
        cell::spec_is_organ(cell_at(m, coord::coord_x(root) as int, coord::coord_y(root) as int)),
        ({
            let oa = cell::cell_payload(
                cell_at(m, coord::coord_x(a) as int, coord::coord_y(a) as int),
            ) as Organ;
            &&& organ::organ_type_code(oa) != organ_type::type_code(organ_type::OrganType::Root)
            &&& spec_parent_of(m, a, organ::organ_owner_of(oa), organ::organ_root_of(oa) as Coord)
                == Some(root)
        }),
    ensures
        ({
            let m2 = spec_remove_organ(m, a);
            &&& cell::spec_is_empty(cell_at(m2, coord::coord_x(a) as int, coord::coord_y(a) as int))
            &&& cell::spec_is_empty(cell_at(m2, coord::coord_x(b) as int, coord::coord_y(b) as int))
            &&& cell_at(m2, coord::coord_x(root) as int, coord::coord_y(root) as int) == cell_at(
                m,
                coord::coord_x(root) as int,
                coord::coord_y(root) as int,
            )
            &&& m2.kids.dom() =~= set![root]
            &&& m2.kids[root] =~= Seq::<Coord>::empty()
        }),
{
    let rx = coord::coord_x(root) as int;
    let ry = coord::coord_y(root) as int;
    let ax = coord::coord_x(a) as int;
    let ay = coord::coord_y(a) as int;
    let bx = coord::coord_x(b) as int;
    let by = coord::coord_y(b) as int;
    lemma_index_bound(rx, ry, m.width, m.height);
    lemma_index_bound(ax, ay, m.width, m.height);
    lemma_index_bound(bx, by, m.width, m.height);
    lemma_index_distinct(m.width, m.height, ax, ay, rx, ry);
    lemma_index_distinct(m.width, m.height, bx, by, rx, ry);
    lemma_index_distinct(m.width, m.height, ax, ay, bx, by);
    let oa = cell::cell_payload(cell_at(m, ax, ay)) as Organ;
    let kids1 = m.kids.insert(root, erase_child(m.kids[root], a));
    assert(erase_child(m.kids[root], a) =~= Seq::<Coord>::empty()) by {
        reveal_with_fuel(Seq::filter, 3);
        assert(m.kids[root] =~= seq![a]);
        assert(m.kids[root] == seq![a]);
        assert(seq![a].drop_last() =~= Seq::<Coord>::empty());
        assert(seq![a].drop_last() == Seq::<Coord>::empty());
    }
    let m1 = GridModel { cells: m.cells, kids: kids1, width: m.width, height: m.height };
    assert(spec_remove_organ(m, a) == spec_remove_children(m1, a));
    crate::reach::lemma_reach_single_link_from(kids1, a, b, root);
    let rs = crate::reach::reach_set(kids1, a);
    assert(rs =~= set![a, b]);
    let m2 = spec_remove_children(m1, a);
    assert(m2.kids.dom() =~= set![root]);
    assert(m2.kids[root] =~= Seq::<Coord>::empty());
    lemma_cleared_at(m1, rs, ax, ay);
    lemma_cleared_at(m1, rs, bx, by);
    grid_lemma_uncleared_at(m1, rs, rx, ry, root);
}

/// A cell whose coordinate lies outside the removal set keeps its value.
proof fn grid_lemma_uncleared_at(m: GridModel, p: Set<Coord>, x: int, y: int, c: Coord)
    requires
        1 <= m.width <= MAX_WIDTH,
        1 <= m.height <= MAX_HEIGHT,
        m.cells.len() == MAX_WIDTH * MAX_HEIGHT,
        0 <= x < m.width,
        0 <= y < m.height,
        c == coord::encode(x as u8, y as u8),
        !p.contains(c),
    ensures
        cleared_cells(m, p)[x + m.width * y] == m.cells[x + m.width * y],
{
    lemma_index_bound(x, y, m.width, m.height);
    let i = x + m.width * y;
    lemma_div_mod_converse_board(i, m.width, y, x);
}

/// Law: an enemy tentacle facing a cell forbids the opposing player from
/// placing there, while a tentacle never blocks its own owner from the cell
/// it faces.
pub proof fn lemma_tentacle_front_blocking(m: GridModel, tcoord: Coord, dest: Coord, o: Organ)
    requires
        1 <= m.width <= MAX_WIDTH,
        1 <= m.height <= MAX_HEIGHT,
        m.cells.len() == MAX_WIDTH * MAX_HEIGHT,
        spec_in_bounds(m, coord::coord_x(dest) as int, coord::coord_y(dest) as int),
        spec_in_bounds(m, coord::coord_x(tcoord) as int, coord::coord_y(tcoord) as int),
        dest == coord::encode(coord::coord_x(dest), coord::coord_y(dest)),
        ({
            let x = coord::coord_x(dest) as int;
            let y = coord::coord_y(dest) as int;
            ||| (x > 0 && tcoord == coord::encode((x - 1) as u8, y as u8))
            ||| (x < m.width - 1 && tcoord == coord::encode((x + 1) as u8, y as u8))
            ||| (y > 0 && tcoord == coord::encode(x as u8, (y - 1) as u8))
            ||| (y < m.height - 1 && tcoord == coord::encode(x as u8, (y + 1) as u8))
        }),
        cell::spec_is_tentacle_cell(
            cell_at(m, coord::coord_x(tcoord) as int, coord::coord_y(tcoord) as int),
        ),
        cell::spec_is_owned_by(
            cell_at(m, coord::coord_x(tcoord) as int, coord::coord_y(tcoord) as int),
            1 - organ::organ_owner_of(o),
        ),
        organ::spec_is_faced_to(
            cell::cell_payload(
                cell_at(m, coord::coord_x(tcoord) as int, coord::coord_y(tcoord) as int),
            ) as Organ,
            tcoord,
            dest,
        ),
        0 <= organ::organ_owner_of(o) <= 1,
    ensures
        !spec_can_add_without_root(m, dest, o),
        !spec_front_of_enemy_tentacle(m, dest, tcoord, 1 - organ::organ_owner_of(o)),
{
    let x = coord::coord_x(dest) as int;
    let y = coord::coord_y(dest) as int;
    assert(spec_canceled_by_tentacle(m, x, y, organ::organ_owner_of(o)));
    let tc = cell_at(m, coord::coord_x(tcoord) as int, coord::coord_y(tcoord) as int);
    assert(cell::spec_is_owned_by(tc, 1 - organ::organ_owner_of(o)));
    assert(!cell::spec_is_owned_by(tc, 1 - (1 - organ::organ_owner_of(o))));
}

} // verus!
