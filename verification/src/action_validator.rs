//! Move repair: given an intended but possibly illegal action, search for
//! the nearest legal substitute, or degrade to waiting.

use vstd::prelude::*;
use crate::action::{self, Action};
use crate::action_type::{self, ActionType};
use crate::coord::{self, Coord};
use crate::grid::{self, Grid, GridModel};
use crate::organ::{self, Organ};
use crate::organ_direction::{self, OrganDirection};
use crate::organ_type::{self, OrganType};

verus! {

/// Relies on rand::random: draws a value of the requested type from the
/// thread-local generator. Nothing is promised of which value comes back, so
/// every caller states what holds of every outcome.
pub assume_specification<T>[ rand::random::<T> ]() -> (r: T)
    where
        rand::distributions::Standard: rand::distributions::Distribution<T>,
;

/// No column below `k` of row `ty` admits the organ under the root-matching
/// placement check.
pub open spec fn row_blocked_upto(m: GridModel, o: Organ, ty: int, k: int) -> bool {
    forall|x: int|
        0 <= x < k ==> !#[trigger] grid::spec_can_add_with_root(
            m,
            coord::encode(x as u8, ty as u8),
            o,
        )
}

/// No row below `k` of column `tx` admits the organ under the root-matching
/// placement check.
pub open spec fn col_blocked_upto(m: GridModel, o: Organ, tx: int, k: int) -> bool {
    forall|y: int|
        0 <= y < k ==> !#[trigger] grid::spec_can_add_with_root(
            m,
            coord::encode(tx as u8, y as u8),
            o,
        )
}

/// What growth repair returns for organ-kind code `k`: either every cell of
/// the target's row and column is blocked and the result is the wait action,
/// or the result targets the first repairable cell, scanning the target's
/// row and then its column.
pub open spec fn growth_repair_ok(m: GridModel, a: Action, r: Action, k: int) -> bool {
    let tx = coord::coord_x(action::action_target(a) as Coord) as int;
    let ty = coord::coord_y(action::action_target(a) as Coord) as int;
    let o = organ::make_organ(
        0,
        organ_type::type_of_code(k),
        organ_direction::dir_of_code(action::action_dir_code(a)),
        action::action_source(a) as Coord,
    );
    if r == action::wait_action() {
        row_blocked_upto(m, o, ty, m.width) && col_blocked_upto(m, o, tx, m.height)
    } else {
        let tr = action::action_target(r) as Coord;
        &&& action::action_type_code(r) == action::action_type_code(a)
        &&& action::action_organ_code(r) == k
        &&& action::action_dir_code(r) == action::action_dir_code(a)
        &&& action::action_source(r) == action::action_source(a)
        &&& grid::spec_can_add_with_root(m, tr, o)
        &&& {
            ||| (coord::coord_y(tr) == ty && row_blocked_upto(m, o, ty, coord::coord_x(tr) as int))
            ||| (coord::coord_x(tr) == tx && row_blocked_upto(m, o, ty, m.width)
                && col_blocked_upto(m, o, tx, coord::coord_y(tr) as int))
        }
    }
}

/// Repairs a growth action whose target row and column are fixed: scans the
/// target's row, then its column, for the first cell where root-matching
/// placement succeeds; degrades to waiting when none exists. A growth action
/// whose organ kind is the root placeholder first draws a random non-root
/// kind. A malformed action or one with an out-of-range target is a caller
/// error, excluded up front.
#[verifier::loop_isolation(false)]
pub fn make_growth_valid(action: Action, grid: &Grid) -> (r: Action)
    requires
        grid.inv(),
        action::action_wf(action),
        action < 0x4000000,
        action::action_type_code(action) == action_type::action_code(ActionType::Growth),
        coord::coord_x(action::action_target(action) as Coord) <= coord::MAX_X,
        coord::coord_y(action::action_target(action) as Coord) <= coord::MAX_Y,
    ensures
        exists|k: int|
            #![auto]
            0 <= k <= 3 && (action::action_organ_code(action) != organ_type::type_code(
                OrganType::Root,
            ) ==> k == action::action_organ_code(action)) && growth_repair_ok(grid@, action, r, k),
{
    let x_coord = coord::x(action::get_coord_target(action));
    let y_coord = coord::y(action::get_coord_target(action));
    let mut result = action;
    if action::get_organ_type(action) == OrganType::Root {
        let kind_draw = rand::random::<usize>() % 4;
        result = action::set_organ_type(result, OrganType::from_index(kind_draw));
    }
    let ghost k = action::action_organ_code(result);
    let organ = organ::new(
        0,
        action::get_organ_type(result),
        action::get_direction(result),
        action::get_coord_source(result),
    );
    proof {
        assert(0 <= k <= 3);
        assert(organ == organ::make_organ(
            0,
            organ_type::type_of_code(k),
            organ_direction::dir_of_code(action::action_dir_code(action)),
            action::action_source(action) as Coord,
        ));
    }
    let width = grid.width();
    let height = grid.height();
    let mut x: u8 = 0;
    while x < width
        invariant
            x <= width,
            row_blocked_upto(grid@, organ, y_coord as int, x as int),
        decreases width - x,
    {
        if grid.can_add_organ_with_root_coord(coord::new(x, y_coord), organ) {
            proof {
                coord::lemma_coord_round_trip(x, y_coord);
            }
            let ret = action::set_coord_target(result, coord::new(x, y_coord));
            proof {
                assert(ret != action::wait_action());
                assert(growth_repair_ok(grid@, action, ret, k));
            }
            return ret;
        }
        x = x + 1;
    }
    let mut y: u8 = 0;
    while y < height
        invariant
            y <= height,
            row_blocked_upto(grid@, organ, y_coord as int, grid@.width),
            col_blocked_upto(grid@, organ, x_coord as int, y as int),
        decreases height - y,
    {
        if grid.can_add_organ_with_root_coord(coord::new(x_coord, y), organ) {
            proof {
                coord::lemma_coord_round_trip(x_coord, y);
            }
            let ret = action::set_coord_target(result, coord::new(x_coord, y));
            proof {
                assert(ret != action::wait_action());
                assert(growth_repair_ok(grid@, action, ret, k));
            }
            return ret;
        }
        y = y + 1;
    }
    let ret = action::wait();
    proof {
        assert(growth_repair_ok(grid@, action, ret, k));
    }
    ret
}

/// The repaired spore action keeps the intended action's kind fields and
/// carries the sporer's source root.
pub open spec fn sporer_fields_ok(last: Action, a: Action, r: Action) -> bool {
    &&& action::action_type_code(r) == action::action_type_code(a)
    &&& action::action_organ_code(r) == action::action_organ_code(a)
    &&& action::action_dir_code(r) == action::action_dir_code(a)
    &&& action::action_source(r) == action::action_source(last)
}

/// What spore repair returns: projecting forward from the most recently
/// placed sporer along its facing, the result re-targets a strictly closer
/// random in-bounds cell on that axis and keeps the intended action's kind
/// fields; a sporer flush against the board edge in its facing, or one with
/// the neutral facing, degrades to waiting.
pub open spec fn sporer_repair_ok(m: GridModel, last: Action, a: Action, r: Action) -> bool {
    let x = coord::coord_x(action::action_target(last) as Coord) as int;
    let y = coord::coord_y(action::action_target(last) as Coord) as int;
    let d = organ_direction::dir_of_code(action::action_dir_code(last));
    let tr = action::action_target(r) as Coord;
    match d {
        OrganDirection::East => if x >= m.width - 1 {
            r == action::wait_action()
        } else {
            &&& sporer_fields_ok(last, a, r)
            &&& coord::coord_y(tr) == y
            &&& x < coord::coord_x(tr) <= m.width - 1
        },
        OrganDirection::West => if x == 0 {
            r == action::wait_action()
        } else {
            &&& sporer_fields_ok(last, a, r)
            &&& coord::coord_y(tr) == y
            &&& 0 <= coord::coord_x(tr) < x
        },
        OrganDirection::North => if y == 0 {
            r == action::wait_action()
        } else {
            &&& sporer_fields_ok(last, a, r)
            &&& coord::coord_x(tr) == x
            &&& 0 <= coord::coord_y(tr) < y
        },
        OrganDirection::South => if y >= m.height - 1 {
            r == action::wait_action()
        } else {
            &&& sporer_fields_ok(last, a, r)
            &&& coord::coord_x(tr) == x
            &&& y < coord::coord_y(tr) <= m.height - 1
        },
        OrganDirection::X => r == action::wait_action(),
    }
}

/// Repairs a spore launch: picks a new target a random distance ahead of the
/// most recently placed sporer, along that sporer's facing, within the
/// board; degrades to waiting when the sporer sits flush against the edge it
/// faces. Malformed actions or an out-of-range sporer position are a caller
/// error, excluded up front.
pub fn make_sporer_valid(action_last_sporer_creation: Action, action: Action, grid: &Grid) -> (r:
    Action)
    requires
        grid.inv(),
        action::action_wf(action_last_sporer_creation),
        action::action_wf(action),
        action < 0x4000000,
        action_last_sporer_creation < 0x4000000,
        coord::coord_x(action::action_target(action_last_sporer_creation) as Coord)
            <= coord::MAX_X,
        coord::coord_y(action::action_target(action_last_sporer_creation) as Coord)
            <= coord::MAX_Y,
    ensures
        sporer_repair_ok(grid@, action_last_sporer_creation, action, r),
{
    let x_coord = coord::x(action::get_coord_target(action_last_sporer_creation));
    let y_coord = coord::y(action::get_coord_target(action_last_sporer_creation));
    let sporer_direction = action::get_direction(action_last_sporer_creation);
    let mut result = action;
    result = action::set_coord_target(result, coord::new(x_coord, y_coord));
    result = action::set_coord_source(
        result,
        action::get_coord_source(action_last_sporer_creation),
    );
    let width = grid.width();
    let height = grid.height();
    match sporer_direction {
        OrganDirection::East => {
            if x_coord >= width - 1 {
                return action::wait();
            }
            let addition_on_x = (rand::random::<u8>() % (width - 1 - x_coord)) + 1;
            proof {
                coord::lemma_coord_round_trip((x_coord + addition_on_x) as u8, y_coord);
            }
            action::set_coord_target(result, coord::new(x_coord + addition_on_x, y_coord))
        },
        OrganDirection::West => {
            if x_coord == 0 {
                return action::wait();
            }
            let substraction_on_x = (rand::random::<u8>() % x_coord) + 1;
            proof {
                coord::lemma_coord_round_trip((x_coord - substraction_on_x) as u8, y_coord);
            }
            action::set_coord_target(result, coord::new(x_coord - substraction_on_x, y_coord))
        },
        OrganDirection::North => {
            if y_coord == 0 {
                return action::wait();
            }
            let substraction_on_y = (rand::random::<u8>() % y_coord) + 1;
            proof {
                coord::lemma_coord_round_trip(x_coord, (y_coord - substraction_on_y) as u8);
            }
            action::set_coord_target(result, coord::new(x_coord, y_coord - substraction_on_y))
        },
        OrganDirection::South => {
            if y_coord >= height - 1 {
                return action::wait();
            }
            let addition_on_y = (rand::random::<u8>() % (height - 1 - y_coord)) + 1;
            proof {
                coord::lemma_coord_round_trip(x_coord, (y_coord + addition_on_y) as u8);
            }
            action::set_coord_target(result, coord::new(x_coord, y_coord + addition_on_y))
        },
        OrganDirection::X => action::wait(),
    }
}

/// Repairs any intended action: growth actions go through the growth repair
/// scan, spore and wait actions degrade to waiting. The growth case carries
/// the growth repair's caller obligations.
pub fn make_it_valid(action: Action, grid: &Grid) -> (r: Action)
    requires
        grid.inv(),
        action::action_wf(action),
        action < 0x4000000,
        action::action_type_code(action) == action_type::action_code(ActionType::Growth) ==> {
            &&& coord::coord_x(action::action_target(action) as Coord) <= coord::MAX_X
            &&& coord::coord_y(action::action_target(action) as Coord) <= coord::MAX_Y
        },
    ensures
        action::action_type_code(action) == action_type::action_code(ActionType::Growth)
            ==> exists|k: int|
            #![auto]
            0 <= k <= 3 && (action::action_organ_code(action) != organ_type::type_code(
                OrganType::Root,
            ) ==> k == action::action_organ_code(action)) && growth_repair_ok(grid@, action, r, k),
        action::action_type_code(action) != action_type::action_code(ActionType::Growth) ==> r
            == action::wait_action(),
{
    match action::get_type(action) {
        ActionType::Growth => make_growth_valid(action, grid),
        ActionType::Sporer => action::wait(),
        ActionType::Wait => action::wait(),
    }
}

} // verus!
