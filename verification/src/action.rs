//! Action codec: packs an intended move — its kind, the organ kind to build,
//! the facing, the target coordinate, and the source-root coordinate — into
//! one integer. Comparing two actions is comparing the packed integer.

use vstd::prelude::*;
use vstd::arithmetic::div_mod::{lemma_fundamental_div_mod, lemma_fundamental_div_mod_converse};
use crate::action_type::{self, ActionType};
use crate::coord::Coord;
use crate::grid::{self, Grid};
use crate::organ;
use crate::organ_direction::{self, OrganDirection};
use crate::organ_type::{self, OrganType};
use crate::player::Player;
use crate::protein_wallet::{self, ProteinWallet};

verus! {

/// An intended move packed as one integer: the action kind in the low bits,
/// then the organ kind, the facing, the target coordinate, and the
/// source-root coordinate.
pub type Action = u32;

/// The action kind code packed into an action.
pub open spec fn action_type_code(a: Action) -> int {
    (a as int) % 4
}

/// The organ kind code packed into an action.
pub open spec fn action_organ_code(a: Action) -> int {
    ((a as int) / 4) % 8
}

/// The facing code packed into an action.
pub open spec fn action_dir_code(a: Action) -> int {
    (((a as int) / 4) / 8) % 8
}

/// The target coordinate packed into an action.
pub open spec fn action_target(a: Action) -> int {
    ((((a as int) / 4) / 8) / 8) % 512
}

/// The source-root coordinate packed into an action.
pub open spec fn action_source(a: Action) -> int {
    (((((a as int) / 4) / 8) / 8) / 512) % 512
}

/// A packed action is well formed when each field decodes to an actual
/// action kind, organ kind, and direction.
pub open spec fn action_wf(a: Action) -> bool {
    &&& action_type_code(a) <= 2
    &&& action_organ_code(a) <= 4
    &&& action_dir_code(a) <= 4
}

/// The packed action with the given field codes.
pub open spec fn make_action(t: int, o: int, d: int, target: int, source: int) -> Action {
    (t + 4 * o + 32 * d + 256 * target + 131072 * source) as Action
}

/// Packing five in-range fields and unpacking them gives the fields back.
proof fn lemma_action_compose(t: int, o: int, d: int, target: int, source: int)
    requires
        0 <= t < 4,
        0 <= o < 8,
        0 <= d < 8,
        0 <= target < 512,
        0 <= source < 512,
    ensures
        ({
            let a = t + 4 * o + 32 * d + 256 * target + 131072 * source;
            &&& 0 <= a < 0x4000000
            &&& action_type_code(a as Action) == t
            &&& action_organ_code(a as Action) == o
            &&& action_dir_code(a as Action) == d
            &&& action_target(a as Action) == target
            &&& action_source(a as Action) == source
        }),
{
    let a = t + 4 * o + 32 * d + 256 * target + 131072 * source;
    let q1 = o + 8 * (d + 8 * (target + 512 * source));
    lemma_fundamental_div_mod_converse(a, 4, q1, t);
    let q2 = d + 8 * (target + 512 * source);
    lemma_fundamental_div_mod_converse(q1, 8, q2, o);
    let q3 = target + 512 * source;
    lemma_fundamental_div_mod_converse(q2, 8, q3, d);
    lemma_fundamental_div_mod_converse(q3, 512, source, target);
    vstd::arithmetic::div_mod::lemma_small_mod(source as nat, 512);
}

/// A packed action splits into its five fields.
proof fn lemma_action_fields(a: Action)
    ensures
        0 <= action_type_code(a) < 4,
        0 <= action_organ_code(a) < 8,
        0 <= action_dir_code(a) < 8,
        0 <= action_target(a) < 512,
        0 <= action_source(a) < 512,
        a < 0x4000000 ==> a == action_type_code(a) + 4 * action_organ_code(a) + 32
            * action_dir_code(a) + 256 * action_target(a) + 131072 * action_source(a),
{
    lemma_fundamental_div_mod(a as int, 4);
    lemma_fundamental_div_mod((a as int) / 4, 8);
    lemma_fundamental_div_mod(((a as int) / 4) / 8, 8);
    lemma_fundamental_div_mod((((a as int) / 4) / 8) / 8, 512);
    lemma_fundamental_div_mod(((((a as int) / 4) / 8) / 8) / 512, 512);
}

/// Packs an action from its parts. Coordinates outside the packed coordinate
/// range are a caller error, excluded up front.
pub fn new(
    action_type: ActionType,
    organ_type: OrganType,
    direction: OrganDirection,
    coord_target: Coord,
    coord_root: Coord,
) -> (a: Action)
    requires
        coord_target < 512,
        coord_root < 512,
    ensures
        a == make_action(
            action_type::action_code(action_type),
            organ_type::type_code(organ_type),
            organ_direction::dir_code(direction),
            coord_target as int,
            coord_root as int,
        ),
        action_type_code(a) == action_type::action_code(action_type),
        action_organ_code(a) == organ_type::type_code(organ_type),
        action_dir_code(a) == organ_direction::dir_code(direction),
        action_target(a) == coord_target,
        action_source(a) == coord_root,
        action_wf(a),
        a < 0x4000000,
{
    let t: u32 = action_type.get_index() as u32;
    let o: u32 = match organ_type {
        OrganType::Basic => 0,
        OrganType::Harvester => 1,
        OrganType::Sporer => 2,
        OrganType::Tentacle => 3,
        OrganType::Root => 4,
    };
    let d: u32 = match direction {
        OrganDirection::North => 0,
        OrganDirection::West => 1,
        OrganDirection::South => 2,
        OrganDirection::East => 3,
        OrganDirection::X => 4,
    };
    proof {
        lemma_action_compose(
            action_type::action_code(action_type),
            organ_type::type_code(organ_type),
            organ_direction::dir_code(direction),
            coord_target as int,
            coord_root as int,
        );
    }
    t + 4 * o + 32 * d + 256 * (coord_target as u32) + 131072 * (coord_root as u32)
}

/// Reads the action kind out of a packed action. A value whose kind code
/// decodes to no kind is a caller error, excluded up front.
pub fn get_type(action: Action) -> (r: ActionType)
    requires
        action_type_code(action) <= 2,
    ensures
        r == action_type::action_of_code(action_type_code(action)),
{
    proof {
        lemma_action_fields(action);
    }
    ActionType::from_index((action % 4) as usize)
}

/// Reads the organ kind out of a packed action. A value whose organ code
/// decodes to no kind is a caller error, excluded up front.
pub fn get_organ_type(action: Action) -> (r: OrganType)
    requires
        action_organ_code(action) <= 4,
    ensures
        r == organ_type::type_of_code(action_organ_code(action)),
{
    proof {
        lemma_action_fields(action);
    }
    OrganType::from_index(((action / 4) % 8) as usize)
}

/// Reads the facing out of a packed action. A value whose facing code
/// decodes to no direction is a caller error, excluded up front.
pub fn get_direction(action: Action) -> (r: OrganDirection)
    requires
        action_dir_code(action) <= 4,
    ensures
        r == organ_direction::dir_of_code(action_dir_code(action)),
{
    proof {
        lemma_action_fields(action);
    }
    OrganDirection::from_index((((action / 4) / 8) % 8) as usize)
}

/// Reads the target coordinate out of a packed action.
pub fn get_coord_target(action: Action) -> (r: Coord)
    ensures
        r == action_target(action),
{
    proof {
        lemma_action_fields(action);
    }
    ((((action / 4) / 8) / 8) % 512) as u16
}

/// Reads the source-root coordinate out of a packed action.
pub fn get_coord_source(action: Action) -> (r: Coord)
    ensures
        r == action_source(action),
{
    proof {
        lemma_action_fields(action);
    }
    (((((action / 4) / 8) / 8) / 512) % 512) as u16
}

/// The packed action with its target coordinate replaced.
pub open spec fn spec_with_target(a: Action, c: Coord) -> Action {
    make_action(
        action_type_code(a),
        action_organ_code(a),
        action_dir_code(a),
        c as int,
        action_source(a),
    )
}

/// Replaces the target coordinate of a packed action. A stray high bit in
/// the action, or a target outside the coordinate range, is a caller error,
/// excluded up front.
pub fn set_coord_target(action: Action, coord: Coord) -> (r: Action)
    requires
        action < 0x4000000,
        coord < 512,
    ensures
        r == spec_with_target(action, coord),
        action_type_code(r) == action_type_code(action),
        action_organ_code(r) == action_organ_code(action),
        action_dir_code(r) == action_dir_code(action),
        action_target(r) == coord,
        action_source(r) == action_source(action),
        r < 0x4000000,
{
    proof {
        lemma_action_fields(action);
        lemma_action_compose(
            action_type_code(action),
            action_organ_code(action),
            action_dir_code(action),
            coord as int,
            action_source(action),
        );
    }
    let old_target = get_coord_target(action);
    action - 256 * (old_target as u32) + 256 * (coord as u32)
}

/// Replaces the source-root coordinate of a packed action. A stray high bit
/// in the action, or a source outside the coordinate range, is a caller
/// error, excluded up front.
pub fn set_coord_source(action: Action, coord: Coord) -> (r: Action)
    requires
        action < 0x4000000,
        coord < 512,
    ensures
        action_type_code(r) == action_type_code(action),
        action_organ_code(r) == action_organ_code(action),
        action_dir_code(r) == action_dir_code(action),
        action_target(r) == action_target(action),
        action_source(r) == coord,
        r < 0x4000000,
{
    proof {
        lemma_action_fields(action);
        lemma_action_compose(
            action_type_code(action),
            action_organ_code(action),
            action_dir_code(action),
            action_target(action),
            coord as int,
        );
    }
    let old_source = get_coord_source(action);
    action - 131072 * (old_source as u32) + 131072 * (coord as u32)
}

/// Replaces the facing of a packed action. A stray high bit in the action is
/// a caller error, excluded up front.
pub fn set_direction(action: Action, direction: OrganDirection) -> (r: Action)
    requires
        action < 0x4000000,
    ensures
        action_type_code(r) == action_type_code(action),
        action_organ_code(r) == action_organ_code(action),
        action_dir_code(r) == organ_direction::dir_code(direction),
        action_target(r) == action_target(action),
        action_source(r) == action_source(action),
        r < 0x4000000,
{
    let d: u32 = match direction {
        OrganDirection::North => 0,
        OrganDirection::West => 1,
        OrganDirection::South => 2,
        OrganDirection::East => 3,
        OrganDirection::X => 4,
    };
    proof {
        lemma_action_fields(action);
        lemma_action_compose(
            action_type_code(action),
            action_organ_code(action),
            organ_direction::dir_code(direction),
            action_target(action),
            action_source(action),
        );
    }
    let old_d = (((action / 4) / 8) % 8) as u32;
    action - 32 * old_d + 32 * d
}

/// Replaces the organ kind of a packed action. A stray high bit in the
/// action is a caller error, excluded up front.
pub fn set_organ_type(action: Action, organ_type: OrganType) -> (r: Action)
    requires
        action < 0x4000000,
    ensures
        action_type_code(r) == action_type_code(action),
        action_organ_code(r) == organ_type::type_code(organ_type),
        action_dir_code(r) == action_dir_code(action),
        action_target(r) == action_target(action),
        action_source(r) == action_source(action),
        r < 0x4000000,
{
    let o: u32 = match organ_type {
        OrganType::Basic => 0,
        OrganType::Harvester => 1,
        OrganType::Sporer => 2,
        OrganType::Tentacle => 3,
        OrganType::Root => 4,
    };
    proof {
        lemma_action_fields(action);
        lemma_action_compose(
            action_type_code(action),
            organ_type::type_code(organ_type),
            action_dir_code(action),
            action_target(action),
            action_source(action),
        );
    }
    let old_o = ((action / 4) % 8) as u32;
    action - 4 * old_o + 4 * o
}

/// The packed wait action.
pub open spec fn wait_action() -> Action {
    make_action(
        action_type::action_code(ActionType::Wait),
        organ_type::type_code(OrganType::Root),
        organ_direction::dir_code(OrganDirection::North),
        0,
        0,
    )
}

/// Packs the wait action.
pub fn wait() -> (a: Action)
    ensures
        a == wait_action(),
        action_type_code(a) == action_type::action_code(ActionType::Wait),
        action_wf(a),
        a < 0x4000000,
{
    proof {
        lemma_action_compose(0, 4, 0, 0, 0);
    }
    new(ActionType::Wait, OrganType::Root, OrganDirection::North, 0, 0)
}

/// Packs a growth action. Coordinates outside the packed coordinate range
/// are a caller error, excluded up front.
pub fn growth(
    organ_type: OrganType,
    direction: OrganDirection,
    coord_target: Coord,
    coord_root: Coord,
) -> (a: Action)
    requires
        coord_target < 512,
        coord_root < 512,
    ensures
        a == make_action(
            action_type::action_code(ActionType::Growth),
            organ_type::type_code(organ_type),
            organ_direction::dir_code(direction),
            coord_target as int,
            coord_root as int,
        ),
        action_type_code(a) == action_type::action_code(ActionType::Growth),
        action_organ_code(a) == organ_type::type_code(organ_type),
        action_dir_code(a) == organ_direction::dir_code(direction),
        action_target(a) == coord_target,
        action_source(a) == coord_root,
        action_wf(a),
        a < 0x4000000,
{
    new(ActionType::Growth, organ_type, direction, coord_target, coord_root)
}

/// Packs a spore-launch action. Coordinates outside the packed coordinate
/// range are a caller error, excluded up front.
pub fn sporer(direction: OrganDirection, coord_target: Coord, coord_root: Coord) -> (a: Action)
    requires
        coord_target < 512,
        coord_root < 512,
    ensures
        action_type_code(a) == action_type::action_code(ActionType::Sporer),
        action_organ_code(a) == organ_type::type_code(OrganType::Root),
        action_dir_code(a) == organ_direction::dir_code(direction),
        action_target(a) == coord_target,
        action_source(a) == coord_root,
        action_wf(a),
        a < 0x4000000,
{
    new(ActionType::Sporer, OrganType::Root, direction, coord_target, coord_root)
}

/// Whether a packed action is legal against a board and a player's wallet:
/// waiting is always legal; a growth or spore action is legal when the
/// wallet affords the organ kind and the target passes the grid's placement
/// check, with growth kept attached to the action's declared source root.
pub open spec fn spec_is_valid(a: Action, m: grid::GridModel, w: ProteinWallet, pid: int) -> bool {
    if action_type_code(a) == action_type::action_code(ActionType::Wait) {
        true
    } else {
        let ot = if action_type_code(a) == action_type::action_code(ActionType::Growth) {
            organ_type::type_of_code(action_organ_code(a))
        } else {
            OrganType::Root
        };
        &&& protein_wallet::spec_can_buy(w, ot)
        &&& grid::spec_can_add_with_root(
            m,
            action_target(a) as Coord,
            organ::make_organ(
                pid,
                ot,
                organ_direction::dir_of_code(action_dir_code(a)),
                action_source(a) as Coord,
            ),
        )
    }
}

/// Decides whether a packed action is legal against the grid and the acting
/// player. A malformed action or an out-of-range player id is a caller
/// error, excluded up front.
pub fn is_valid(action: Action, grid: &Grid, player: &Player) -> (r: bool)
    requires
        grid.inv(),
        action_wf(action),
        player.spec_id() <= 1,
    ensures
        r == spec_is_valid(action, grid@, player.spec_wallet(), player.spec_id() as int),
{
    let action_type = get_type(action);
    let coord_target = get_coord_target(action);
    let coord_root = get_coord_source(action);
    let direction = get_direction(action);
    if action_type == ActionType::Wait {
        return true;
    }
    let organ_type = if action_type == ActionType::Growth {
        get_organ_type(action)
    } else {
        OrganType::Root
    };
    protein_wallet::can_buy_organ(player.get_wallet(), organ_type) && grid
        .can_add_organ_with_root_coord(
        coord_target,
        organ::new(player.get_id(), organ_type, direction, coord_root),
    )
}

/// Law: a growth action that would build a tentacle is legal exactly when
/// the wallet holds at least one unit of protein B and one of protein D and
/// the target passes the grid's placement check.
pub proof fn lemma_tentacle_growth_validity(a: Action, m: grid::GridModel, w: ProteinWallet, pid: int)
    requires
        action_type_code(a) == action_type::action_code(ActionType::Growth),
        action_organ_code(a) == organ_type::type_code(OrganType::Tentacle),
    ensures
        spec_is_valid(a, m, w, pid) == (protein_wallet::lane(w, crate::protein::Protein::B) >= 1
            && protein_wallet::lane(w, crate::protein::Protein::D) >= 1
            && grid::spec_can_add_with_root(
            m,
            action_target(a) as Coord,
            organ::make_organ(
                pid,
                OrganType::Tentacle,
                organ_direction::dir_of_code(action_dir_code(a)),
                action_source(a) as Coord,
            ),
        )),
{
    protein_wallet::lemma_tentacle_affordability(w);
}

} // verus!
