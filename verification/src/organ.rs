//! Organ codec: packs owner, organ kind, facing direction, and the
//! coordinate of the owning root into one integer value. Two organs with the
//! same fields are the same value.

use vstd::prelude::*;
use vstd::arithmetic::div_mod::{lemma_fundamental_div_mod, lemma_fundamental_div_mod_converse};
use crate::coord::{self, Coord};
use crate::organ_direction::{self, OrganDirection};
use crate::organ_type::{self, OrganType};

verus! {

/// A placed structure packed as one integer: the owner in the lowest bit,
/// then the organ kind code, the facing code, and the owning root coordinate
/// in the high bits.
pub type Organ = u32;

/// The owner id packed into an organ value.
pub open spec fn organ_owner_of(o: Organ) -> int {
    (o as int) % 2
}

/// The organ kind code packed into an organ value.
pub open spec fn organ_type_code(o: Organ) -> int {
    ((o as int) / 2) % 16
}

/// The facing direction code packed into an organ value.
pub open spec fn organ_dir_code(o: Organ) -> int {
    (((o as int) / 2) / 16) % 8
}

/// The owning root coordinate packed into an organ value.
pub open spec fn organ_root_of(o: Organ) -> int {
    ((((o as int) / 2) / 16) / 8) % 65536
}

/// An organ value is well formed when its kind and facing codes decode to
/// actual kinds and directions.
pub open spec fn organ_wf(o: Organ) -> bool {
    &&& organ_type_code(o) <= 4
    &&& organ_dir_code(o) <= 4
}

/// The packed organ with the given fields.
pub open spec fn make_organ(owner: int, t: OrganType, d: OrganDirection, root: Coord) -> Organ {
    (owner + 2 * organ_type::type_code(t) + 32 * organ_direction::dir_code(d)
        + 256 * root) as Organ
}

/// A packed organ splits into its four fields.
proof fn lemma_organ_fields(o: Organ)
    ensures
        0 <= organ_owner_of(o) < 2,
        0 <= organ_type_code(o) < 16,
        0 <= organ_dir_code(o) < 8,
        0 <= organ_root_of(o) < 65536,
        o < 16777216 ==> o == organ_owner_of(o) + 2 * organ_type_code(o) + 32 * organ_dir_code(o)
            + 256 * organ_root_of(o),
{
    lemma_fundamental_div_mod(o as int, 2);
    lemma_fundamental_div_mod((o as int) / 2, 16);
    lemma_fundamental_div_mod(((o as int) / 2) / 16, 8);
    lemma_fundamental_div_mod((((o as int) / 2) / 16) / 8, 65536);
}

/// Packing four in-range fields and unpacking them gives the fields back.
proof fn lemma_organ_compose(owner: int, tc: int, dc: int, root: int)
    requires
        0 <= owner < 2,
        0 <= tc < 16,
        0 <= dc < 8,
        0 <= root < 65536,
    ensures
        ({
            let o = owner + 2 * tc + 32 * dc + 256 * root;
            &&& 0 <= o < 16777216
            &&& organ_owner_of(o as Organ) == owner
            &&& organ_type_code(o as Organ) == tc
            &&& organ_dir_code(o as Organ) == dc
            &&& organ_root_of(o as Organ) == root
        }),
{
    let o = owner + 2 * tc + 32 * dc + 256 * root;
    let q1 = tc + 16 * (dc + 8 * root);
    lemma_fundamental_div_mod_converse(o, 2, q1, owner);
    let q2 = dc + 8 * root;
    lemma_fundamental_div_mod_converse(q1, 16, q2, tc);
    lemma_fundamental_div_mod_converse(q2, 8, root, dc);
    vstd::arithmetic::div_mod::lemma_small_mod(root as nat, 65536);
}

/// Packs an organ value from its fields. Owners other than 0 and 1 are a
/// caller error, excluded up front.
pub fn new(owner: u8, organ_type: OrganType, organ_direction: OrganDirection, root_coord: Coord)
    -> (o: Organ)
    requires
        owner <= 1,
    ensures
        o == make_organ(owner as int, organ_type, organ_direction, root_coord),
        organ_owner_of(o) == owner,
        organ_type_code(o) == organ_type::type_code(organ_type),
        organ_dir_code(o) == organ_direction::dir_code(organ_direction),
        organ_root_of(o) == root_coord,
        organ_wf(o),
        o < 16777216,
{
    let tc: u32 = match organ_type {
        OrganType::Basic => 0,
        OrganType::Harvester => 1,
        OrganType::Sporer => 2,
        OrganType::Tentacle => 3,
        OrganType::Root => 4,
    };
    let dc: u32 = match organ_direction {
        OrganDirection::North => 0,
        OrganDirection::West => 1,
        OrganDirection::South => 2,
        OrganDirection::East => 3,
        OrganDirection::X => 4,
    };
    proof {
        lemma_organ_compose(
            owner as int,
            organ_type::type_code(organ_type),
            organ_direction::dir_code(organ_direction),
            root_coord as int,
        );
    }
    (owner as u32) + 2 * tc + 32 * dc + 256 * (root_coord as u32)
}

/// Writes a root coordinate into an organ whose root field is still empty.
/// An organ that already carries a root, or one with stray high bits, is a
/// caller error, excluded up front.
pub fn add_root_coord(organ: Organ, root_coord: Coord) -> (o: Organ)
    requires
        organ < 256,
    ensures
        organ_owner_of(o) == organ_owner_of(organ),
        organ_type_code(o) == organ_type_code(organ),
        organ_dir_code(o) == organ_dir_code(organ),
        organ_root_of(o) == root_coord,
        organ_wf(organ) ==> organ_wf(o),
        o < 16777216,
{
    proof {
        lemma_organ_fields(organ);
        lemma_organ_compose(
            organ_owner_of(organ),
            organ_type_code(organ),
            organ_dir_code(organ),
            root_coord as int,
        );
    }
    organ + 256 * (root_coord as u32)
}

/// Reads the owning root coordinate out of an organ value.
pub fn get_root_coord(organ: Organ) -> (r: Coord)
    ensures
        r == organ_root_of(organ),
{
    proof {
        lemma_organ_fields(organ);
    }
    ((((organ / 2) / 16) / 8) % 65536) as u16
}

/// Reads the owner id out of an organ value.
pub fn get_owner(organ: Organ) -> (r: u8)
    ensures
        r == organ_owner_of(organ),
{
    (organ % 2) as u8
}

/// Reads the facing direction out of an organ value. A value whose facing
/// code decodes to no direction is a caller error, excluded up front.
pub fn get_direction(organ: Organ) -> (r: OrganDirection)
    requires
        organ_dir_code(organ) <= 4,
    ensures
        r == organ_direction::dir_of_code(organ_dir_code(organ)),
{
    proof {
        lemma_organ_fields(organ);
    }
    OrganDirection::from_index((((organ / 2) / 16) % 8) as usize)
}

/// Reads the organ kind out of an organ value. A value whose kind code
/// decodes to no kind is a caller error, excluded up front.
pub fn get_type(organ: Organ) -> (r: OrganType)
    requires
        organ_type_code(organ) <= 4,
    ensures
        r == organ_type::type_of_code(organ_type_code(organ)),
{
    proof {
        lemma_organ_fields(organ);
    }
    OrganType::from_index(((organ / 2) % 16) as usize)
}

/// Whether the organ placed at `organ_coord` faces exactly the cell `coord`.
/// An organ facing off the coordinate range faces no cell.
pub open spec fn spec_is_faced_to(organ: Organ, organ_coord: Coord, coord: Coord) -> bool {
    let d = organ_direction::dir_of_code(organ_dir_code(organ));
    &&& organ_direction::move_in_range(d, organ_coord)
    &&& organ_direction::moved_coord(d, organ_coord) == coord
}

/// The cell in front of an organ placed at `coord`. A facing that leaves the
/// coordinate range is a caller error, excluded up front.
pub fn get_face_coord(organ: Organ, coord: Coord) -> (r: Coord)
    requires
        organ_dir_code(organ) <= 4,
        organ_direction::move_in_range(
            organ_direction::dir_of_code(organ_dir_code(organ)),
            coord,
        ),
    ensures
        r == organ_direction::moved_coord(
            organ_direction::dir_of_code(organ_dir_code(organ)),
            coord,
        ),
{
    get_direction(organ).move_pos(coord)
}

/// Decides whether the organ placed at `organ_coord` faces exactly `coord`,
/// treating a facing that leaves the coordinate range as facing no cell.
pub fn is_faced_to(organ: Organ, organ_coord: Coord, coord: Coord) -> (r: bool)
    requires
        organ_dir_code(organ) <= 4,
        coord::coord_x(organ_coord) <= coord::MAX_X,
        coord::coord_y(organ_coord) <= coord::MAX_Y,
    ensures
        r == spec_is_faced_to(organ, organ_coord, coord),
{
    let d = get_direction(organ);
    let x = coord::x(organ_coord);
    let y = coord::y(organ_coord);
    let in_range = match d {
        OrganDirection::North => y >= 1,
        OrganDirection::West => x >= 1,
        OrganDirection::South => y + 1 <= coord::MAX_Y,
        OrganDirection::East => x + 1 <= coord::MAX_X,
        OrganDirection::X => true,
    };
    in_range && d.move_pos(organ_coord) == coord
}

/// Whether an organ value is of the root kind.
pub fn is_root(organ: Organ) -> (r: bool)
    ensures
        r == (organ_type_code(organ) == organ_type::type_code(OrganType::Root)),
{
    (organ / 2) % 16 == 4
}

/// Whether an organ value is of the harvester kind.
pub fn is_harvester(organ: Organ) -> (r: bool)
    ensures
        r == (organ_type_code(organ) == organ_type::type_code(OrganType::Harvester)),
{
    (organ / 2) % 16 == 1
}

/// Whether an organ value is of the sporer kind.
pub fn is_sporer(organ: Organ) -> (r: bool)
    ensures
        r == (organ_type_code(organ) == organ_type::type_code(OrganType::Sporer)),
{
    (organ / 2) % 16 == 2
}

/// Whether an organ value is of the tentacle kind.
pub fn is_tentacle(organ: Organ) -> (r: bool)
    ensures
        r == (organ_type_code(organ) == organ_type::type_code(OrganType::Tentacle)),
{
    (organ / 2) % 16 == 3
}

/// Whether an organ value is of the basic kind.
pub fn is_basic(organ: Organ) -> (r: bool)
    ensures
        r == (organ_type_code(organ) == organ_type::type_code(OrganType::Basic)),
{
    (organ / 2) % 16 == 0
}

/// Law: packing an organ and reading its fields back recovers exactly the
/// owner, kind, direction, and root coordinate that were packed.
pub proof fn lemma_organ_round_trip(owner: u8, t: OrganType, d: OrganDirection, root: Coord)
    requires
        owner <= 1,
    ensures
        organ_owner_of(make_organ(owner as int, t, d, root)) == owner,
        organ_type::type_of_code(organ_type_code(make_organ(owner as int, t, d, root))) == t,
        organ_direction::dir_of_code(organ_dir_code(make_organ(owner as int, t, d, root))) == d,
        organ_root_of(make_organ(owner as int, t, d, root)) == root,
{
    lemma_organ_compose(
        owner as int,
        organ_type::type_code(t),
        organ_direction::dir_code(d),
        root as int,
    );
}

} // verus!
