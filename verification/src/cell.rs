//! Cell codec: a tagged union over empty, wall, protein deposit, and organ,
//! packed into one integer. The low two bits carry the tag, the rest the
//! payload.

use vstd::prelude::*;
use vstd::arithmetic::div_mod::{lemma_fundamental_div_mod, lemma_fundamental_div_mod_converse};
use crate::coord::Coord;
use crate::organ::{self, Organ};
use crate::protein::{self, Protein};

verus! {

/// One board cell packed as one integer: a two-bit tag and, for protein and
/// organ cells, the payload above it.
pub type Cell = u32;

/// Tag of an empty cell.
pub const EMPTY: Cell = 0;

/// Tag of a wall cell.
pub const OBSTACLE: Cell = 1;

/// Tag of a protein deposit cell.
pub const PROTEIN: Cell = 2;

/// Tag of an organ cell.
pub const ORGAN: Cell = 3;

/// The tag of a packed cell.
pub open spec fn cell_tag(c: Cell) -> int {
    (c as int) % 4
}

/// The payload of a packed cell.
pub open spec fn cell_payload(c: Cell) -> int {
    (c as int) / 4
}

pub open spec fn spec_is_empty(c: Cell) -> bool {
    cell_tag(c) == EMPTY
}

pub open spec fn spec_is_obstacle(c: Cell) -> bool {
    cell_tag(c) == OBSTACLE
}

pub open spec fn spec_is_protein(c: Cell) -> bool {
    cell_tag(c) == PROTEIN
}

pub open spec fn spec_is_organ(c: Cell) -> bool {
    cell_tag(c) == ORGAN
}

/// The protein deposit a cell holds, when it is a protein cell.
pub open spec fn spec_get_protein(c: Cell) -> Option<Protein> {
    if spec_is_protein(c) {
        Some(protein::protein_of_id(cell_payload(c)))
    } else {
        None
    }
}

/// The organ a cell holds, when it is an organ cell.
pub open spec fn spec_get_organ(c: Cell) -> Option<Organ> {
    if spec_is_organ(c) {
        Some(cell_payload(c) as Organ)
    } else {
        None
    }
}

/// A packed cell is well formed when empty and wall cells carry no payload,
/// a protein payload is a protein id, and an organ payload is a well-formed
/// organ.
pub open spec fn cell_wf(c: Cell) -> bool {
    &&& spec_is_empty(c) ==> c == EMPTY
    &&& spec_is_obstacle(c) ==> c == OBSTACLE
    &&& spec_is_protein(c) ==> cell_payload(c) <= 3
    &&& spec_is_organ(c) ==> organ::organ_wf(cell_payload(c) as Organ) && cell_payload(c)
        < 16777216
}

/// The packed cell holding the given payload: a wall beats everything, then
/// a protein deposit, then an organ, else empty.
pub open spec fn make_cell(obstacle: bool, p: Option<Protein>, o: Option<Organ>) -> Cell {
    if obstacle {
        OBSTACLE
    } else if p is Some {
        (4 * protein::protein_id(p->0) + 2) as Cell
    } else if o is Some {
        (4 * (o->0 as int) + 3) as Cell
    } else {
        EMPTY
    }
}

/// A packed cell splits into its tag and payload.
proof fn lemma_cell_fields(c: Cell)
    ensures
        c == 4 * cell_payload(c) + cell_tag(c),
        0 <= cell_tag(c) < 4,
        0 <= cell_payload(c) < 1073741824,
{
    lemma_fundamental_div_mod(c as int, 4);
}

/// Packing a tag and payload and splitting them gives both back.
proof fn lemma_cell_compose(tag: int, payload: int)
    requires
        0 <= tag < 4,
        0 <= payload < 1073741824,
    ensures
        ({
            let c = 4 * payload + tag;
            &&& 0 <= c <= u32::MAX
            &&& cell_tag(c as Cell) == tag
            &&& cell_payload(c as Cell) == payload
        }),
{
    lemma_fundamental_div_mod_converse(4 * payload + tag, 4, payload, tag);
}

/// Packs a cell from at most one payload. Passing both a protein and an
/// organ, or a malformed or oversized organ, is a caller error, excluded up
/// front.
pub fn new(obstacle: bool, protein: Option<Protein>, organ: Option<Organ>) -> (c: Cell)
    requires
        !(protein is Some && organ is Some),
        organ is Some ==> organ::organ_wf(organ->0) && organ->0 < 16777216,
    ensures
        c == make_cell(obstacle, protein, organ),
        cell_wf(c),
{
    if obstacle {
        OBSTACLE
    } else if let Some(p) = protein {
        proof {
            lemma_cell_compose(PROTEIN as int, protein::protein_id(p));
        }
        4 * (p.to_id() as u32) + 2
    } else if let Some(o) = organ {
        proof {
            lemma_cell_compose(ORGAN as int, o as int);
        }
        4 * o + 3
    } else {
        EMPTY
    }
}

/// Packs a wall cell.
pub fn new_wall() -> (c: Cell)
    ensures
        c == OBSTACLE,
        cell_wf(c),
{
    OBSTACLE
}

/// Reads the protein deposit out of a cell, none when the cell holds no
/// protein. A malformed protein payload is a caller error, excluded up
/// front.
pub fn get_protein(cell: Cell) -> (r: Option<Protein>)
    requires
        cell_wf(cell),
    ensures
        r == spec_get_protein(cell),
{
    if cell % 4 == 2 {
        proof {
            lemma_cell_fields(cell);
        }
        Protein::from_id((cell / 4) as u8)
    } else {
        None
    }
}

/// Reads the organ out of a cell. Reading from a cell that holds no organ is
/// a caller error, excluded up front.
pub fn get_organ(cell: Cell) -> (r: Option<Organ>)
    requires
        spec_is_organ(cell),
    ensures
        r == spec_get_organ(cell),
{
    Some(cell / 4)
}

/// Overwrites the cell with a protein deposit.
pub fn set_protein(cell: &mut Cell, protein: Protein)
    ensures
        *final(cell) == make_cell(false, Some(protein), None),
        cell_wf(*final(cell)),
{
    proof {
        lemma_cell_compose(PROTEIN as int, protein::protein_id(protein));
    }
    *cell = 4 * (protein.to_id() as u32) + 2;
}

/// Overwrites the cell with a wall.
pub fn set_obstacle(cell: &mut Cell)
    ensures
        *final(cell) == OBSTACLE,
{
    *cell = OBSTACLE;
}

/// Overwrites the cell with an empty cell.
pub fn unset_obstacle(cell: &mut Cell)
    ensures
        *final(cell) == EMPTY,
{
    *cell = EMPTY;
}

/// Overwrites the cell with an organ given as a bare payload. A malformed
/// organ payload is a caller error, excluded up front.
pub fn place_organ(cell: &mut Cell, organ_id: u16)
    requires
        organ::organ_wf(organ_id as Organ),
    ensures
        *final(cell) == make_cell(false, None, Some(organ_id as Organ)),
        cell_wf(*final(cell)),
{
    proof {
        lemma_cell_compose(ORGAN as int, organ_id as int);
    }
    *cell = 4 * (organ_id as u32) + 3;
}

/// Whether the cell is a wall.
pub fn is_obstacle(cell: Cell) -> (r: bool)
    ensures
        r == spec_is_obstacle(cell),
{
    cell % 4 == OBSTACLE
}

/// Whether the cell is empty.
pub fn is_empty(cell: Cell) -> (r: bool)
    ensures
        r == spec_is_empty(cell),
{
    cell % 4 == EMPTY
}

/// Whether the cell holds a protein deposit.
pub fn is_protein(cell: Cell) -> (r: bool)
    ensures
        r == spec_is_protein(cell),
{
    cell % 4 == PROTEIN
}

/// Whether the cell holds an organ.
pub fn is_organ(cell: Cell) -> (r: bool)
    ensures
        r == spec_is_organ(cell),
{
    cell % 4 == ORGAN
}

/// Whether the cell holds a tentacle organ.
pub open spec fn spec_is_tentacle_cell(c: Cell) -> bool {
    spec_is_organ(c) && organ::organ_type_code(cell_payload(c) as Organ) == 3
}

/// Whether the cell holds a tentacle organ.
pub fn is_tentacle(cell: Cell) -> (r: bool)
    ensures
        r == spec_is_tentacle_cell(cell),
{
    is_organ(cell) && organ::is_tentacle(cell / 4)
}

/// Whether the cell holds an organ of the given owner.
pub open spec fn spec_is_owned_by(c: Cell, owner: int) -> bool {
    spec_is_organ(c) && organ::organ_owner_of(cell_payload(c) as Organ) == owner
}

/// Whether the cell holds an organ of the given owner.
pub fn is_owned_by(cell: Cell, owner: u8) -> (r: bool)
    ensures
        r == spec_is_owned_by(cell, owner as int),
{
    is_organ(cell) && organ::get_owner(cell / 4) == owner
}

/// Whether the cell holds an organ of the given owner belonging to the
/// organism rooted at `root_coord`.
pub open spec fn spec_is_owned_and_rooted_by(c: Cell, owner: int, root_coord: Coord) -> bool {
    spec_is_owned_by(c, owner) && organ::organ_root_of(cell_payload(c) as Organ) == root_coord
}

/// Whether the cell holds an organ of the given owner belonging to the
/// organism rooted at `root_coord`.
pub fn is_owned_and_rooted_by(cell: Cell, owner: u8, root_coord: Coord) -> (r: bool)
    ensures
        r == spec_is_owned_and_rooted_by(cell, owner as int, root_coord),
{
    is_owned_by(cell, owner) && organ::get_root_coord(cell / 4) == root_coord
}

/// Whether the cell holds an organ belonging to the organism rooted at
/// `root_coord`, whoever owns it.
pub open spec fn spec_has_root_coord(c: Cell, root_coord: Coord) -> bool {
    spec_is_organ(c) && organ::organ_root_of(cell_payload(c) as Organ) == root_coord
}

/// Whether the cell holds an organ belonging to the organism rooted at
/// `root_coord`, whoever owns it.
pub fn has_root_coord(cell1: Cell, root_coord: Coord) -> (r: bool)
    ensures
        r == spec_has_root_coord(cell1, root_coord),
{
    is_organ(cell1) && organ::get_root_coord(cell1 / 4) == root_coord
}

/// Whether the cell holds an organ.
pub fn contains_organ(cell: Cell) -> (r: bool)
    ensures
        r == spec_is_organ(cell),
{
    cell % 4 == ORGAN
}

/// Whether the cell holds a protein deposit.
pub fn contains_protein(cell: Cell) -> (r: bool)
    ensures
        r == spec_is_protein(cell),
{
    cell % 4 == PROTEIN
}

/// Resets the cell to empty.
pub fn clear(cell: &mut Cell)
    ensures
        *final(cell) == EMPTY,
{
    *cell = EMPTY;
}

/// Law: packing a cell with exactly one payload and testing it again gives
/// the payload back, and the other payload accessor reads none.
pub proof fn lemma_cell_round_trip(obstacle: bool, protein: Option<Protein>, organ: Option<Organ>)
    requires
        !(protein is Some && organ is Some),
        organ is Some ==> organ->0 < 16777216,
    ensures
        ({
            let c = make_cell(obstacle, protein, organ);
            &&& spec_is_obstacle(c) == obstacle
            &&& !obstacle ==> spec_is_protein(c) == (protein is Some)
            &&& !obstacle ==> spec_is_organ(c) == (organ is Some)
            &&& !obstacle ==> spec_get_protein(c) == protein
            &&& (!obstacle && organ is Some) ==> spec_get_organ(c) == organ
            &&& (!obstacle && protein is Some) ==> spec_get_organ(c) is None
            &&& (!obstacle && protein is None && organ is None) ==> spec_is_empty(c)
        }),
{
    let c = make_cell(obstacle, protein, organ);
    if !obstacle && protein is Some {
        lemma_cell_compose(PROTEIN as int, protein::protein_id(protein->0));
    } else if !obstacle && organ is Some {
        lemma_cell_compose(ORGAN as int, organ->0 as int);
    }
}

} // verus!
