//! The closed set of organ kinds a player can grow, with their packed codes,
//! protocol names, and protein costs.

use vstd::prelude::*;

verus! {

#[derive(Debug, Clone, Copy, PartialEq, Eq, Structural)]
pub enum OrganType {
    Basic,
    Harvester,
    Sporer,
    Tentacle,
    Root,
}

/// The numeric code an organ kind is stored under in packed encodings.
pub open spec fn type_code(t: OrganType) -> int {
    match t {
        OrganType::Basic => 0,
        OrganType::Harvester => 1,
        OrganType::Sporer => 2,
        OrganType::Tentacle => 3,
        OrganType::Root => 4,
    }
}

/// The organ kind a numeric code decodes to.
pub open spec fn type_of_code(code: int) -> OrganType {
    if code == 0 {
        OrganType::Basic
    } else if code == 1 {
        OrganType::Harvester
    } else if code == 2 {
        OrganType::Sporer
    } else if code == 3 {
        OrganType::Tentacle
    } else {
        OrganType::Root
    }
}

/// The protocol name of an organ kind.
pub open spec fn kind_name(t: OrganType) -> Seq<char> {
    match t {
        OrganType::Root => "ROOT"@,
        OrganType::Basic => "BASIC"@,
        OrganType::Harvester => "HARVESTER"@,
        OrganType::Sporer => "SPORER"@,
        OrganType::Tentacle => "TENTACLE"@,
    }
}

/// The organ kind a protocol name decodes to.
pub open spec fn type_of_str(s: Seq<char>) -> OrganType {
    if s == "ROOT"@ {
        OrganType::Root
    } else if s == "BASIC"@ {
        OrganType::Basic
    } else if s == "HARVESTER"@ {
        OrganType::Harvester
    } else if s == "SPORER"@ {
        OrganType::Sporer
    } else {
        OrganType::Tentacle
    }
}

/// How many units of protein A growing this kind costs.
pub open spec fn cost_a(t: OrganType) -> int {
    match t {
        OrganType::Root => 0,
        OrganType::Basic => 0,
        OrganType::Harvester => 0,
        OrganType::Sporer => 1,
        OrganType::Tentacle => 0,
    }
}

/// How many units of protein B growing this kind costs.
pub open spec fn cost_b(t: OrganType) -> int {
    match t {
        OrganType::Root => 0,
        OrganType::Basic => 0,
        OrganType::Harvester => 1,
        OrganType::Sporer => 1,
        OrganType::Tentacle => 1,
    }
}

/// How many units of protein C growing this kind costs.
pub open spec fn cost_c(t: OrganType) -> int {
    match t {
        OrganType::Root => 0,
        OrganType::Basic => 0,
        OrganType::Harvester => 1,
        OrganType::Sporer => 0,
        OrganType::Tentacle => 0,
    }
}

/// How many units of protein D growing this kind costs.
pub open spec fn cost_d(t: OrganType) -> int {
    match t {
        OrganType::Root => 0,
        OrganType::Basic => 1,
        OrganType::Harvester => 0,
        OrganType::Sporer => 0,
        OrganType::Tentacle => 1,
    }
}

impl OrganType {
    /// Decodes an organ kind from its protocol name. Any other string is a
    /// caller error, excluded up front.
    pub fn from_str(s: &str) -> (r: OrganType)
        requires
            s@ == "ROOT"@ || s@ == "BASIC"@ || s@ == "HARVESTER"@ || s@ == "SPORER"@
                || s@ == "TENTACLE"@,
        ensures
            r == type_of_str(s@),
    {
        proof {
            reveal_strlit("ROOT");
            reveal_strlit("BASIC");
            reveal_strlit("HARVESTER");
            reveal_strlit("SPORER");
            reveal_strlit("TENTACLE");
        }
        let c = s.get_char(0);
        if c == 'R' {
            OrganType::Root
        } else if c == 'B' {
            OrganType::Basic
        } else if c == 'H' {
            OrganType::Harvester
        } else if c == 'S' {
            OrganType::Sporer
        } else {
            OrganType::Tentacle
        }
    }

    /// Decodes an organ kind from its packed code. Codes above 4 are a caller
    /// error, excluded up front.
    pub fn from_index(i: usize) -> (r: OrganType)
        requires
            i <= 4,
        ensures
            r == type_of_code(i as int),
    {
        if i == 0 {
            OrganType::Basic
        } else if i == 1 {
            OrganType::Harvester
        } else if i == 2 {
            OrganType::Sporer
        } else if i == 3 {
            OrganType::Tentacle
        } else {
            OrganType::Root
        }
    }

    /// The protocol name of this organ kind.
    pub fn to_str(&self) -> (r: &str)
        ensures
            r@ == kind_name(*self),
    {
        match self {
            OrganType::Root => "ROOT",
            OrganType::Basic => "BASIC",
            OrganType::Harvester => "HARVESTER",
            OrganType::Sporer => "SPORER",
            OrganType::Tentacle => "TENTACLE",
        }
    }

    /// The protein cost of growing this kind, packed as a wallet value with
    /// one count per kind lane: roots are free, the other kinds cost one
    /// unit of each of their listed proteins.
    pub fn get_cost(&self) -> (r: u32)
        ensures
            r == cost_a(*self) + 256 * cost_b(*self) + 65536 * cost_c(*self) + 16777216 * cost_d(
                *self,
            ),
    {
        match self {
            OrganType::Root => 0x00_00_00_00,
            OrganType::Basic => 0x01_00_00_00,
            OrganType::Harvester => 0x00_01_01_00,
            OrganType::Sporer => 0x00_00_01_01,
            OrganType::Tentacle => 0x01_00_01_00,
        }
    }

    /// A stable small index for this kind, with roots first.
    pub fn get_index(&self) -> (r: u8)
        ensures
            r == (match *self {
                OrganType::Root => 0int,
                OrganType::Basic => 1,
                OrganType::Harvester => 2,
                OrganType::Sporer => 3,
                OrganType::Tentacle => 4,
            }),
    {
        match self {
            OrganType::Root => 0,
            OrganType::Basic => 1,
            OrganType::Harvester => 2,
            OrganType::Sporer => 3,
            OrganType::Tentacle => 4,
        }
    }
}

} // verus!
