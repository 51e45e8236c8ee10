//! The four protein resource kinds players harvest and spend to grow organs.

use vstd::prelude::*;

verus! {

#[derive(Debug, Clone, Copy, PartialEq, Eq, Hash, Structural)]
pub enum Protein {
    A,
    B,
    C,
    D,
}

/// The numeric id a protein kind is stored under in packed encodings.
pub open spec fn protein_id(p: Protein) -> int {
    match p {
        Protein::A => 0,
        Protein::B => 1,
        Protein::C => 2,
        Protein::D => 3,
    }
}

/// The protein kind a numeric id decodes to.
pub open spec fn protein_of_id(id: int) -> Protein {
    if id == 0 {
        Protein::A
    } else if id == 1 {
        Protein::B
    } else if id == 2 {
        Protein::C
    } else {
        Protein::D
    }
}

/// The one-letter name of a protein kind.
pub open spec fn protein_name(p: Protein) -> Seq<char> {
    match p {
        Protein::A => "A"@,
        Protein::B => "B"@,
        Protein::C => "C"@,
        Protein::D => "D"@,
    }
}

/// The protein kind a one-letter name decodes to.
pub open spec fn protein_of_str(s: Seq<char>) -> Protein {
    if s == "A"@ {
        Protein::A
    } else if s == "B"@ {
        Protein::B
    } else if s == "C"@ {
        Protein::C
    } else {
        Protein::D
    }
}

impl Protein {
    /// Decodes a protein kind from its one-letter name. Any other string is a
    /// caller error, excluded up front.
    pub fn from_str(s: &str) -> (r: Option<Protein>)
        requires
            s@ == "A"@ || s@ == "B"@ || s@ == "C"@ || s@ == "D"@,
        ensures
            r == Some(protein_of_str(s@)),
    {
        proof {
            reveal_strlit("A");
            reveal_strlit("B");
            reveal_strlit("C");
            reveal_strlit("D");
        }
        let c = s.get_char(0);
        if c == 'A' {
            Some(Protein::A)
        } else if c == 'B' {
            Some(Protein::B)
        } else if c == 'C' {
            Some(Protein::C)
        } else {
            Some(Protein::D)
        }
    }

    /// The one-letter name of this protein kind.
    pub fn to_str(&self) -> (r: &str)
        ensures
            r@ == protein_name(*self),
    {
        match self {
            Protein::A => "A",
            Protein::B => "B",
            Protein::C => "C",
            Protein::D => "D",
        }
    }

    /// Decodes a protein kind from its numeric id. Ids above 3 are a caller
    /// error, excluded up front.
    pub fn from_id(id: u8) -> (r: Option<Protein>)
        requires
            id <= 3,
        ensures
            r == Some(protein_of_id(id as int)),
    {
        if id == 0 {
            Some(Protein::A)
        } else if id == 1 {
            Some(Protein::B)
        } else if id == 2 {
            Some(Protein::C)
        } else {
            Some(Protein::D)
        }
    }

    /// The numeric id of this protein kind.
    pub fn to_id(&self) -> (r: u8)
        ensures
            r == protein_id(*self),
    {
        match self {
            Protein::A => 0,
            Protein::B => 1,
            Protein::C => 2,
            Protein::D => 3,
        }
    }
}

} // verus!
