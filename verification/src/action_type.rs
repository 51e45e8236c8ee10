//! The kind of move a player can emit each turn: wait, grow an organ, or
//! launch a spore.

use vstd::prelude::*;

verus! {

#[derive(Debug, Clone, Copy, PartialEq, Eq, Structural)]
pub enum ActionType {
    Wait,
    Growth,
    Sporer,
}

/// The numeric code an action kind is stored under in packed encodings.
pub open spec fn action_code(t: ActionType) -> int {
    match t {
        ActionType::Wait => 0,
        ActionType::Growth => 1,
        ActionType::Sporer => 2,
    }
}

/// The action kind a numeric code decodes to.
pub open spec fn action_of_code(code: int) -> ActionType {
    if code == 0 {
        ActionType::Wait
    } else if code == 1 {
        ActionType::Growth
    } else {
        ActionType::Sporer
    }
}

/// The protocol name of an action kind.
pub open spec fn action_name(t: ActionType) -> Seq<char> {
    match t {
        ActionType::Wait => "WAIT"@,
        ActionType::Growth => "GROWTH"@,
        ActionType::Sporer => "SPORER"@,
    }
}

/// The action kind a protocol name decodes to.
pub open spec fn action_of_str(s: Seq<char>) -> ActionType {
    if s == "WAIT"@ {
        ActionType::Wait
    } else if s == "GROWTH"@ {
        ActionType::Growth
    } else {
        ActionType::Sporer
    }
}

impl ActionType {
    /// Decodes an action kind from its protocol name. Any other string is a
    /// caller error, excluded up front.
    pub fn from_str(s: &str) -> (r: ActionType)
        requires
            s@ == "WAIT"@ || s@ == "GROWTH"@ || s@ == "SPORER"@,
        ensures
            r == action_of_str(s@),
    {
        proof {
            reveal_strlit("WAIT");
            reveal_strlit("GROWTH");
            reveal_strlit("SPORER");
        }
        let c = s.get_char(0);
        if c == 'W' {
            ActionType::Wait
        } else if c == 'G' {
            ActionType::Growth
        } else {
            ActionType::Sporer
        }
    }

    /// Decodes an action kind from its packed code. Codes above 2 are a
    /// caller error, excluded up front.
    pub fn from_index(i: usize) -> (r: ActionType)
        requires
            i <= 2,
        ensures
            r == action_of_code(i as int),
    {
        if i == 0 {
            ActionType::Wait
        } else if i == 1 {
            ActionType::Growth
        } else {
            ActionType::Sporer
        }
    }

    /// The protocol name of this action kind.
    pub fn to_str(&self) -> (r: &str)
        ensures
            r@ == action_name(*self),
    {
        match self {
            ActionType::Wait => "WAIT",
            ActionType::Growth => "GROWTH",
            ActionType::Sporer => "SPORER",
        }
    }

    /// The packed code of this action kind.
    pub fn get_index(&self) -> (r: u8)
        ensures
            r == action_code(*self),
    {
        match self {
            ActionType::Wait => 0,
            ActionType::Growth => 1,
            ActionType::Sporer => 2,
        }
    }
}

} // verus!
