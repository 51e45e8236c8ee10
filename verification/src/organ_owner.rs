//! The owner tag attached to an entity line of the turn protocol.

use vstd::prelude::*;

verus! {

#[derive(Debug, Clone, Copy, PartialEq, Eq, Structural)]
pub enum OrganeOwner {
    PlayerOwner,
    EnemyOwner,
    NotOrgan,
}

impl OrganeOwner {
    /// Decodes an owner tag from its protocol integer: 1 for the player, 0
    /// for the enemy, -1 for a cell that is no organ. Other integers are a
    /// caller error, excluded up front.
    pub fn from_i32(i: i32) -> (r: Option<OrganeOwner>)
        requires
            i == 1 || i == 0 || i == -1,
        ensures
            r == Some(
                if i == 1 {
                    OrganeOwner::PlayerOwner
                } else if i == 0 {
                    OrganeOwner::EnemyOwner
                } else {
                    OrganeOwner::NotOrgan
                },
            ),
    {
        if i == 1 {
            Some(OrganeOwner::PlayerOwner)
        } else if i == 0 {
            Some(OrganeOwner::EnemyOwner)
        } else {
            Some(OrganeOwner::NotOrgan)
        }
    }
}

} // verus!
