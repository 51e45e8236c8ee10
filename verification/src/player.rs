//! Per-player state: the id, the protein wallet, and the sets of coordinates
//! the player owns organs and roots at, mirrored from the judge's broadcast
//! state each turn.

use vstd::prelude::*;
use std::collections::HashSet;
use crate::coord::Coord;
use crate::organ::{self, Organ};
use crate::organ_type::{self, OrganType};
use crate::protein::Protein;
use crate::protein_wallet::{self, ProteinWallet};

verus! {

broadcast use vstd::std_specs::hash::group_hash_axioms;

pub struct Player {
    id: u8,
    wallet: ProteinWallet,
    organs: HashSet<Coord>,
    roots: HashSet<Coord>,
}

impl Player {
    /// The player's id.
    pub closed spec fn spec_id(&self) -> u8 {
        self.id
    }

    /// The player's packed protein wallet.
    pub closed spec fn spec_wallet(&self) -> ProteinWallet {
        self.wallet
    }

    /// The coordinates the player owns organs at.
    pub closed spec fn spec_organs(&self) -> Set<Coord> {
        self.organs@
    }

    /// The coordinates the player owns roots at.
    pub closed spec fn spec_roots(&self) -> Set<Coord> {
        self.roots@
    }

    /// Creates a player with an empty wallet and no organs.
    pub fn new(id: u8) -> (p: Player)
        ensures
            p.spec_id() == id,
            forall|q: Protein| protein_wallet::lane(p.spec_wallet(), q) == 0,
            p.spec_organs() == Set::<Coord>::empty(),
            p.spec_roots() == Set::<Coord>::empty(),
    {
        Player { id, wallet: 0, organs: HashSet::new(), roots: HashSet::new() }
    }

    /// Records an organ of this player at `coord`; a root is also recorded in
    /// the root set.
    pub fn add_organ(&mut self, coord: Coord, organ: Organ)
        ensures
            final(self).spec_id() == old(self).spec_id(),
            final(self).spec_wallet() == old(self).spec_wallet(),
            final(self).spec_organs() == old(self).spec_organs().insert(coord),
            final(self).spec_roots() == if organ::organ_type_code(organ) == organ_type::type_code(
                OrganType::Root,
            ) {
                old(self).spec_roots().insert(coord)
            } else {
                old(self).spec_roots()
            },
    {
        self.organs.insert(coord);
        if organ::is_root(organ) {
            self.roots.insert(coord);
        }
    }

    /// Whether the player's wallet affords growing the given organ kind.
    pub fn can_buy(&self, organ_type: OrganType) -> (r: bool)
        ensures
            r == protein_wallet::spec_can_buy(self.spec_wallet(), organ_type),
    {
        protein_wallet::can_buy_organ(self.wallet, organ_type)
    }

    /// The id of the opposing player.
    pub fn get_opponent_id(&self) -> (r: u8)
        ensures
            r == (if self.spec_id() == 0 {
                1u8
            } else {
                0u8
            }),
    {
        if self.id == 0 {
            1
        } else {
            0
        }
    }

    /// Forgets the organ and root records at `coord`.
    pub fn remove_organ(&mut self, coord: Coord)
        ensures
            final(self).spec_id() == old(self).spec_id(),
            final(self).spec_wallet() == old(self).spec_wallet(),
            final(self).spec_organs() == old(self).spec_organs().remove(coord),
            final(self).spec_roots() == old(self).spec_roots().remove(coord),
    {
        self.organs.remove(&coord);
        self.roots.remove(&coord);
    }

    /// Records a root of this player at `coord`.
    pub fn add_root(&mut self, coord: Coord)
        ensures
            final(self).spec_id() == old(self).spec_id(),
            final(self).spec_wallet() == old(self).spec_wallet(),
            final(self).spec_organs() == old(self).spec_organs().insert(coord),
            final(self).spec_roots() == old(self).spec_roots().insert(coord),
    {
        self.roots.insert(coord);
        self.organs.insert(coord);
    }

    /// Adds harvested protein to the wallet. A count that would leave its
    /// 8-bit lane is a caller error, excluded up front.
    pub fn add_protein(&mut self, protein: Protein, amount: u32)
        requires
            protein_wallet::lane(old(self).spec_wallet(), protein) + amount <= 255,
        ensures
            final(self).spec_id() == old(self).spec_id(),
            final(self).spec_organs() == old(self).spec_organs(),
            final(self).spec_roots() == old(self).spec_roots(),
            protein_wallet::lane(final(self).spec_wallet(), protein) == protein_wallet::lane(
                old(self).spec_wallet(),
                protein,
            ) + amount,
            forall|q: Protein|
                q != protein ==> protein_wallet::lane(final(self).spec_wallet(), q)
                    == protein_wallet::lane(old(self).spec_wallet(), q),
    {
        protein_wallet::add(&mut self.wallet, protein, amount);
    }

    /// Spends protein from the wallet. Spending more than the wallet holds is
    /// a caller error, excluded up front.
    pub fn remove_protein(&mut self, protein: Protein, amount: u32)
        requires
            amount <= protein_wallet::lane(old(self).spec_wallet(), protein),
        ensures
            final(self).spec_id() == old(self).spec_id(),
            final(self).spec_organs() == old(self).spec_organs(),
            final(self).spec_roots() == old(self).spec_roots(),
            protein_wallet::lane(final(self).spec_wallet(), protein) == protein_wallet::lane(
                old(self).spec_wallet(),
                protein,
            ) - amount,
            forall|q: Protein|
                q != protein ==> protein_wallet::lane(final(self).spec_wallet(), q)
                    == protein_wallet::lane(old(self).spec_wallet(), q),
    {
        protein_wallet::remove(&mut self.wallet, protein, amount);
    }

    /// How much the wallet holds of one protein kind.
    pub fn get_nb_protein(&self, protein: Protein) -> (r: u32)
        ensures
            r == protein_wallet::lane(self.spec_wallet(), protein),
    {
        protein_wallet::get(self.wallet, protein) as u32
    }

    /// The player's id.
    pub fn get_id(&self) -> (r: u8)
        ensures
            r == self.spec_id(),
    {
        self.id
    }

    /// The coordinates the player owns roots at.
    pub fn get_roots(&self) -> (r: &HashSet<Coord>)
        ensures
            r@ == self.spec_roots(),
    {
        &self.roots
    }

    /// The coordinates the player owns organs at.
    pub fn get_organs(&self) -> (r: &HashSet<Coord>)
        ensures
            r@ == self.spec_organs(),
    {
        &self.organs
    }

    /// The player's score: how many organs it owns.
    pub fn get_score(&self) -> (r: u32)
        ensures
            r == self.spec_organs().len() as u32,
    {
        self.organs.len() as u32
    }

    /// The player's packed protein wallet.
    pub fn get_wallet(&self) -> (r: ProteinWallet)
        ensures
            r == self.spec_wallet(),
    {
        self.wallet
    }
}

} // verus!
