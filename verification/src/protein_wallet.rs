//! Protein ledger: four bounded resource counters packed into one integer,
//! one 8-bit lane per protein kind, with affordability checks against the
//! organ cost table.

use vstd::prelude::*;
use vstd::arithmetic::div_mod::{lemma_fundamental_div_mod, lemma_fundamental_div_mod_converse};
use crate::protein::Protein;
use crate::organ_type::{self, OrganType};

verus! {

/// Four protein counters packed into one integer: the count of kind A in the
/// lowest 8 bits, then B, C, and D in the higher lanes.
pub type ProteinWallet = u32;

/// The count the wallet holds of one protein kind.
pub open spec fn lane(w: ProteinWallet, p: Protein) -> int {
    match p {
        Protein::A => (w as int) % 256,
        Protein::B => ((w as int) / 256) % 256,
        Protein::C => (((w as int) / 256) / 256) % 256,
        Protein::D => (((w as int) / 256) / 256) / 256,
    }
}

/// Whether a wallet holds at least the cost of growing the given organ kind,
/// kind by kind.
pub open spec fn spec_can_buy(w: ProteinWallet, t: OrganType) -> bool {
    &&& lane(w, Protein::A) >= organ_type::cost_a(t)
    &&& lane(w, Protein::B) >= organ_type::cost_b(t)
    &&& lane(w, Protein::C) >= organ_type::cost_c(t)
    &&& lane(w, Protein::D) >= organ_type::cost_d(t)
}

/// A wallet splits into its four lanes, each an 8-bit count.
proof fn lemma_wallet_lanes(w: u32)
    ensures
        w == lane(w, Protein::A) + 256 * lane(w, Protein::B) + 65536 * lane(w, Protein::C)
            + 16777216 * lane(w, Protein::D),
        0 <= lane(w, Protein::A) < 256,
        0 <= lane(w, Protein::B) < 256,
        0 <= lane(w, Protein::C) < 256,
        0 <= lane(w, Protein::D) < 256,
{
    lemma_fundamental_div_mod(w as int, 256);
    lemma_fundamental_div_mod((w as int) / 256, 256);
    lemma_fundamental_div_mod(((w as int) / 256) / 256, 256);
}

/// The wallet whose four lanes hold the given 8-bit counts.
proof fn lemma_wallet_compose(a: int, b: int, c: int, d: int)
    requires
        0 <= a < 256,
        0 <= b < 256,
        0 <= c < 256,
        0 <= d < 256,
    ensures
        ({
            let w = a + 256 * b + 65536 * c + 16777216 * d;
            &&& 0 <= w <= u32::MAX
            &&& lane(w as u32, Protein::A) == a
            &&& lane(w as u32, Protein::B) == b
            &&& lane(w as u32, Protein::C) == c
            &&& lane(w as u32, Protein::D) == d
        }),
{
    let w = a + 256 * b + 65536 * c + 16777216 * d;
    let q1 = b + 256 * c + 65536 * d;
    lemma_fundamental_div_mod_converse(w, 256, q1, a);
    let q2 = c + 256 * d;
    lemma_fundamental_div_mod_converse(q1, 256, q2, b);
    lemma_fundamental_div_mod_converse(q2, 256, d, c);
}

/// An empty wallet.
pub fn new() -> (w: ProteinWallet)
    ensures
        forall|p: Protein| lane(w, p) == 0,
{
    0
}

/// Reads the count of one protein kind.
pub fn get(wallet: ProteinWallet, protein_type: Protein) -> (r: u8)
    ensures
        r == lane(wallet, protein_type),
{
    proof {
        lemma_wallet_lanes(wallet);
    }
    match protein_type {
        Protein::A => (wallet % 256) as u8,
        Protein::B => ((wallet / 256) % 256) as u8,
        Protein::C => (((wallet / 256) / 256) % 256) as u8,
        Protein::D => (((wallet / 256) / 256) / 256) as u8,
    }
}

/// Adds `amount` units of one protein kind. A count that would leave its
/// 8-bit lane is a caller error, excluded up front.
pub fn add(wallet: &mut ProteinWallet, protein_type: Protein, amount: u32)
    requires
        lane(*old(wallet), protein_type) + amount <= 255,
    ensures
        lane(*final(wallet), protein_type) == lane(*old(wallet), protein_type) + amount,
        forall|q: Protein|
            q != protein_type ==> lane(*final(wallet), q) == lane(*old(wallet), q),
{
    let ghost a = lane(*wallet, Protein::A);
    let ghost b = lane(*wallet, Protein::B);
    let ghost c = lane(*wallet, Protein::C);
    let ghost d = lane(*wallet, Protein::D);
    proof {
        lemma_wallet_lanes(*wallet);
        match protein_type {
            Protein::A => lemma_wallet_compose(a + amount, b, c, d),
            Protein::B => lemma_wallet_compose(a, b + amount, c, d),
            Protein::C => lemma_wallet_compose(a, b, c + amount, d),
            Protein::D => lemma_wallet_compose(a, b, c, d + amount),
        }
    }
    match protein_type {
        Protein::A => {
            *wallet = *wallet + amount;
        },
        Protein::B => {
            *wallet = *wallet + amount * 256;
        },
        Protein::C => {
            *wallet = *wallet + amount * 65536;
        },
        Protein::D => {
            *wallet = *wallet + amount * 16777216;
        },
    }
}

/// Removes `amount` units of one protein kind. Removing more than the wallet
/// holds is a caller error, excluded up front.
pub fn remove(wallet: &mut ProteinWallet, protein_type: Protein, amount: u32)
    requires
        amount <= lane(*old(wallet), protein_type),
    ensures
        lane(*final(wallet), protein_type) == lane(*old(wallet), protein_type) - amount,
        forall|q: Protein|
            q != protein_type ==> lane(*final(wallet), q) == lane(*old(wallet), q),
{
    let ghost a = lane(*wallet, Protein::A);
    let ghost b = lane(*wallet, Protein::B);
    let ghost c = lane(*wallet, Protein::C);
    let ghost d = lane(*wallet, Protein::D);
    proof {
        lemma_wallet_lanes(*wallet);
        match protein_type {
            Protein::A => lemma_wallet_compose(a - amount, b, c, d),
            Protein::B => lemma_wallet_compose(a, b - amount, c, d),
            Protein::C => lemma_wallet_compose(a, b, c - amount, d),
            Protein::D => lemma_wallet_compose(a, b, c, d - amount),
        }
    }
    match protein_type {
        Protein::A => {
            *wallet = *wallet - amount;
        },
        Protein::B => {
            *wallet = *wallet - amount * 256;
        },
        Protein::C => {
            *wallet = *wallet - amount * 65536;
        },
        Protein::D => {
            *wallet = *wallet - amount * 16777216;
        },
    }
}

/// Whether the wallet can afford to grow the given organ kind.
pub fn can_buy_organ(wallet: ProteinWallet, organ_type: OrganType) -> (r: bool)
    ensures
        r == spec_can_buy(wallet, organ_type),
{
    let cost = organ_type.get_cost();
    proof {
        lemma_wallet_compose(
            organ_type::cost_a(organ_type),
            organ_type::cost_b(organ_type),
            organ_type::cost_c(organ_type),
            organ_type::cost_d(organ_type),
        );
    }
    get(wallet, Protein::A) >= get(cost, Protein::A) && get(wallet, Protein::B) >= get(
        cost,
        Protein::B,
    ) && get(wallet, Protein::C) >= get(cost, Protein::C) && get(wallet, Protein::D) >= get(
        cost,
        Protein::D,
    )
}

/// Pays the cost of growing the given organ kind out of the wallet. An
/// unaffordable purchase is a caller error, excluded up front.
pub fn buy_organ(wallet: &mut ProteinWallet, organ_type: OrganType)
    requires
        spec_can_buy(*old(wallet), organ_type),
    ensures
        lane(*final(wallet), Protein::A) == lane(*old(wallet), Protein::A) - organ_type::cost_a(
            organ_type,
        ),
        lane(*final(wallet), Protein::B) == lane(*old(wallet), Protein::B) - organ_type::cost_b(
            organ_type,
        ),
        lane(*final(wallet), Protein::C) == lane(*old(wallet), Protein::C) - organ_type::cost_c(
            organ_type,
        ),
        lane(*final(wallet), Protein::D) == lane(*old(wallet), Protein::D) - organ_type::cost_d(
            organ_type,
        ),
{
    let cost = organ_type.get_cost();
    proof {
        lemma_wallet_compose(
            organ_type::cost_a(organ_type),
            organ_type::cost_b(organ_type),
            organ_type::cost_c(organ_type),
            organ_type::cost_d(organ_type),
        );
    }
    remove(wallet, Protein::A, get(cost, Protein::A) as u32);
    remove(wallet, Protein::B, get(cost, Protein::B) as u32);
    remove(wallet, Protein::C, get(cost, Protein::C) as u32);
    remove(wallet, Protein::D, get(cost, Protein::D) as u32);
}

/// Law: a wallet affords a tentacle exactly when it holds at least one unit
/// of protein B and one of protein D.
pub proof fn lemma_tentacle_affordability(w: ProteinWallet)
    ensures
        spec_can_buy(w, OrganType::Tentacle) == (lane(w, Protein::B) >= 1 && lane(w, Protein::D)
            >= 1),
{
    lemma_wallet_lanes(w);
}

} // verus!

