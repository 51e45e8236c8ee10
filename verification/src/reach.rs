//! Reachability through the connectivity map: which coordinates lie in the
//! subtree recorded below a given organ. Cascading removal is specified and
//! proved against these definitions.

use vstd::prelude::*;
use crate::coord::Coord;

verus! {

/// One growth link: the entry of `a` records `b` as a child.
pub open spec fn kid_edge(kids: Map<Coord, Seq<Coord>>, a: Coord, b: Coord) -> bool {
    kids.dom().contains(a) && kids[a].contains(b)
}

/// Whether `b` lies at most `n` links below `a`.
pub open spec fn reach_n(kids: Map<Coord, Seq<Coord>>, a: Coord, b: Coord, n: nat) -> bool
    decreases n,
{
    a == b || (n > 0 && exists|mid: Coord|
        kid_edge(kids, a, mid) && reach_n(kids, mid, b, (n - 1) as nat))
}

/// Whether `b` lies in the subtree below `a`, `a` itself included.
pub open spec fn reaches(kids: Map<Coord, Seq<Coord>>, a: Coord, b: Coord) -> bool {
    exists|n: nat| reach_n(kids, a, b, n)
}

/// The set of coordinates in the subtree below `a`, `a` itself included.
pub open spec fn reach_set(kids: Map<Coord, Seq<Coord>>, a: Coord) -> Set<Coord> {
    Set::new(|b: Coord| reaches(kids, a, b))
}

/// Every coordinate reaches itself.
pub proof fn lemma_reach_refl(kids: Map<Coord, Seq<Coord>>, a: Coord)
    ensures
        reaches(kids, a, a),
{
    assert(reach_n(kids, a, a, 0));
}

/// A link below a reachable coordinate stays reachable.
pub proof fn lemma_reach_step(kids: Map<Coord, Seq<Coord>>, a: Coord, b: Coord, c: Coord)
    requires
        reaches(kids, a, b),
        kid_edge(kids, b, c),
    ensures
        reaches(kids, a, c),
{
    let n = choose|n: nat| reach_n(kids, a, b, n);
    lemma_reach_n_step(kids, a, b, c, n);
    assert(reach_n(kids, a, c, (n + 1) as nat));
}

proof fn lemma_reach_n_step(kids: Map<Coord, Seq<Coord>>, a: Coord, b: Coord, c: Coord, n: nat)
    requires
        reach_n(kids, a, b, n),
        kid_edge(kids, b, c),
    ensures
        reach_n(kids, a, c, (n + 1) as nat),
    decreases n,
{
    if a == b {
        assert(reach_n(kids, c, c, n));
    } else {
        let mid = choose|mid: Coord| kid_edge(kids, a, mid) && reach_n(kids, mid, b, (n - 1) as nat);
        lemma_reach_n_step(kids, mid, b, c, (n - 1) as nat);
    }
}

/// A set that contains `a` and is closed under links contains everything the
/// subtree below `a` reaches.
pub proof fn lemma_closed_set_covers(
    kids: Map<Coord, Seq<Coord>>,
    p: Set<Coord>,
    a: Coord,
    b: Coord,
)
    requires
        p.contains(a),
        forall|d: Coord, e: Coord|
            p.contains(d) && #[trigger] kid_edge(kids, d, e) ==> p.contains(e),
        reaches(kids, a, b),
    ensures
        p.contains(b),
{
    let n = choose|n: nat| reach_n(kids, a, b, n);
    lemma_closed_set_covers_n(kids, p, a, b, n);
}

proof fn lemma_closed_set_covers_n(
    kids: Map<Coord, Seq<Coord>>,
    p: Set<Coord>,
    a: Coord,
    b: Coord,
    n: nat,
)
    requires
        p.contains(a),
        forall|d: Coord, e: Coord|
            p.contains(d) && #[trigger] kid_edge(kids, d, e) ==> p.contains(e),
        reach_n(kids, a, b, n),
    ensures
        p.contains(b),
    decreases n,
{
    if a == b {
    } else {
        let mid = choose|mid: Coord| kid_edge(kids, a, mid) && reach_n(kids, mid, b, (n - 1) as nat);
        lemma_closed_set_covers_n(kids, p, mid, b, (n - 1) as nat);
    }
}

/// A coordinate with no connectivity entry reaches only itself.
pub proof fn lemma_reach_no_entry(kids: Map<Coord, Seq<Coord>>, a: Coord)
    requires
        !kids.dom().contains(a),
    ensures
        forall|b: Coord| reaches(kids, a, b) <==> b == a,
{
    lemma_reach_refl(kids, a);
    assert forall|b: Coord| reaches(kids, a, b) implies b == a by {
        let p = Set::new(|d: Coord| d == a);
        lemma_closed_set_covers(kids, p, a, b);
    }
}

/// What a one-entry map whose entry holds one child reaches: the parent
/// reaches itself and the child, and the child only itself, as long as the
/// child has no entry of its own.
pub proof fn lemma_reach_single_link(kids: Map<Coord, Seq<Coord>>, a: Coord, b: Coord)
    requires
        kids.dom() =~= set![a],
        kids[a] =~= seq![b],
        b != a,
    ensures
        forall|d: Coord| reaches(kids, a, d) <==> (d == a || d == b),
        forall|d: Coord| reaches(kids, b, d) <==> d == b,
{
    lemma_reach_refl(kids, a);
    assert(kid_edge(kids, a, b)) by {
        assert(kids[a][0] == b);
    }
    lemma_reach_step(kids, a, a, b);
    assert(!kids.dom().contains(b));
    lemma_reach_no_entry(kids, b);
    assert forall|d: Coord| reaches(kids, a, d) implies (d == a || d == b) by {
        let p = Set::new(|e: Coord| e == a || e == b);
        assert forall|x: Coord, e: Coord|
            p.contains(x) && #[trigger] kid_edge(kids, x, e) implies p.contains(e) by {
            if x == a {
                assert(kids[a].contains(e));
                assert(kids[a][choose|i: int| 0 <= i < kids[a].len() && kids[a][i] == e] == e);
            }
        }
        lemma_closed_set_covers(kids, p, a, d);
    }
}


/// What a map with one childless entry and one single-child entry reaches
/// from the single-child parent: itself and its child.
pub proof fn lemma_reach_single_link_from(
    kids: Map<Coord, Seq<Coord>>,
    a: Coord,
    b: Coord,
    other: Coord,
)
    requires
        kids.dom() =~= set![other, a],
        kids[a] =~= seq![b],
        kids[other] =~= Seq::<Coord>::empty(),
        a != b,
        other != a,
        other != b,
    ensures
        forall|d: Coord| reaches(kids, a, d) <==> (d == a || d == b),
{
    lemma_reach_refl(kids, a);
    assert(kid_edge(kids, a, b)) by {
        assert(kids[a][0] == b);
    }
    lemma_reach_step(kids, a, a, b);
    assert forall|d: Coord| reaches(kids, a, d) implies (d == a || d == b) by {
        let p = Set::new(|e: Coord| e == a || e == b);
        assert forall|x: Coord, e: Coord|
            p.contains(x) && #[trigger] kid_edge(kids, x, e) implies p.contains(e) by {
            if x == a {
                assert(kids[a].contains(e));
                assert(kids[a][choose|i: int| 0 <= i < kids[a].len() && kids[a][i] == e] == e);
            } else {
                assert(x == b);
                assert(!kids.dom().contains(b));
            }
        }
        lemma_closed_set_covers(kids, p, a, d);
    }
}

} // verus!
