//! Placement search and move choice: enumerates the frontier cells an
//! organism could grow into this turn and picks a growth action by a fixed
//! tactical priority.

use vstd::prelude::*;
use crate::action::{self, Action};
use crate::action_type::{self, ActionType};
use crate::cell;
use crate::coord::{self, Coord};
use crate::grid::{self, Grid, GridModel};
use crate::organ::{self, Organ};
use crate::organ_direction::{self, OrganDirection};
use crate::organ_type::{self, OrganType};
use crate::player::Player;
use crate::protein_wallet;
use crate::reach;

verus! {

/// The probe organ used to test growth into a cell: a basic organ of player
/// zero attached to the organism rooted at `root`.
pub open spec fn probe_organ(root: Coord) -> Organ {
    organ::make_organ(
        0,
        OrganType::Basic,
        OrganDirection::North,
        root,
    )
}

/// The growth frontier below `current`: every in-bounds neighbor of an organ
/// in the recorded subtree of `current` where placement attached to the
/// organism rooted at `root` succeeds.
pub open spec fn growth_targets(m: GridModel, current: Coord, root: Coord) -> Set<Coord> {
    Set::new(
        |a: Coord|
            exists|d: Coord|
                #[trigger] reach::reaches(m.kids, current, d) && grid::spec_adjacent_coords(
                    m,
                    d,
                ).contains(a) && grid::spec_can_add_with_root(m, a, probe_organ(root)),
    )
}

/// The frontier cells contributed by the organs of `ds` alone.
pub open spec fn collected_from(m: GridModel, ds: Set<Coord>, root: Coord) -> Set<Coord> {
    Set::new(
        |a: Coord|
            exists|d: Coord|
                #[trigger] ds.contains(d) && grid::spec_adjacent_coords(m, d).contains(a)
                    && grid::spec_can_add_with_root(m, a, probe_organ(root)),
    )
}

/// How many connectivity keys are not yet marked.
pub open spec fn count_unseen(s: Seq<bool>) -> nat
    decreases s.len(),
{
    if s.len() == 0 {
        0
    } else {
        count_unseen(s.drop_last()) + (if s.last() {
            0nat
        } else {
            1nat
        })
    }
}

/// Marking one unmarked key lowers the unmarked count by one.
proof fn lemma_count_unseen_mark(s: Seq<bool>, i: int)
    requires
        0 <= i < s.len(),
        !s[i],
    ensures
        count_unseen(s.update(i, true)) + 1 == count_unseen(s),
    decreases s.len(),
{
    let s2 = s.update(i, true);
    if i == s.len() - 1 {
        assert(s2.drop_last() =~= s.drop_last());
    } else {
        lemma_count_unseen_mark(s.drop_last(), i);
        assert(s2.drop_last() =~= s.drop_last().update(i, true));
        assert(s2.last() == s.last());
    }
}

/// Whether the recorded list holds `c`.
fn vec_contains(v: &Vec<Coord>, c: Coord) -> (r: bool)
    ensures
        r == v@.contains(c),
{
    let mut i: usize = 0;
    while i < v.len()
        invariant
            i <= v@.len(),
            forall|j: int| 0 <= j < i ==> v@[j] != c,
        decreases v@.len() - i,
    {
        if v[i] == c {
            return true;
        }
        i = i + 1;
    }
    false
}

/// The frontier cells one organ at `d` contributes: its in-bounds neighbors
/// where placement attached to the organism rooted at `root` succeeds.
pub open spec fn passing_set(m: GridModel, d: Coord, root: Coord) -> Set<Coord> {
    Set::new(
        |a: Coord|
            grid::spec_adjacent_coords(m, d).contains(a) && grid::spec_can_add_with_root(
                m,
                a,
                probe_organ(root),
            ),
    )
}

/// Adding one organ to a set of sources adds exactly its own frontier cells.
proof fn lemma_collected_insert(m: GridModel, ds: Set<Coord>, d: Coord, root: Coord)
    ensures
        collected_from(m, ds.insert(d), root) =~= collected_from(m, ds, root).union(
            passing_set(m, d, root),
        ),
{
    assert forall|a: Coord|
        collected_from(m, ds.insert(d), root).contains(a) == (collected_from(
            m,
            ds,
            root,
        ).contains(a) || passing_set(m, d, root).contains(a)) by {
        if collected_from(m, ds.insert(d), root).contains(a) {
            let dd = choose|dd: Coord|
                #[trigger] ds.insert(d).contains(dd) && grid::spec_adjacent_coords(
                    m,
                    dd,
                ).contains(a) && grid::spec_can_add_with_root(m, a, probe_organ(root));
            if dd != d {
                assert(ds.contains(dd));
            }
        }
        if collected_from(m, ds, root).contains(a) {
            let dd = choose|dd: Coord|
                #[trigger] ds.contains(dd) && grid::spec_adjacent_coords(m, dd).contains(a)
                    && grid::spec_can_add_with_root(m, a, probe_organ(root));
            assert(ds.insert(d).contains(dd));
        }
        if passing_set(m, d, root).contains(a) {
            assert(ds.insert(d).contains(d));
        }
    }
}

/// Appends to `possible` every frontier cell the organ at `d` contributes,
/// skipping those already recorded.
fn collect_passing(grid: &Grid, d: Coord, root_coord: Coord, possible: &mut Vec<Coord>)
    requires
        grid.inv(),
        forall|i: int|
            0 <= i < old(possible)@.len() ==> grid::coord_ok(grid@, #[trigger] old(possible)@[i]),
    ensures
        final(possible)@.to_set() == old(possible)@.to_set().union(
            passing_set(grid@, d, root_coord),
        ),
        forall|i: int|
            0 <= i < final(possible)@.len() ==> grid::coord_ok(grid@, #[trigger] final(possible)@[i]),
{
    let ghost m = grid@;
    proof {
        grid.lemma_size_bounds();
        grid::lemma_adjacent_in_key_space(m, d);
    }
    let basic = organ::new(0, OrganType::Basic, OrganDirection::North, root_coord);
    let adj = grid.get_adjacent_coords(d);
    let mut j: usize = 0;
    while j < adj.len()
        invariant
            grid.inv(),
            adj@ == grid::spec_adjacent_coords(m, d),
            basic == probe_organ(root_coord),
            m == grid@,
            j <= adj@.len(),
            forall|jj: int| 0 <= jj < adj@.len() ==> grid::coord_ok(m, #[trigger] adj@[jj]),
            forall|i: int|
                0 <= i < possible@.len() ==> grid::coord_ok(m, #[trigger] possible@[i]),
            forall|b: Coord| old(possible)@.contains(b) ==> possible@.contains(b),
            forall|b: Coord|
                #[trigger] possible@.contains(b) ==> old(possible)@.contains(b) || passing_set(
                    m,
                    d,
                    root_coord,
                ).contains(b),
            forall|jj: int|
                0 <= jj < j && grid::spec_can_add_with_root(
                    m,
                    #[trigger] adj@[jj],
                    probe_organ(root_coord),
                ) ==> possible@.contains(adj@[jj]),
        decreases adj@.len() - j,
    {
        let a = adj[j];
        let ghost poss_before = possible@;
        if grid.can_add_organ_with_root_coord(a, basic) && !vec_contains(possible, a) {
            possible.push(a);
            proof {
                assert(possible@[possible@.len() - 1] == a);
                assert(adj@[j as int] == a && adj@.contains(a));
                assert(passing_set(m, d, root_coord).contains(a));
                assert forall|b: Coord| poss_before.contains(b) implies possible@.contains(b) by {
                    let ii = choose|ii: int| 0 <= ii < poss_before.len() && poss_before[ii] == b;
                    assert(possible@[ii] == b);
                }
                assert forall|b: Coord| #[trigger] possible@.contains(b) implies
                    poss_before.contains(b) || b == a by {
                    let ii = choose|ii: int| 0 <= ii < possible@.len() && possible@[ii] == b;
                    if ii < poss_before.len() {
                        assert(poss_before[ii] == b);
                    }
                }
            }
        } else {
            proof {
                if grid::spec_can_add_with_root(m, a, probe_organ(root_coord)) {
                    assert(possible@.contains(a));
                }
            }
        }
        j = j + 1;
    }
    proof {
        assert forall|b: Coord|
            final(possible)@.to_set().contains(b) == old(possible)@.to_set().union(
                passing_set(m, d, root_coord),
            ).contains(b) by {
            if passing_set(m, d, root_coord).contains(b) {
                let jj = choose|jj: int| 0 <= jj < adj@.len() && adj@[jj] == b;
                assert(possible@.contains(adj@[jj]));
            }
        }
        assert(final(possible)@.to_set() =~= old(possible)@.to_set().union(
            passing_set(m, d, root_coord),
        ));
    }
}

/// Collects into `possible_coord` the whole growth frontier of the recorded
/// subtree below `current_coord`, for growth attached to the organism rooted
/// at `root_coord`, without repeating coordinates already recorded.
#[verifier::loop_isolation(false)]
#[verifier::rlimit(100)]
pub fn fill_all_possible_coord(
    possible_coord: &mut Vec<Coord>,
    current_coord: Coord,
    root_coord: Coord,
    grid: &Grid,
)
    requires
        grid.inv(),
        current_coord < 512,
        forall|i: int|
            0 <= i < old(possible_coord)@.len() ==> grid::coord_ok(
                grid@,
                #[trigger] old(possible_coord)@[i],
            ),
    ensures
        final(possible_coord)@.to_set() == old(possible_coord)@.to_set().union(
            growth_targets(grid@, current_coord, root_coord),
        ),
        forall|i: int|
            0 <= i < final(possible_coord)@.len() ==> grid::coord_ok(
                grid@,
                #[trigger] final(possible_coord)@[i],
            ),
{
    let ghost m = grid@;
    proof {
        grid.lemma_size_bounds();
    }
    let basic = organ::new(0, OrganType::Basic, OrganDirection::North, root_coord);
    let mut seen: Vec<bool> = Vec::new();
    let mut si: usize = 0;
    while si < 512
        invariant
            seen@.len() == si,
            si <= 512,
            forall|j: int| 0 <= j < si ==> !(#[trigger] seen@[j]),
        decreases 512 - si,
    {
        seen.push(false);
        si = si + 1;
    }
    let mut work: Vec<Coord> = Vec::new();
    work.push(current_coord);
    seen.set(current_coord as usize, true);
    let ghost mut done: Set<Coord> = Set::empty();
    proof {
        reach::lemma_reach_refl(m.kids, current_coord);
        assert(work@[0] == current_coord);
        assert forall|a: Coord|
            possible_coord@.to_set().contains(a) == old(possible_coord)@.to_set().union(
                collected_from(m, done, root_coord),
            ).contains(a) by {
            if collected_from(m, done, root_coord).contains(a) {
                let d = choose|d: Coord|
                    #[trigger] done.contains(d) && grid::spec_adjacent_coords(m, d).contains(a)
                        && grid::spec_can_add_with_root(m, a, probe_organ(root_coord));
            }
        }
        assert(possible_coord@.to_set() =~= old(possible_coord)@.to_set().union(
            collected_from(m, done, root_coord),
        ));
    }
    while work.len() > 0
        invariant
            seen@.len() == 512,
            seen@[current_coord as int],
            forall|c: Coord|
                c < 512 && #[trigger] seen@[c as int] ==> reach::reaches(m.kids, current_coord, c),
            forall|i: int|
                0 <= i < work@.len() ==> (#[trigger] work@[i]) < 512 && seen@[work@[i] as int],
            forall|c: Coord| #[trigger] done.contains(c) ==> c < 512 && seen@[c as int],
            forall|c: Coord|
                c < 512 && #[trigger] seen@[c as int] ==> done.contains(c) || work@.contains(c),
            forall|d: Coord, e: Coord|
                done.contains(d) && #[trigger] reach::kid_edge(m.kids, d, e) ==> e < 512
                    && seen@[e as int],
            possible_coord@.to_set() == old(possible_coord)@.to_set().union(
                collected_from(m, done, root_coord),
            ),
            forall|i: int|
                0 <= i < possible_coord@.len() ==> grid::coord_ok(
                    m,
                    #[trigger] possible_coord@[i],
                ),
        decreases count_unseen(seen@) + work@.len(),
    {
        let ghost work_before = work@;
        let d = match work.pop() {
            Some(d) => d,
            None => 0,
        };
        proof {
            assert(work@ =~= work_before.subrange(0, work_before.len() - 1));
            assert(d == work_before[work_before.len() - 1]);
        }
        let ghost work_pop = work@;
        proof {
            assert forall|c: Coord|
                c < 512 && #[trigger] seen@[c as int] implies done.contains(c) || work@.contains(c)
                || c == d by {
                if !done.contains(c) && c != d {
                    assert(work_before.contains(c));
                    let ii = choose|ii: int| 0 <= ii < work_before.len() && work_before[ii] == c;
                    assert(ii < work_before.len() - 1);
                    assert(work_pop[ii] == c);
                }
            }
        }
        let ghost poss_pre = possible_coord@;
        collect_passing(grid, d, root_coord, possible_coord);
        proof {
            lemma_collected_insert(m, done, d, root_coord);
            assert(possible_coord@.to_set() =~= old(possible_coord)@.to_set().union(
                collected_from(m, done.insert(d), root_coord),
            ));
        }
        let ghost seen_mid = seen@;
        let ghost work_mid = work@;
        match grid.get_children(d) {
            Some(ch) => {
                let mut ci: usize = 0;
                while ci < ch.len()
                    invariant
                        ch@ == m.kids[d],
                        m.kids.dom().contains(d),
                        ci <= ch@.len(),
                        seen@.len() == 512,
                        forall|c: Coord|
                            c < 512 && #[trigger] seen@[c as int] ==> reach::reaches(
                                m.kids,
                                current_coord,
                                c,
                            ),
                        forall|i: int|
                            0 <= i < work@.len() ==> (#[trigger] work@[i]) < 512
                                && seen@[work@[i] as int],
                        forall|c: Coord| #[trigger] done.contains(c) ==> c < 512 && seen@[c as int],
                        forall|c: Coord|
                            c < 512 && seen_mid[c as int] ==> #[trigger] seen@[c as int],
                        forall|c: Coord|
                            c < 512 && #[trigger] seen@[c as int] ==> done.contains(c)
                                || work@.contains(c) || c == d,
                        forall|jj: int|
                            0 <= jj < ci ==> (#[trigger] ch@[jj]) < 512 && seen@[ch@[jj] as int],
                        forall|c: Coord|
                            work_mid.contains(c) ==> work@.contains(c),
                        count_unseen(seen@) + work@.len() == count_unseen(seen_mid)
                            + work_mid.len(),
                    decreases ch@.len() - ci,
                {
                    let c = ch[ci];
                    proof {
                        assert(reach::kid_edge(m.kids, d, c)) by {
                            assert(ch@[ci as int] == c);
                        }
                        assert(reach::reaches(m.kids, current_coord, d)) by {
                            assert(seen@[d as int]);
                        }
                        reach::lemma_reach_step(m.kids, current_coord, d, c);
                    }
                    if !seen[c as usize] {
                        let ghost seen_b = seen@;
                        let ghost work_b = work@;
                        seen.set(c as usize, true);
                        work.push(c);
                        proof {
                            lemma_count_unseen_mark(seen_b, c as int);
                            assert forall|cc: Coord|
                                cc < 512 && #[trigger] seen@[cc as int] implies done.contains(cc)
                                || work@.contains(cc) || cc == d by {
                                if cc != c {
                                    if work_b.contains(cc) {
                                        let ii = choose|ii: int|
                                            0 <= ii < work_b.len() && work_b[ii] == cc;
                                        assert(work@[ii] == cc);
                                    }
                                } else {
                                    assert(work@[work@.len() - 1] == c);
                                }
                            }
                            assert forall|cc: Coord| work_mid.contains(cc) implies work@.contains(
                                cc,
                            ) by {
                                let ii = choose|ii: int|
                                    0 <= ii < work_b.len() && work_b[ii] == cc;
                                assert(work@[ii] == cc);
                            }
                        }
                    }
                    ci = ci + 1;
                }
            },
            None => {},
        }
        proof {
            let done_before = done;
            done = done.insert(d);
            assert(seen@[d as int]);
            assert forall|dd: Coord, e: Coord|
                done.contains(dd) && #[trigger] reach::kid_edge(m.kids, dd, e) implies e < 512
                && seen@[e as int] by {
                if dd == d {
                    assert(m.kids[d].contains(e));
                    let jj = choose|jj: int| 0 <= jj < m.kids[d].len() && m.kids[d][jj] == e;
                } else {
                    assert(e < 512 && seen_mid[e as int]);
                    assert(seen@[e as int]);
                }
            }
            assert forall|c: Coord|
                c < 512 && #[trigger] seen@[c as int] implies done.contains(c) || work@.contains(
                c,
            ) by {
            }
            assert(possible_coord@.to_set() == old(possible_coord)@.to_set().union(
                collected_from(m, done, root_coord),
            ));
            assert(count_unseen(seen@) + work@.len() < count_unseen(seen_mid)
                + work_before.len());
        }
    }
    proof {
        assert forall|b: Coord|
            reach::reach_set(m.kids, current_coord).contains(b) implies done.contains(b) by {
            reach::lemma_closed_set_covers(m.kids, done, current_coord, b);
        }
        assert forall|a: Coord|
            collected_from(m, done, root_coord).contains(a) == growth_targets(
                m,
                current_coord,
                root_coord,
            ).contains(a) by {
            if collected_from(m, done, root_coord).contains(a) {
                let dd = choose|dd: Coord|
                    #[trigger] done.contains(dd) && grid::spec_adjacent_coords(m, dd).contains(a)
                        && grid::spec_can_add_with_root(m, a, probe_organ(root_coord));
                assert(reach::reaches(m.kids, current_coord, dd));
            }
            if growth_targets(m, current_coord, root_coord).contains(a) {
                let dd = choose|dd: Coord|
                    #[trigger] reach::reaches(m.kids, current_coord, dd)
                        && grid::spec_adjacent_coords(m, dd).contains(a)
                        && grid::spec_can_add_with_root(m, a, probe_organ(root_coord));
                assert(reach::reach_set(m.kids, current_coord).contains(dd));
                assert(done.contains(dd));
            }
        }
        assert(collected_from(m, done, root_coord) =~= growth_targets(
            m,
            current_coord,
            root_coord,
        ));
    }
}


/// The probe organ placed when testing a one-step attack from `c` by player
/// `pid`.
pub open spec fn attack_probe(pid: int, c: Coord) -> Organ {
    organ::make_organ(pid, OrganType::Basic, OrganDirection::North, c)
}

/// What a one-step attack check yields at `c`: when a basic organ of `pid`
/// could be placed at `c` and some neighbor holds an enemy organ, the
/// direction toward the first such neighbor; otherwise nothing.
#[verifier::opaque]
pub open spec fn spec_attack_one(m: GridModel, pid: int, c: Coord) -> Option<OrganDirection> {
    let x = coord::coord_x(c) as int;
    let y = coord::coord_y(c) as int;
    if grid::spec_can_add_without_root(m, c, attack_probe(pid, c))
        && grid::spec_contains_adjacent_organ(m, x, y, 1 - pid) {
        grid::spec_dir_to_adjacent_organ(m, c, 1 - pid)
    } else {
        None
    }
}

/// Searches for a tentacle placement at `coord` that would face an enemy
/// organ directly: the placement must pass the ownership placement check and
/// some neighbor must hold an organ of the opponent.
pub fn can_attack_enemy_organ_in_one_cell(grid: &Grid, player: &Player, coord: Coord) -> (r:
    Option<OrganDirection>)
    requires
        grid.inv(),
        player.spec_id() <= 1,
    ensures
        r == spec_attack_one(grid@, player.spec_id() as int, coord),
{
    proof {
        reveal(spec_attack_one);
    }
    let organ = organ::new(
        player.get_id(),
        OrganType::Basic,
        OrganDirection::North,
        coord,
    );
    if grid.can_add_organ_without_root_coord(coord, organ) && grid.contains_an_adjacent_organ(
        coord::x(coord),
        coord::y(coord),
        player.get_opponent_id(),
    ) {
        return grid.get_direction_to_an_adjacent_organ(coord, player.get_opponent_id());
    }
    None
}

/// One candidate pair for a two-step attack from `c`: a growable neighbor
/// `adj` of `c` whose own neighbor `opp` holds an enemy organ.
#[verifier::opaque]
pub open spec fn spec_two_step_pair(m: GridModel, pid: int, c: Coord, adj: Coord, opp: Coord)
    -> bool {
    &&& grid::spec_adjacent_coords(m, c).contains(adj)
    &&& grid::spec_can_add_with_root(m, adj, attack_probe(pid, c))
    &&& grid::spec_adjacent_coords(m, adj).contains(opp)
    &&& cell::spec_is_owned_by(
        grid::cell_at(m, coord::coord_x(opp) as int, coord::coord_y(opp) as int),
        1 - pid,
    )
    &&& opp != c
}

/// Whether any two-step attack pair exists at `c`.
pub open spec fn spec_two_step_possible(m: GridModel, pid: int, c: Coord) -> bool {
    exists|adj: Coord, opp: Coord| spec_two_step_pair(m, pid, c, adj, opp)
}

/// Searches for a tentacle placement at `coord` that could reach an enemy
/// organ in two growth steps: some growable neighbor of `coord` must itself
/// sit next to an enemy organ. Yields a facing from `coord` toward such an
/// enemy.
/// Scans the neighbors of one growable cell `adj_coord` for enemy organs,
/// yielding the facing from `coord` toward the last enemy found and whether
/// that enemy shares a row or column with `coord`.
#[verifier::loop_isolation(false)]
#[verifier::rlimit(100)]
fn scan_enemy_near(grid: &Grid, player: &Player, coord: Coord, adj_coord: Coord) -> (r: Option<
    (OrganDirection, bool),
>)
    requires
        grid.inv(),
        player.spec_id() <= 1,
        coord < 512,
        grid::spec_adjacent_coords(grid@, coord).contains(adj_coord),
        grid::spec_can_add_with_root(
            grid@,
            adj_coord,
            attack_probe(player.spec_id() as int, coord),
        ),
    ensures
        match r {
            Some(p) => exists|opp: Coord|
                #[trigger] spec_two_step_pair(
                    grid@,
                    player.spec_id() as int,
                    coord,
                    adj_coord,
                    opp,
                ) && p.0 == organ_direction::dir_toward(coord, opp),
            None => forall|opp: Coord|
                !#[trigger] spec_two_step_pair(
                    grid@,
                    player.spec_id() as int,
                    coord,
                    adj_coord,
                    opp,
                ),
        },
{
    let ghost m = grid@;
    let ghost pid = player.spec_id() as int;
    proof {
        grid.lemma_size_bounds();
        grid::lemma_adjacent_decodes(m, coord);
        grid::lemma_adjacent_in_key_space(m, adj_coord);
        grid::lemma_adjacent_decodes(m, adj_coord);
    }
    let ghost adj_of_coord = grid::spec_adjacent_coords(m, coord);
    let mut result: Option<(OrganDirection, bool)> = None;
    let opp_coords = grid.get_adjacent_coords(adj_coord);
    let mut j: usize = 0;
    while j < opp_coords.len()
        invariant
            opp_coords@ == grid::spec_adjacent_coords(m, adj_coord),
            j <= opp_coords@.len(),
            match result {
                Some(p) => exists|opp: Coord|
                    #[trigger] spec_two_step_pair(m, pid, coord, adj_coord, opp) && p.0
                        == organ_direction::dir_toward(coord, opp),
                None => forall|jj: int|
                    0 <= jj < j ==> !spec_two_step_pair(
                        m,
                        pid,
                        coord,
                        adj_coord,
                        #[trigger] opp_coords@[jj],
                    ),
            },
        decreases opp_coords@.len() - j,
    {
        let opp_coord = opp_coords[j];
        if opp_coord != coord && cell::is_owned_by(
            grid.get_cell(coord::x(opp_coord), coord::y(opp_coord)),
            player.get_opponent_id(),
        ) {
            proof {
                reveal(spec_two_step_pair);
                assert(spec_two_step_pair(m, pid, coord, adj_coord, opp_coord)) by {
                    assert(opp_coords@.contains(opp_coord)) by {
                        assert(opp_coords@[j as int] == opp_coord);
                    }
                }
                assert(organ_direction::dir_between_defined(coord, opp_coord)) by {
                    let i0 = choose|i0: int|
                        0 <= i0 < adj_of_coord.len() && adj_of_coord[i0] == adj_coord;
                    assert(organ_direction::abs_diff_x(adj_coord, coord)
                        + organ_direction::abs_diff_y(adj_coord, coord) == 1);
                    assert(organ_direction::abs_diff_x(opp_coord, adj_coord)
                        + organ_direction::abs_diff_y(opp_coord, adj_coord) == 1) by {
                        assert(opp_coords@[j as int] == opp_coord);
                    }
                    grid::lemma_coord_canonical(coord);
                    grid::lemma_coord_canonical(opp_coord);
                    if coord::coord_x(opp_coord) == coord::coord_x(coord) && coord::coord_y(
                        opp_coord,
                    ) == coord::coord_y(coord) {
                        assert(opp_coord == coord);
                    }
                }
            }
            let direction = organ_direction::get_direction_from_coord_to_coord(
                coord,
                opp_coord,
                grid,
            );
            let aligned = coord::x(opp_coord) == coord::x(coord) || coord::y(opp_coord)
                == coord::y(coord);
            if aligned {
                return Some((direction, true));
            }
            result = Some((direction, false));
        } else {
            proof {
                reveal(spec_two_step_pair);
                assert(!spec_two_step_pair(m, pid, coord, adj_coord, opp_coords@[j as int]));
            }
        }
        j = j + 1;
    }
    proof {
        if result is None {
            assert forall|opp: Coord|
                !#[trigger] spec_two_step_pair(m, pid, coord, adj_coord, opp) by {
                reveal(spec_two_step_pair);
                if grid::spec_adjacent_coords(m, adj_coord).contains(opp) {
                    let jj = choose|jj: int|
                        0 <= jj < opp_coords@.len() && opp_coords@[jj] == opp;
                }
            }
        }
    }
    result
}

/// Searches for a tentacle placement at `coord` that could reach an enemy
/// organ in two growth steps: some growable neighbor of `coord` must itself
/// sit next to an enemy organ. Yields a facing from `coord` toward such an
/// enemy.
#[verifier::loop_isolation(false)]
#[verifier::rlimit(100)]
pub fn can_attack_enemy_organ_in_two_cell(grid: &Grid, player: &Player, coord: Coord) -> (r:
    Option<OrganDirection>)
    requires
        grid.inv(),
        player.spec_id() <= 1,
        coord < 512,
    ensures
        match r {
            Some(dir) => exists|adj: Coord, opp: Coord|
                #[trigger] spec_two_step_pair(grid@, player.spec_id() as int, coord, adj, opp)
                    && dir == organ_direction::dir_toward(coord, opp),
            None => !spec_two_step_possible(grid@, player.spec_id() as int, coord),
        },
{
    let ghost m = grid@;
    let ghost pid = player.spec_id() as int;
    proof {
        grid.lemma_size_bounds();
    }
    let organ = organ::new(
        player.get_id(),
        OrganType::Basic,
        OrganDirection::North,
        coord,
    );
    let mut result: Option<OrganDirection> = None;
    let adjacents = grid.get_adjacent_coords(coord);
    let mut i: usize = 0;
    while i < adjacents.len()
        invariant
            adjacents@ == grid::spec_adjacent_coords(m, coord),
            i <= adjacents@.len(),
            match result {
                Some(dir) => exists|adj: Coord, opp: Coord|
                    #[trigger] spec_two_step_pair(m, pid, coord, adj, opp) && dir
                        == organ_direction::dir_toward(coord, opp),
                None => forall|ii: int, opp: Coord|
                    0 <= ii < i ==> !#[trigger] spec_two_step_pair(
                        m,
                        pid,
                        coord,
                        adjacents@[ii],
                        opp,
                    ),
            },
        decreases adjacents@.len() - i,
    {
        let adj_coord = adjacents[i];
        proof {
            assert(adjacents@.contains(adj_coord)) by {
                assert(adjacents@[i as int] == adj_coord);
            }
        }
        if grid.can_add_organ_with_root_coord(adj_coord, organ) {
            match scan_enemy_near(grid, player, coord, adj_coord) {
                Some((direction, aligned)) => {
                    if aligned {
                        return Some(direction);
                    }
                    result = Some(direction);
                },
                None => {
                    proof {
                        assert forall|opp: Coord|
                            !#[trigger] spec_two_step_pair(m, pid, coord, adjacents@[i as int], opp)
                        by {}
                    }
                },
            }
        } else {
            proof {
                reveal(spec_two_step_pair);
                assert forall|opp: Coord|
                    !spec_two_step_pair(m, pid, coord, adjacents@[i as int], opp) by {}
            }
        }
        i = i + 1;
    }
    proof {
        if result is None {
            assert forall|adj: Coord, opp: Coord|
                !#[trigger] spec_two_step_pair(m, pid, coord, adj, opp) by {
                reveal(spec_two_step_pair);
                if grid::spec_adjacent_coords(m, coord).contains(adj) {
                    let ii = choose|ii: int|
                        0 <= ii < adjacents@.len() && adjacents@[ii] == adj;
                }
            }
        }
    }
    result
}

/// Whether some frontier cell admits a one-step attack.
pub open spec fn kill_one_exists(m: GridModel, pid: int, targets: Set<Coord>) -> bool {
    exists|c: Coord| #[trigger] targets.contains(c) && spec_attack_one(m, pid, c) is Some
}

/// Whether some frontier cell admits a two-step attack.
pub open spec fn kill_two_exists(m: GridModel, pid: int, targets: Set<Coord>) -> bool {
    exists|c: Coord| #[trigger] targets.contains(c) && spec_two_step_possible(m, pid, c)
}

/// Whether some frontier cell sits next to a protein deposit.
pub open spec fn harvest_exists(m: GridModel, targets: Set<Coord>) -> bool {
    exists|c: Coord|
        #[trigger] targets.contains(c) && grid::spec_dir_to_adjacent_protein(m, c) is Some
}

/// Picks a growth action for the organism rooted at `root_coord` by a fixed
/// priority over its growth frontier: an affordable tentacle that attacks an
/// enemy organ in one step wins outright; failing that, a tentacle that
/// could attack in two steps; a player who cannot afford a tentacle grows an
/// affordable harvester next to a protein deposit, or failing all else an
/// affordable basic organ at any frontier cell; with no applicable rule the
/// action is to wait.
#[verifier::loop_isolation(false)]
#[verifier::rlimit(100)]
pub fn found_an_action(grid: &Grid, player: &Player, root_coord: Coord) -> (r: Action)
    requires
        grid.inv(),
        player.spec_id() <= 1,
        root_coord < 512,
    ensures
        ({
            let m = grid@;
            let pid = player.spec_id() as int;
            let w = player.spec_wallet();
            let targets = growth_targets(m, root_coord, root_coord);
            let can_t = protein_wallet::spec_can_buy(w, OrganType::Tentacle);
            let can_h = protein_wallet::spec_can_buy(w, OrganType::Harvester);
            let can_b = protein_wallet::spec_can_buy(w, OrganType::Basic);
            &&& (can_t && kill_one_exists(m, pid, targets)) ==> {
                &&& action::action_type_code(r) == action_type::action_code(ActionType::Growth)
                &&& action::action_organ_code(r) == organ_type::type_code(OrganType::Tentacle)
                &&& action::action_source(r) == root_coord
                &&& targets.contains(action::action_target(r) as Coord)
                &&& Some(organ_direction::dir_of_code(action::action_dir_code(r)))
                    == spec_attack_one(m, pid, action::action_target(r) as Coord)
            }
            &&& (can_t && !kill_one_exists(m, pid, targets) && kill_two_exists(m, pid, targets))
                ==> {
                &&& action::action_type_code(r) == action_type::action_code(ActionType::Growth)
                &&& action::action_organ_code(r) == organ_type::type_code(OrganType::Tentacle)
                &&& action::action_source(r) == root_coord
                &&& targets.contains(action::action_target(r) as Coord)
                &&& exists|adj: Coord, opp: Coord|
                    #[trigger] spec_two_step_pair(
                        m,
                        pid,
                        action::action_target(r) as Coord,
                        adj,
                        opp,
                    ) && organ_direction::dir_of_code(action::action_dir_code(r))
                        == organ_direction::dir_toward(action::action_target(r) as Coord, opp)
            }
            &&& (can_t && !kill_one_exists(m, pid, targets) && !kill_two_exists(m, pid, targets))
                ==> r == action::wait_action()
            &&& (!can_t && can_h && harvest_exists(m, targets)) ==> {
                &&& action::action_type_code(r) == action_type::action_code(ActionType::Growth)
                &&& action::action_organ_code(r) == organ_type::type_code(OrganType::Harvester)
                &&& action::action_source(r) == root_coord
                &&& targets.contains(action::action_target(r) as Coord)
                &&& Some(organ_direction::dir_of_code(action::action_dir_code(r)))
                    == grid::spec_dir_to_adjacent_protein(m, action::action_target(r) as Coord)
            }
            &&& (!can_t && can_h && !harvest_exists(m, targets)) ==> r == action::wait_action()
            &&& (!can_t && !can_h && can_b && targets != Set::<Coord>::empty()) ==> {
                &&& action::action_type_code(r) == action_type::action_code(ActionType::Growth)
                &&& action::action_organ_code(r) == organ_type::type_code(OrganType::Basic)
                &&& action::action_source(r) == root_coord
                &&& targets.contains(action::action_target(r) as Coord)
            }
            &&& (!can_t && !can_h && can_b && targets == Set::<Coord>::empty()) ==> r
                == action::wait_action()
            &&& (!can_t && !can_h && !can_b) ==> r == action::wait_action()
        }),
{
    let ghost m = grid@;
    let ghost pid = player.spec_id() as int;
    let mut possible_coords: Vec<Coord> = Vec::new();
    fill_all_possible_coord(&mut possible_coords, root_coord, root_coord, grid);
    let ghost targets = growth_targets(m, root_coord, root_coord);
    proof {
        assert(possible_coords@.to_set() =~= targets);
    }
    let mut action: Action = action::wait();
    let mut i: usize = 0;
    while i < possible_coords.len()
        invariant
            possible_coords@.to_set() == targets,
            forall|ii: int|
                0 <= ii < possible_coords@.len() ==> grid::coord_ok(
                    m,
                    #[trigger] possible_coords@[ii],
                ),
            i <= possible_coords@.len(),
            protein_wallet::spec_can_buy(player.spec_wallet(), OrganType::Tentacle) ==> forall|
                ii: int,
            |
                0 <= ii < i ==> spec_attack_one(m, pid, #[trigger] possible_coords@[ii]) is None,
            protein_wallet::spec_can_buy(player.spec_wallet(), OrganType::Tentacle) ==> (action
                == action::wait_action() && (forall|ii: int|
                0 <= ii < i ==> !spec_two_step_possible(m, pid, #[trigger] possible_coords@[ii]))
                || {
                &&& action::action_type_code(action) == action_type::action_code(
                    ActionType::Growth,
                )
                &&& action::action_organ_code(action) == organ_type::type_code(
                    OrganType::Tentacle,
                )
                &&& action::action_source(action) == root_coord
                &&& targets.contains(action::action_target(action) as Coord)
                &&& exists|adj: Coord, opp: Coord|
                    #[trigger] spec_two_step_pair(
                        m,
                        pid,
                        action::action_target(action) as Coord,
                        adj,
                        opp,
                    ) && organ_direction::dir_of_code(action::action_dir_code(action))
                        == organ_direction::dir_toward(
                        action::action_target(action) as Coord,
                        opp,
                    )
            }),
            !protein_wallet::spec_can_buy(player.spec_wallet(), OrganType::Tentacle) ==> action
                == action::wait_action(),
            !protein_wallet::spec_can_buy(player.spec_wallet(), OrganType::Tentacle)
                && protein_wallet::spec_can_buy(player.spec_wallet(), OrganType::Harvester)
                ==> forall|ii: int|
                0 <= ii < i ==> grid::spec_dir_to_adjacent_protein(
                    m,
                    #[trigger] possible_coords@[ii],
                ) is None,
            !protein_wallet::spec_can_buy(player.spec_wallet(), OrganType::Tentacle)
                && !protein_wallet::spec_can_buy(player.spec_wallet(), OrganType::Harvester)
                && protein_wallet::spec_can_buy(player.spec_wallet(), OrganType::Basic) ==> i == 0,
        decreases possible_coords@.len() - i,
    {
        let coord = possible_coords[i];
        proof {
            assert(targets.contains(coord)) by {
                assert(possible_coords@[i as int] == coord);
                assert(possible_coords@.contains(coord));
            }
        }
        if player.can_buy(OrganType::Tentacle) {
            match can_attack_enemy_organ_in_one_cell(grid, player, coord) {
                Some(direction) => {
                    return action::growth(OrganType::Tentacle, direction, coord, root_coord);
                },
                None => {},
            }
            match can_attack_enemy_organ_in_two_cell(grid, player, coord) {
                Some(direction) => {
                    action = action::growth(OrganType::Tentacle, direction, coord, root_coord);
                },
                None => {},
            }
        } else if player.can_buy(OrganType::Harvester) {
            match grid.get_direction_to_an_adjacent_protein(coord) {
                Some(direction) => {
                    return action::growth(OrganType::Harvester, direction, coord, root_coord);
                },
                None => {},
            }
        } else if player.can_buy(OrganType::Basic) {
            return action::growth(OrganType::Basic, OrganDirection::North, coord, root_coord);
        }
        i = i + 1;
    }
    proof {
        if protein_wallet::spec_can_buy(player.spec_wallet(), OrganType::Tentacle) {
            assert forall|c: Coord| targets.contains(c) implies spec_attack_one(
                m,
                pid,
                c,
            ) is None by {
                let ii = choose|ii: int|
                    0 <= ii < possible_coords@.len() && possible_coords@[ii] == c;
            }
            if action == action::wait_action() {
                assert forall|c: Coord| targets.contains(c) implies !spec_two_step_possible(
                    m,
                    pid,
                    c,
                ) by {
                    let ii = choose|ii: int|
                        0 <= ii < possible_coords@.len() && possible_coords@[ii] == c;
                }
                assert(!kill_two_exists(m, pid, targets));
            }
            assert(!kill_one_exists(m, pid, targets));
        } else if protein_wallet::spec_can_buy(player.spec_wallet(), OrganType::Harvester) {
            assert forall|c: Coord| targets.contains(c) implies grid::spec_dir_to_adjacent_protein(
                m,
                c,
            ) is None by {
                let ii = choose|ii: int|
                    0 <= ii < possible_coords@.len() && possible_coords@[ii] == c;
            }
            assert(!harvest_exists(m, targets));
        } else if protein_wallet::spec_can_buy(player.spec_wallet(), OrganType::Basic) {
            assert(possible_coords@.len() == 0);
            assert forall|c: Coord| !targets.contains(c) by {
                if possible_coords@.to_set().contains(c) {
                    let ii = choose|ii: int|
                        0 <= ii < possible_coords@.len() && possible_coords@[ii] == c;
                }
            }
            assert(targets =~= Set::<Coord>::empty());
        }
    }
    action
}

} // verus!
