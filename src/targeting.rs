//! Grouping ships by faction and resolving each ship's nearest hostile target.
use vstd::prelude::*;

use crate::faction::Faction;
use crate::geometry::{dist_sq, floor_sqrt, is_floor_sqrt, Point};

verus! {

/// The last known nearest hostile of a ship: where it stands and how far it is.
#[derive(Clone, Copy, Debug, PartialEq, Eq, Structural)]
pub struct Target {
    pub translation: Point,
    /// The Euclidean distance, rounded down to whole units.
    pub distance: u64,
}

impl Default for Target {
    fn default() -> (t: Target)
        ensures
            t.translation == (Point { x: 0, y: 0 }),
            t.distance == 0,
    {
        Target { translation: Point { x: 0, y: 0 }, distance: 0 }
    }
}

/// What the targeting core knows of one ship in a tick.
#[derive(Clone, Copy, Debug, PartialEq, Eq, Structural)]
pub struct Ship {
    pub faction: Faction,
    pub position: Point,
    pub target: Target,
}

/// The positions of the ships of one faction.
#[derive(Debug)]
pub struct FactionGroup {
    pub faction: Faction,
    pub positions: Vec<Point>,
}

/// No two groups belong to the same faction.
pub open spec fn groups_disjoint(groups: Seq<FactionGroup>) -> bool {
    forall|a: int, b: int|
        0 <= a < groups.len() && 0 <= b < groups.len() && a != b ==> groups[a].faction
            != groups[b].faction
}

/// Position `k` of group `g` exists.
pub open spec fn in_group(groups: Seq<FactionGroup>, g: int, k: int) -> bool {
    0 <= g < groups.len() && 0 <= k < groups[g].positions@.len()
}

/// Some ship of `ships` belongs to faction `f` and stands at `p`.
pub open spec fn ship_at(ships: Seq<Ship>, f: Faction, p: Point) -> bool {
    exists|j: int| 0 <= j < ships.len() && ships[j].faction == f && ships[j].position == p
}

/// The group of faction `f` in `groups` holds position `p`.
pub open spec fn group_at(groups: Seq<FactionGroup>, f: Faction, p: Point) -> bool {
    exists|g: int, k: int|
        in_group(groups, g, k) && groups[g].faction == f && groups[g].positions@[k] == p
}

/// `groups` hold exactly the (faction, position) pairs of `ships`, one group per faction.
pub open spec fn groups_of(groups: Seq<FactionGroup>, ships: Seq<Ship>) -> bool {
    &&& groups_disjoint(groups)
    &&& forall|f: Faction, p: Point|
        #![trigger group_at(groups, f, p)]
        #![trigger ship_at(ships, f, p)]
        group_at(groups, f, p) <==> ship_at(ships, f, p)
}

/// Some ship of `ships` belongs to another faction than `f`.
pub open spec fn has_hostile(ships: Seq<Ship>, f: Faction) -> bool {
    exists|j: int| 0 <= j < ships.len() && ships[j].faction != f
}

/// `t` is the position of a ship outside faction `f` that is nearest to `p`.
pub open spec fn is_nearest_hostile(ships: Seq<Ship>, f: Faction, p: Point, t: Point) -> bool {
    &&& exists|j: int| 0 <= j < ships.len() && ships[j].faction != f && ships[j].position == t
    &&& forall|k: int|
        0 <= k < ships.len() && ships[k].faction != f ==> dist_sq(p, t) <= dist_sq(
            p,
            ships[k].position,
        )
}

/// `t` is a position in a group of another faction than `f` nearest to `p`.
pub open spec fn is_nearest_in_groups(
    groups: Seq<FactionGroup>,
    f: Faction,
    p: Point,
    t: Point,
) -> bool {
    &&& exists|g: int, k: int|
        in_group(groups, g, k) && groups[g].faction != f && groups[g].positions@[k] == t
    &&& forall|g: int, k: int|
        in_group(groups, g, k) && groups[g].faction != f ==> dist_sq(p, t) <= dist_sq(
            p,
            #[trigger] groups[g].positions@[k],
        )
}

/// The index of the group of faction `f`, if there is one.
fn find_group(groups: &Vec<FactionGroup>, f: Faction) -> (r: Option<usize>)
    ensures
        match r {
            Some(g) => g < groups@.len() && groups@[g as int].faction == f,
            None => forall|g: int| 0 <= g < groups@.len() ==> groups@[g].faction != f,
        },
{
    let mut g: usize = 0;
    while g < groups.len()
        invariant
            g <= groups@.len(),
            forall|h: int| 0 <= h < g ==> groups@[h].faction != f,
        decreases groups@.len() - g,
    {
        if groups[g].faction == f {
            return Some(g);
        }
        g = g + 1;
    }
    None
}

proof fn lemma_group_extended(
    prev: Seq<FactionGroup>,
    groups: Seq<FactionGroup>,
    done: Seq<Ship>,
    ship: Ship,
    g: int,
)
    requires
        groups_of(prev, done),
        0 <= g < prev.len(),
        prev[g].faction == ship.faction,
        groups.len() == prev.len(),
        forall|h: int| 0 <= h < prev.len() && h != g ==> groups[h] == prev[h],
        groups[g].faction == prev[g].faction,
        groups[g].positions@ == prev[g].positions@.push(ship.position),
    ensures
        groups_of(groups, done.push(ship)),
{
    let next = done.push(ship);
    let k_new = prev[g].positions@.len() as int;
    assert forall|a: int| 0 <= a < groups.len() implies #[trigger] groups[a].faction
        == prev[a].faction by {
        if a != g {
            assert(groups[a] == prev[a]);
        }
    }
    assert forall|f: Faction, p: Point| group_at(groups, f, p) <==> ship_at(next, f, p) by {
        if group_at(groups, f, p) {
            let (h, k) = choose|h: int, k: int|
                in_group(groups, h, k) && groups[h].faction == f && groups[h].positions@[k] == p;
            if h == g && k == k_new {
                assert(next[done.len() as int] == ship);
            } else {
                assert(groups[h].positions@[k] == prev[h].positions@[k]);
                assert(in_group(prev, h, k));
                assert(group_at(prev, f, p));
                assert(ship_at(done, f, p));
                let j = choose|j: int| 0 <= j < done.len() && done[j].faction == f && done[j].position == p;
                assert(next[j] == done[j]);
            }
        }
        if ship_at(next, f, p) {
            let j = choose|j: int| 0 <= j < next.len() && next[j].faction == f && next[j].position == p;
            if j == done.len() {
                assert(groups[g].positions@[k_new] == ship.position);
                assert(in_group(groups, g, k_new));
            } else {
                assert(next[j] == done[j]);
                assert(ship_at(done, f, p));
                assert(group_at(prev, f, p));
                let (h, k) = choose|h: int, k: int|
                    in_group(prev, h, k) && prev[h].faction == f && prev[h].positions@[k] == p;
                assert(groups[h].positions@[k] == prev[h].positions@[k]);
                assert(in_group(groups, h, k));
            }
        }
    }
}

proof fn lemma_group_added(prev: Seq<FactionGroup>, groups: Seq<FactionGroup>, done: Seq<Ship>, ship: Ship)
    requires
        groups_of(prev, done),
        forall|h: int| 0 <= h < prev.len() ==> prev[h].faction != ship.faction,
        groups.len() == prev.len() + 1,
        forall|h: int| 0 <= h < prev.len() ==> groups[h] == prev[h],
        groups[prev.len() as int].faction == ship.faction,
        groups[prev.len() as int].positions@ == seq![ship.position],
    ensures
        groups_of(groups, done.push(ship)),
{
    let next = done.push(ship);
    let g_new = prev.len() as int;
    assert(groups[g_new].positions@[0] == ship.position);
    assert forall|a: int| 0 <= a < prev.len() implies #[trigger] groups[a].faction
        == prev[a].faction by {
        assert(groups[a] == prev[a]);
    }
    assert forall|f: Faction, p: Point| group_at(groups, f, p) <==> ship_at(next, f, p) by {
        if group_at(groups, f, p) {
            let (h, k) = choose|h: int, k: int|
                in_group(groups, h, k) && groups[h].faction == f && groups[h].positions@[k] == p;
            if h == g_new {
                assert(next[done.len() as int] == ship);
            } else {
                assert(groups[h] == prev[h]);
                assert(in_group(prev, h, k));
                assert(group_at(prev, f, p));
                assert(ship_at(done, f, p));
                let j = choose|j: int| 0 <= j < done.len() && done[j].faction == f && done[j].position == p;
                assert(next[j] == done[j]);
            }
        }
        if ship_at(next, f, p) {
            let j = choose|j: int| 0 <= j < next.len() && next[j].faction == f && next[j].position == p;
            if j == done.len() {
                assert(in_group(groups, g_new, 0));
            } else {
                assert(next[j] == done[j]);
                assert(ship_at(done, f, p));
                assert(group_at(prev, f, p));
                let (h, k) = choose|h: int, k: int|
                    in_group(prev, h, k) && prev[h].faction == f && prev[h].positions@[k] == p;
                assert(groups[h] == prev[h]);
                assert(in_group(groups, h, k));
            }
        }
    }
}

/// Groups the positions of `ships` by faction, one group per faction present.
pub fn group_by_faction(ships: &Vec<Ship>) -> (groups: Vec<FactionGroup>)
    ensures
        groups_of(groups@, ships@),
{
    let mut groups: Vec<FactionGroup> = Vec::new();
    let mut j: usize = 0;
    while j < ships.len()
        invariant
            j <= ships@.len(),
            groups_of(groups@, ships@.take(j as int)),
        decreases ships@.len() - j,
    {
        let ship = ships[j];
        let ghost prev = groups@;
        assert(ships@.take(j + 1) =~= ships@.take(j as int).push(ship));
        match find_group(&groups, ship.faction) {
            Some(g) => {
                let mut group = groups.remove(g);
                group.positions.push(ship.position);
                groups.insert(g, group);
                proof {
                    lemma_group_extended(prev, groups@, ships@.take(j as int), ship, g as int);
                }
            },
            None => {
                let mut positions: Vec<Point> = Vec::new();
                positions.push(ship.position);
                groups.push(FactionGroup { faction: ship.faction, positions });
                proof {
                    assert(groups@[prev.len() as int].positions@ =~= seq![ship.position]);
                    lemma_group_added(prev, groups@, ships@.take(j as int), ship);
                }
            },
        }
        j = j + 1;
    }
    assert(ships@.take(ships@.len() as int) =~= ships@);
    groups
}

/// Some group of another faction than `f` holds a position.
pub open spec fn hostile_in_groups(groups: Seq<FactionGroup>, f: Faction) -> bool {
    exists|g: int, k: int| in_group(groups, g, k) && groups[g].faction != f
}

/// Position `k` of group `g` comes before position `kc` of group `gc` in scan order.
spec fn scanned(g: int, k: int, gc: int, kc: int) -> bool {
    g < gc || (g == gc && k < kc)
}

/// The position nearest to `p` among the groups of factions other than `f`, with its
/// squared distance; `None` when those groups hold no position. Of equally near
/// positions, the first in scan order is taken.
pub fn nearest_hostile(groups: &Vec<FactionGroup>, f: Faction, p: Point) -> (r: Option<(Point, u128)>)
    ensures
        r is Some <==> hostile_in_groups(groups@, f),
        r matches Some((t, d)) ==> d == dist_sq(p, t) && is_nearest_in_groups(groups@, f, p, t),
{
    let mut best: Option<(Point, u128)> = None;
    let mut i: usize = 0;
    while i < groups.len()
        invariant
            i <= groups@.len(),
            best is None ==> forall|g: int, k: int|
                #![trigger in_group(groups@, g, k)]
                in_group(groups@, g, k) && g < i ==> groups@[g].faction == f,
            best matches Some((t, d)) ==> {
                &&& d == dist_sq(p, t)
                &&& exists|g: int, k: int|
                    in_group(groups@, g, k) && g < i && groups@[g].faction != f
                        && groups@[g].positions@[k] == t
                &&& forall|g: int, k: int|
                    in_group(groups@, g, k) && g < i && groups@[g].faction != f ==> d <= dist_sq(
                        p,
                        #[trigger] groups@[g].positions@[k],
                    )
            },
        decreases groups@.len() - i,
    {
        let group = &groups[i];
        if group.faction != f {
            let mut k: usize = 0;
            while k < group.positions.len()
                invariant
                    i < groups@.len(),
                    *group == groups@[i as int],
                    group.faction != f,
                    k <= group.positions@.len(),
                    best is None ==> k == 0 && forall|g: int, kk: int|
                        #![trigger in_group(groups@, g, kk)]
                        in_group(groups@, g, kk) && g < i ==> groups@[g].faction == f,
                    best matches Some((t, d)) ==> {
                        &&& d == dist_sq(p, t)
                        &&& exists|g: int, kk: int|
                            in_group(groups@, g, kk) && scanned(g, kk, i as int, k as int)
                                && groups@[g].faction != f && groups@[g].positions@[kk] == t
                        &&& forall|g: int, kk: int|
                            in_group(groups@, g, kk) && scanned(g, kk, i as int, k as int)
                                && groups@[g].faction != f ==> d <= dist_sq(
                                p,
                                #[trigger] groups@[g].positions@[kk],
                            )
                    },
                decreases group.positions@.len() - k,
            {
                let q = group.positions[k];
                let dq = p.distance_squared(&q);
                let closer = match best {
                    None => true,
                    Some((_, d)) => dq < d,
                };
                if closer {
                    best = Some((q, dq));
                    assert(in_group(groups@, i as int, k as int));
                }
                k = k + 1;
            }
        }
        i = i + 1;
    }
    best
}

/// Resolves every ship's nearest hostile. A ship with a ship of another faction in
/// `ships` gets as target the position of the nearest such ship and its distance,
/// rounded down; a ship alone with its own faction keeps its previous target.
/// Returns, for each ship, whether it got a target this tick.
pub fn update_targets(ships: &mut Vec<Ship>) -> (resolved: Vec<bool>)
    ensures
        final(ships)@.len() == old(ships)@.len(),
        resolved@.len() == old(ships)@.len(),
        forall|i: int|
            0 <= i < old(ships)@.len() ==> #[trigger] resolved@[i] == has_hostile(
                old(ships)@,
                old(ships)@[i].faction,
            ),
        forall|i: int|
            #![trigger final(ships)@[i]]
            0 <= i < old(ships)@.len() ==> {
                let before = old(ships)@[i];
                let after = final(ships)@[i];
                &&& after.faction == before.faction
                &&& after.position == before.position
                &&& has_hostile(old(ships)@, before.faction) ==> {
                    &&& is_nearest_hostile(
                        old(ships)@,
                        before.faction,
                        before.position,
                        after.target.translation,
                    )
                    &&& is_floor_sqrt(
                        dist_sq(before.position, after.target.translation),
                        after.target.distance as int,
                    )
                }
                &&& !has_hostile(old(ships)@, before.faction) ==> after == before
            },
{
    let groups = group_by_faction(ships);
    let ghost snapshot = ships@;
    let mut resolved: Vec<bool> = Vec::new();
    let mut i: usize = 0;
    while i < ships.len()
        invariant
            groups_of(groups@, snapshot),
            resolved@.len() == i,
            forall|j: int|
                0 <= j < i ==> #[trigger] resolved@[j] == has_hostile(snapshot, snapshot[j].faction),
            ships@.len() == snapshot.len(),
            i <= ships@.len(),
            forall|j: int| i <= j < ships@.len() ==> #[trigger] ships@[j] == snapshot[j],
            forall|j: int|
                #![trigger ships@[j]]
                0 <= j < i ==> {
                    let before = snapshot[j];
                    let after = ships@[j];
                    &&& after.faction == before.faction
                    &&& after.position == before.position
                    &&& has_hostile(snapshot, before.faction) ==> {
                        &&& is_nearest_hostile(
                            snapshot,
                            before.faction,
                            before.position,
                            after.target.translation,
                        )
                        &&& is_floor_sqrt(
                            dist_sq(before.position, after.target.translation),
                            after.target.distance as int,
                        )
                    }
                    &&& !has_hostile(snapshot, before.faction) ==> after == before
                },
        decreases ships@.len() - i,
    {
        let ship = ships[i];
        proof {
            lemma_hostile_in_groups(groups@, snapshot, ship.faction);
        }
        match nearest_hostile(&groups, ship.faction, ship.position) {
            Some((t, d)) => {
                proof {
                    lemma_nearest_in_ships(groups@, snapshot, ship.faction, ship.position, t);
                }
                let distance = floor_sqrt(d);
                ships.set(i, Ship { target: Target { translation: t, distance }, ..ship });
                resolved.push(true);
            },
            None => {
                resolved.push(false);
            },
        }
        i = i + 1;
    }
    resolved
}

proof fn lemma_hostile_in_groups(groups: Seq<FactionGroup>, ships: Seq<Ship>, f: Faction)
    requires
        groups_of(groups, ships),
    ensures
        hostile_in_groups(groups, f) <==> has_hostile(ships, f),
{
    if hostile_in_groups(groups, f) {
        let (g, k) = choose|g: int, k: int| in_group(groups, g, k) && groups[g].faction != f;
        assert(group_at(groups, groups[g].faction, groups[g].positions@[k]));
        assert(ship_at(ships, groups[g].faction, groups[g].positions@[k]));
    }
    if has_hostile(ships, f) {
        let j = choose|j: int| 0 <= j < ships.len() && ships[j].faction != f;
        assert(ship_at(ships, ships[j].faction, ships[j].position));
        assert(group_at(groups, ships[j].faction, ships[j].position));
    }
}

proof fn lemma_nearest_in_ships(
    groups: Seq<FactionGroup>,
    ships: Seq<Ship>,
    f: Faction,
    p: Point,
    t: Point,
)
    requires
        groups_of(groups, ships),
        is_nearest_in_groups(groups, f, p, t),
    ensures
        is_nearest_hostile(ships, f, p, t),
{
    let (g, k) = choose|g: int, k: int|
        in_group(groups, g, k) && groups[g].faction != f && groups[g].positions@[k] == t;
    assert(group_at(groups, groups[g].faction, t));
    assert(ship_at(ships, groups[g].faction, t));
    assert forall|j: int| 0 <= j < ships.len() && ships[j].faction != f implies dist_sq(p, t)
        <= dist_sq(p, ships[j].position) by {
        assert(ship_at(ships, ships[j].faction, ships[j].position));
        assert(group_at(groups, ships[j].faction, ships[j].position));
        let (h, kk) = choose|h: int, kk: int|
            in_group(groups, h, kk) && groups[h].faction == ships[j].faction
                && groups[h].positions@[kk] == ships[j].position;
        assert(groups[h].positions@[kk] == ships[j].position);
    }
}

} // verus!
