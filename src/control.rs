//! The player's direct control, spawning on click, and camera framing.
use vstd::prelude::*;

use crate::faction::{Faction, PLAYER_FACTION};
use crate::geometry::Point;
use crate::targeting::{Ship, Target};

verus! {

/// Which direction keys are held this tick.
#[derive(Clone, Copy, Debug, PartialEq, Eq, Structural)]
pub struct DirectionKeys {
    pub up: bool,
    pub down: bool,
    pub left: bool,
    pub right: bool,
}

/// Which pointer buttons went down this tick.
#[derive(Clone, Copy, Debug, PartialEq, Eq, Structural)]
pub struct PointerPress {
    pub primary: bool,
    pub secondary: bool,
}

/// The faction that a secondary click spawns.
pub const SECONDARY_FACTION: u32 = 2;

/// `v` held within the range of `i32`.
pub open spec fn saturate(v: int) -> int {
    if v < i32::MIN {
        i32::MIN as int
    } else if v > i32::MAX {
        i32::MAX as int
    } else {
        v
    }
}

/// `speed` if `on`, else zero.
pub open spec fn held(on: bool, speed: int) -> int {
    if on {
        speed
    } else {
        0
    }
}

/// Where a ship of the player's faction ends after one tick of the given keys.
pub open spec fn moved(p: Point, keys: DirectionKeys, speed: int) -> Point {
    Point {
        x: saturate(p.x + held(keys.right, speed) - held(keys.left, speed)) as i32,
        y: saturate(p.y + held(keys.up, speed) - held(keys.down, speed)) as i32,
    }
}

fn saturate_i64(v: i64) -> (r: i32)
    ensures
        r == saturate(v as int),
{
    if v < i32::MIN as i64 {
        i32::MIN
    } else if v > i32::MAX as i64 {
        i32::MAX
    } else {
        v as i32
    }
}

/// Moves the ships of the player's faction by `speed` along each held direction key;
/// positions stop at the edge of the `i32` plane. Ships of other factions are left
/// as they are.
pub fn move_spaceship(ships: &mut Vec<Ship>, keys: DirectionKeys, speed: i32)
    ensures
        final(ships)@.len() == old(ships)@.len(),
        forall|i: int|
            #![trigger final(ships)@[i]]
            0 <= i < old(ships)@.len() ==> if old(ships)@[i].faction == Faction(PLAYER_FACTION) {
                final(ships)@[i] == (Ship {
                    position: moved(old(ships)@[i].position, keys, speed as int),
                    ..old(ships)@[i]
                })
            } else {
                final(ships)@[i] == old(ships)@[i]
            },
{
    let ghost start = ships@;
    let dx: i64 = (if keys.right { speed as i64 } else { 0 }) - (if keys.left { speed as i64 } else { 0 });
    let dy: i64 = (if keys.up { speed as i64 } else { 0 }) - (if keys.down { speed as i64 } else { 0 });
    let mut i: usize = 0;
    while i < ships.len()
        invariant
            ships@.len() == start.len(),
            i <= ships@.len(),
            dx == held(keys.right, speed as int) - held(keys.left, speed as int),
            dy == held(keys.up, speed as int) - held(keys.down, speed as int),
            forall|j: int| i <= j < ships@.len() ==> #[trigger] ships@[j] == start[j],
            forall|j: int|
                #![trigger ships@[j]]
                0 <= j < i ==> if start[j].faction == Faction(PLAYER_FACTION) {
                    ships@[j] == (Ship { position: moved(start[j].position, keys, speed as int), ..start[j] })
                } else {
                    ships@[j] == start[j]
                },
        decreases ships@.len() - i,
    {
        let ship = ships[i];
        if ship.faction == Faction(PLAYER_FACTION) {
            let x = saturate_i64(ship.position.x as i64 + dx);
            let y = saturate_i64(ship.position.y as i64 + dy);
            ships.set(i, Ship { position: Point { x, y }, ..ship });
        }
        i = i + 1;
    }
}

/// The point on the plane under a pointer at `pointer` in a viewport of the given size:
/// the viewport's center is the origin.
pub fn spawn_position(pointer: Point, width: u32, height: u32) -> (p: Point)
    requires
        pointer.x - width / 2 >= i32::MIN,
        pointer.y - height / 2 >= i32::MIN,
    ensures
        p.x == pointer.x - width / 2,
        p.y == pointer.y - height / 2,
{
    Point {
        x: (pointer.x as i64 - (width / 2) as i64) as i32,
        y: (pointer.y as i64 - (height / 2) as i64) as i32,
    }
}

/// A new ship of faction `faction` at `(x, y)`, with no target yet.
pub fn spaceship_bundle(faction: u32, x: i32, y: i32) -> (s: Ship)
    ensures
        s.faction == Faction(faction),
        s.position == (Point { x, y }),
        s.target == (Target { translation: Point { x: 0, y: 0 }, distance: 0 }),
{
    Ship { faction: Faction(faction), position: Point { x, y }, target: Target::default() }
}

/// The faction that a press spawns: the player's for the primary button, the
/// opponent's for the secondary one alone, none without a press.
pub open spec fn spawned_faction(press: PointerPress) -> Option<Faction> {
    if press.primary {
        Some(Faction(PLAYER_FACTION))
    } else if press.secondary {
        Some(Faction(SECONDARY_FACTION))
    } else {
        None
    }
}

/// The ship that a pointer press spawns, under the last known pointer position;
/// none without a press or without a known pointer position.
pub fn spawn_by_click(press: PointerPress, pointer: Option<Point>, width: u32, height: u32) -> (s: Option<Ship>)
    requires
        pointer matches Some(p) ==> p.x - width / 2 >= i32::MIN && p.y - height / 2 >= i32::MIN,
    ensures
        s is Some <==> spawned_faction(press) is Some && pointer is Some,
        s matches Some(ship) ==> {
            &&& Some(ship.faction) == spawned_faction(press)
            &&& ship.position.x == pointer->Some_0.x - width / 2
            &&& ship.position.y == pointer->Some_0.y - height / 2
            &&& ship.target == (Target { translation: Point { x: 0, y: 0 }, distance: 0 })
        },
{
    let faction: Option<u32> = if press.primary {
        Some(PLAYER_FACTION)
    } else if press.secondary {
        Some(SECONDARY_FACTION)
    } else {
        None
    };
    match (faction, pointer) {
        (Some(f), Some(p)) => {
            let at = spawn_position(p, width, height);
            Some(spaceship_bundle(f, at.x, at.y))
        },
        _ => None,
    }
}

/// The sum of the `x` coordinates of `ps`.
pub open spec fn sum_x(ps: Seq<Point>) -> int
    decreases ps.len(),
{
    if ps.len() == 0 {
        0
    } else {
        sum_x(ps.drop_last()) + ps.last().x
    }
}

/// The sum of the `y` coordinates of `ps`.
pub open spec fn sum_y(ps: Seq<Point>) -> int
    decreases ps.len(),
{
    if ps.len() == 0 {
        0
    } else {
        sum_y(ps.drop_last()) + ps.last().y
    }
}

/// `c` is the mean of `n` values summing to `sum`, rounded down.
pub open spec fn is_floor_mean(c: int, sum: int, n: int) -> bool {
    c * n <= sum < c * n + n
}

/// The mean of `n` coordinates whose sum is `sum`, rounded down.
fn floor_mean(sum: i128, n: usize) -> (c: i32)
    requires
        n > 0,
        n * i32::MIN <= sum <= n * i32::MAX,
    ensures
        is_floor_mean(c as int, sum as int, n as int),
{
    let shift: i128 = 0x8000_0000;
    assert(0 <= sum + n * shift <= n * 0xffff_ffff) by (nonlinear_arith)
        requires
            n * (-0x8000_0000) <= sum <= n * 0x7fff_ffff,
            shift == 0x8000_0000,
            n > 0,
    ;
    assert(n * 0xffff_ffff < 0x1_0000_0000_0000_0000 * 0x1_0000_0000) by (nonlinear_arith)
        requires
            n < 0x1_0000_0000_0000_0000,
    ;
    let total: u128 = (sum + n as i128 * shift) as u128;
    let q: u128 = total / n as u128;
    proof {
        vstd::arithmetic::div_mod::lemma_fundamental_div_mod(total as int, n as int);
        vstd::arithmetic::div_mod::lemma_mod_pos_bound(total as int, n as int);
    }
    assert(q * n <= total < q * n + n && q <= 0xffff_ffff) by (nonlinear_arith)
        requires
            total == n * q + (total as int) % (n as int),
            0 <= (total as int) % (n as int) < n,
            n > 0,
            0 <= total <= n * 0xffff_ffff,
    ;
    let c: i64 = q as i64 - 0x8000_0000;
    assert(c * n <= sum < c * n + n) by (nonlinear_arith)
        requires
            q * n <= total < q * n + n,
            total == sum + n * 0x8000_0000,
            c == q - 0x8000_0000,
    ;
    c as i32
}

/// Where the camera looks: the mean position of `positions`, rounded down on each
/// axis; `None` when there are none.
pub fn camera_center(positions: &Vec<Point>) -> (c: Option<Point>)
    ensures
        c is None <==> positions@.len() == 0,
        c matches Some(p) ==> is_floor_mean(p.x as int, sum_x(positions@), positions@.len() as int)
            && is_floor_mean(p.y as int, sum_y(positions@), positions@.len() as int),
{
    let n = positions.len();
    if n == 0 {
        return None;
    }
    let mut sx: i128 = 0;
    let mut sy: i128 = 0;
    let mut i: usize = 0;
    while i < n
        invariant
            n == positions@.len(),
            i <= n,
            sx == sum_x(positions@.take(i as int)),
            sy == sum_y(positions@.take(i as int)),
            i * i32::MIN <= sx <= i * i32::MAX,
            i * i32::MIN <= sy <= i * i32::MAX,
        decreases n - i,
    {
        let p = positions[i];
        assert(positions@.take(i + 1).drop_last() =~= positions@.take(i as int));
        sx = sx + p.x as i128;
        sy = sy + p.y as i128;
        i = i + 1;
    }
    assert(positions@.take(n as int) =~= positions@);
    Some(Point { x: floor_mean(sx, n), y: floor_mean(sy, n) })
}

} // verus!
