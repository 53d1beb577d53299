use gravity_war::faction::Faction;
use gravity_war::geometry::{floor_sqrt, Point};
use gravity_war::targeting::{group_by_faction, nearest_hostile, update_targets, Ship, Target};

fn ship(faction: u32, x: i32, y: i32) -> Ship {
    Ship { faction: Faction(faction), position: Point::new(x, y), target: Target::default() }
}

#[test]
fn nearest_target_is_closest_ship_of_other_faction() {
    let mut ships = vec![
        ship(1, 0, 0),
        ship(2, 50, 0),
        ship(2, -30, 40),
        ship(3, 10, 10),
        ship(1, 12, 10),
    ];
    update_targets(&mut ships);
    // ship 0: candidates (50,0) d=50, (-30,40) d=50, (10,10) d~14.1
    assert_eq!(ships[0].target.translation, Point::new(10, 10));
    assert_eq!(ships[0].target.distance, 14);
    // ship 3 (faction 3): nearest non-3 is (12,10), distance 2
    assert_eq!(ships[3].target.translation, Point::new(12, 10));
    assert_eq!(ships[3].target.distance, 2);
    // ship 1 (faction 2 at (50,0)): nearest non-2 is (12,10): sqrt(38^2+10^2)=39.29
    assert_eq!(ships[1].target.translation, Point::new(12, 10));
    assert_eq!(ships[1].target.distance, 39);
}

#[test]
fn nearest_target_ignores_own_faction_even_when_closer() {
    let mut ships = vec![ship(1, 0, 0), ship(1, 1, 0), ship(2, 500, 0)];
    assert_eq!(update_targets(&mut ships), vec![true, true, true]);
    assert_eq!(ships[0].target.translation, Point::new(500, 0));
    assert_eq!(ships[1].target.translation, Point::new(500, 0));
    assert_eq!(ships[1].target.distance, 499);
    assert_eq!(ships[2].target.translation, Point::new(1, 0));
}

#[test]
fn nearest_target_sees_every_ship_of_an_interleaved_faction() {
    // Ships of one faction that do not stand next to each other in the list
    // are all candidates.
    let mut ships = vec![ship(2, 1000, 0), ship(1, 0, 0), ship(2, 3, 4), ship(3, 900, 0)];
    update_targets(&mut ships);
    assert_eq!(ships[1].target.translation, Point::new(3, 4));
    assert_eq!(ships[1].target.distance, 5);
}

#[test]
fn lone_faction_keeps_previous_target() {
    let previous = Target { translation: Point::new(7, -7), distance: 9 };
    let mut ships = vec![
        Ship { faction: Faction(4), position: Point::new(0, 0), target: previous },
        Ship { faction: Faction(4), position: Point::new(5, 5), target: Target::default() },
    ];
    assert_eq!(update_targets(&mut ships), vec![false, false]);
    assert_eq!(ships[0].target, previous);
    assert_eq!(ships[1].target, Target::default());
}

#[test]
fn empty_arena_has_nothing_to_update() {
    let mut ships: Vec<Ship> = Vec::new();
    assert!(update_targets(&mut ships).is_empty());
    assert!(ships.is_empty());
}

#[test]
fn grouping_partitions_by_faction() {
    let ships = vec![ship(1, 0, 0), ship(2, 1, 1), ship(1, 2, 2), ship(3, 3, 3)];
    let groups = group_by_faction(&ships);
    assert_eq!(groups.len(), 3);
    let one = groups.iter().find(|g| g.faction == Faction(1)).unwrap();
    assert_eq!(one.positions, vec![Point::new(0, 0), Point::new(2, 2)]);
    let two = groups.iter().find(|g| g.faction == Faction(2)).unwrap();
    assert_eq!(two.positions, vec![Point::new(1, 1)]);
}

#[test]
fn nearest_hostile_reports_squared_distance() {
    let ships = vec![ship(1, 0, 0), ship(2, 6, 8), ship(2, -9, 0)];
    let groups = group_by_faction(&ships);
    assert_eq!(nearest_hostile(&groups, Faction(1), Point::new(0, 0)), Some((Point::new(-9, 0), 81)));
    assert_eq!(nearest_hostile(&groups, Faction(2), Point::new(6, 8)), Some((Point::new(0, 0), 100)));
    assert_eq!(nearest_hostile(&groups, Faction(1), Point::new(6, 8)), Some((Point::new(6, 8), 0)));
    let alone = group_by_faction(&vec![ship(1, 0, 0)]);
    assert_eq!(nearest_hostile(&alone, Faction(1), Point::new(0, 0)), None);
}

#[test]
fn distances_at_the_edge_of_the_plane() {
    let a = Point::new(i32::MIN, i32::MIN);
    let b = Point::new(i32::MAX, i32::MAX);
    let d = a.distance_squared(&b);
    assert_eq!(d, 2 * (u32::MAX as u128) * (u32::MAX as u128));
    let mut ships = vec![
        Ship { faction: Faction(1), position: a, target: Target::default() },
        Ship { faction: Faction(2), position: b, target: Target::default() },
    ];
    update_targets(&mut ships);
    // sqrt(2) * (2^32 - 1), rounded down
    assert_eq!(ships[0].target.distance, 6_074_000_998);
}

#[test]
fn floor_sqrt_exact_values() {
    assert_eq!(floor_sqrt(0), 0);
    assert_eq!(floor_sqrt(1), 1);
    assert_eq!(floor_sqrt(15), 3);
    assert_eq!(floor_sqrt(16), 4);
    assert_eq!(floor_sqrt(10_000), 100);
    assert_eq!(floor_sqrt(u128::MAX), u64::MAX);
}

struct Lcg(u64);

impl Lcg {
    fn next(&mut self, bound: u64) -> u64 {
        self.0 = self.0.wrapping_mul(6364136223846793005).wrapping_add(1442695040888963407);
        (self.0 >> 33) % bound
    }
}

#[test]
fn nearest_target_matches_brute_force_on_random_arenas() {
    let mut rng = Lcg(7);
    for _ in 0..300 {
        let n = 1 + rng.next(16) as usize;
        let ships: Vec<Ship> = (0..n)
            .map(|_| {
                let f = rng.next(4) as u32;
                let x = rng.next(2001) as i32 - 1000;
                let y = rng.next(2001) as i32 - 1000;
                Ship {
                    faction: Faction(f),
                    position: Point::new(x, y),
                    target: Target { translation: Point::new(1, 2), distance: 3 },
                }
            })
            .collect();
        let mut resolved = ships.clone();
        let flags = update_targets(&mut resolved);
        assert_eq!(flags.len(), ships.len());
        for ((before, after), flag) in ships.iter().zip(resolved.iter()).zip(flags) {
            assert_eq!(before.faction, after.faction);
            assert_eq!(before.position, after.position);
            let hostiles: Vec<Point> =
                ships.iter().filter(|s| s.faction != before.faction).map(|s| s.position).collect();
            assert_eq!(flag, !hostiles.is_empty());
            if hostiles.is_empty() {
                assert_eq!(after.target, before.target);
            } else {
                let best = hostiles.iter().map(|h| before.position.distance_squared(h)).min().unwrap();
                assert!(hostiles.contains(&after.target.translation));
                assert_eq!(before.position.distance_squared(&after.target.translation), best);
                assert_eq!(after.target.distance as u128, (best as f64).sqrt().floor() as u128);
            }
        }
    }
}
