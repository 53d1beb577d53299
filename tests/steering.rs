use gravity_war::control::{
    camera_center, move_spaceship, spaceship_bundle, spawn_by_click, spawn_position, DirectionKeys,
    PointerPress,
};
use gravity_war::faction::{Faction, FactionEvent, FactionIndex, PaletteColor};
use gravity_war::geometry::Point;
use gravity_war::steering::{
    apply_forces, propulsion, steering_torque, target_direction, Configuration, Force, HEADING_SCALE,
    POSITION_SCALE,
};
use gravity_war::targeting::{update_targets, Ship, Target};

const QUARTER_TURN_MICRORADIANS: i64 = 1_570_796;

#[test]
fn default_configuration_values() {
    let c = Configuration::default();
    assert_eq!(c.rotation_force, 20);
    assert_eq!(c.propulsion_force, 50);
    assert_eq!(c.aim_distance, 100 * POSITION_SCALE);
    assert_eq!(c.rotation_max, 50_000_000);
}

#[test]
fn torque_is_gain_times_angle_inside_the_bound() {
    let c = Configuration::default();
    assert_eq!(steering_torque(0, &c), 0);
    assert_eq!(steering_torque(1_000_000, &c), 20_000_000);
    assert_eq!(steering_torque(-1_000_000, &c), -20_000_000);
}

#[test]
fn torque_clamps_at_and_beyond_the_bound() {
    let c = Configuration::default();
    // 2.5 rad * 0.02 is exactly the bound.
    assert_eq!(steering_torque(2_500_000, &c), 50_000_000);
    assert_eq!(steering_torque(-2_500_000, &c), -50_000_000);
    assert_eq!(steering_torque(2_500_001, &c), 50_000_000);
    assert_eq!(steering_torque(-3_141_593, &c), -50_000_000);
    assert_eq!(steering_torque(i64::MAX, &c), 50_000_000);
    assert_eq!(steering_torque(i64::MIN, &c), -50_000_000);
    let strong = Configuration { rotation_force: i64::MAX, ..c };
    assert_eq!(steering_torque(i64::MIN, &strong), -50_000_000);
    let rigid = Configuration { rotation_max: 0, ..c };
    assert_eq!(steering_torque(123, &rigid), 0);
}

#[test]
fn thrust_is_full_along_the_heading() {
    let c = Configuration::default();
    assert_eq!(propulsion(Point::new(0, HEADING_SCALE), &c), Force { x: 0, y: 50_000_000 });
    assert_eq!(propulsion(Point::new(-HEADING_SCALE, 0), &c), Force { x: -50_000_000, y: 0 });
    assert_eq!(propulsion(Point::new(0, 0), &c), Force { x: 0, y: 0 });
}

#[test]
fn one_tick_between_two_ships() {
    let c = Configuration::default();
    let mut ships = vec![
        Ship { faction: Faction(1), position: Point::new(0, 0), target: Target::default() },
        Ship { faction: Faction(2), position: Point::new(100, 0), target: Target::default() },
    ];
    assert_eq!(update_targets(&mut ships), vec![true, true]);
    assert_eq!(ships[0].target.translation, Point::new(100, 0));
    assert_eq!(ships[0].target.distance, 100);
    assert_eq!(target_direction(&ships[0]), (100, 0));
    // Facing +Y, the target at +X is a quarter turn clockwise.
    let heading = Point::new(0, HEADING_SCALE);
    let command = apply_forces(heading, -QUARTER_TURN_MICRORADIANS, &c);
    assert!(command.torque < 0);
    assert!(command.torque >= -c.rotation_max);
    assert_eq!(command.torque, -31_415_920);
    assert_eq!(command.force, Force { x: 0, y: c.propulsion_force as i64 * HEADING_SCALE as i64 });
}

#[test]
fn spawn_translates_pointer_to_plane() {
    assert_eq!(spawn_position(Point::new(640, 360), 1280, 720), Point::new(0, 0));
    assert_eq!(spawn_position(Point::new(0, 0), 1280, 720), Point::new(-640, -360));
    assert_eq!(spawn_position(Point::new(1280, 720), 1280, 720), Point::new(640, 360));
    assert_eq!(spawn_position(Point::new(10, 20), 0, 0), Point::new(10, 20));
}

#[test]
fn click_spawns_by_button() {
    let at = Some(Point::new(700, 400));
    let primary = PointerPress { primary: true, secondary: false };
    let secondary = PointerPress { primary: false, secondary: true };
    let both = PointerPress { primary: true, secondary: true };
    let none = PointerPress { primary: false, secondary: false };
    let s = spawn_by_click(primary, at, 1280, 720).unwrap();
    assert_eq!(s.faction, Faction(1));
    assert_eq!(s.position, Point::new(60, 40));
    assert_eq!(s.target, Target::default());
    assert_eq!(spawn_by_click(secondary, at, 1280, 720).unwrap().faction, Faction(2));
    assert_eq!(spawn_by_click(both, at, 1280, 720).unwrap().faction, Faction(1));
    assert_eq!(spawn_by_click(none, at, 1280, 720), None);
    assert_eq!(spawn_by_click(primary, None, 1280, 720), None);
}

#[test]
fn new_spaceship_has_no_target() {
    let s = spaceship_bundle(3, -5, 7);
    assert_eq!(s.faction, Faction(3));
    assert_eq!(s.position, Point::new(-5, 7));
    assert_eq!(s.target, Target { translation: Point::new(0, 0), distance: 0 });
}

#[test]
fn only_player_faction_follows_direction_keys() {
    let mut ships = vec![
        spaceship_bundle(1, 0, 0),
        spaceship_bundle(2, 0, 0),
        spaceship_bundle(0, 5, 5),
        spaceship_bundle(1, 10, 10),
    ];
    let keys = DirectionKeys { up: true, down: false, left: false, right: true };
    move_spaceship(&mut ships, keys, 16);
    assert_eq!(ships[0].position, Point::new(16, 16));
    assert_eq!(ships[1].position, Point::new(0, 0));
    assert_eq!(ships[2].position, Point::new(5, 5));
    assert_eq!(ships[3].position, Point::new(26, 26));
    let opposite = DirectionKeys { up: true, down: true, left: true, right: false };
    move_spaceship(&mut ships, opposite, 4);
    assert_eq!(ships[0].position, Point::new(12, 16));
    assert_eq!(ships[1].position, Point::new(0, 0));
}

#[test]
fn direct_control_stops_at_the_edge_of_the_plane() {
    let mut ships = vec![spaceship_bundle(1, i32::MAX - 1, i32::MIN + 1)];
    let keys = DirectionKeys { up: false, down: true, left: false, right: true };
    move_spaceship(&mut ships, keys, 10);
    assert_eq!(ships[0].position, Point::new(i32::MAX, i32::MIN));
}

#[test]
fn faction_colors_cycle_through_the_palette() {
    assert_eq!(PaletteColor::from(Faction(0)), PaletteColor::Blue);
    assert_eq!(PaletteColor::from(Faction(1)), PaletteColor::Red);
    assert_eq!(PaletteColor::from(Faction(2)), PaletteColor::Green);
    assert_eq!(PaletteColor::from(Faction(3)), PaletteColor::Yellow);
    assert_eq!(PaletteColor::from(Faction(4)), PaletteColor::Purple);
    assert_eq!(PaletteColor::from(Faction(5)), PaletteColor::Blue);
    assert_eq!(PaletteColor::from(Faction(u32::MAX)), PaletteColor::Blue);
}

#[test]
fn faction_index_follows_add_and_remove() {
    let mut index = FactionIndex::new();
    index.insert(10, Faction(1));
    index.insert(11, Faction(1));
    index.insert(20, Faction(2));
    let mut ones = index.members(Faction(1));
    ones.sort();
    assert_eq!(ones, vec![10, 11]);
    assert_eq!(index.members(Faction(2)), vec![20]);
    index.remove(10);
    assert_eq!(index.members(Faction(1)), vec![11]);
    index.remove(10);
    index.remove(99);
    assert_eq!(index.members(Faction(1)), vec![11]);
    // A new faction for an entity moves it, it does not copy it.
    index.insert(11, Faction(2));
    assert!(index.members(Faction(1)).is_empty());
    let mut twos = index.members(Faction(2));
    twos.sort();
    assert_eq!(twos, vec![11, 20]);
    assert!(index.members(Faction(7)).is_empty());
}

#[test]
fn faction_index_from_events() {
    let events = vec![
        FactionEvent::Added(1, Faction(0)),
        FactionEvent::Added(2, Faction(0)),
        FactionEvent::Added(3, Faction(1)),
        FactionEvent::Removed(2),
        FactionEvent::Added(1, Faction(1)),
        FactionEvent::Removed(4),
        FactionEvent::Added(2, Faction(3)),
    ];
    let index = FactionIndex::from_events(&events);
    assert!(index.members(Faction(0)).is_empty());
    let mut ones = index.members(Faction(1));
    ones.sort();
    assert_eq!(ones, vec![1, 3]);
    assert_eq!(index.members(Faction(3)), vec![2]);
    let mut again = FactionIndex::from_events(&events);
    again.apply_events(&vec![FactionEvent::Removed(3), FactionEvent::Removed(3)]);
    assert_eq!(again.members(Faction(1)), vec![1]);
}

#[test]
fn camera_looks_at_the_mean_position() {
    assert_eq!(camera_center(&vec![]), None);
    let ps = vec![Point::new(0, 0), Point::new(10, 0), Point::new(5, 3)];
    assert_eq!(camera_center(&ps), Some(Point::new(5, 1)));
    let ps = vec![Point::new(-1, 3), Point::new(0, 0)];
    assert_eq!(camera_center(&ps), Some(Point::new(-1, 1)));
    let ps = vec![Point::new(i32::MIN, i32::MAX), Point::new(i32::MIN, i32::MAX)];
    assert_eq!(camera_center(&ps), Some(Point::new(i32::MIN, i32::MAX)));
}
