use spire::entity::arena_center;
use spire::{Entity, Rgba, Vec2, World, UNIT};

const ARENA: (i64, i64, i64, i64) = (0, 0, 100 * UNIT, 100 * UNIT);

fn entity(pos: (i64, i64), vel: (i64, i64), speed: i64, max_speed: i64, target: (i64, i64)) -> Entity {
    Entity {
        pos: Vec2::new(pos.0, pos.1),
        vel: Vec2::new(vel.0, vel.1),
        speed,
        max_speed,
        target_dir: Vec2::new(target.0, target.1),
        color: Rgba { r: 100, g: 10, b: 50, a: 50 },
        size: UNIT,
    }
}

#[test]
fn map_sends_range_ends_onto_range_ends() {
    assert_eq!(World::map(0, 0, 10, 0, 100), 0);
    assert_eq!(World::map(10, 0, 10, 0, 100), 100);
    assert_eq!(World::map(-7, -7, 3, 40, -60), 40);
    assert_eq!(World::map(3, -7, 3, 40, -60), -60);
}

#[test]
fn map_is_linear_inside_and_outside_the_range() {
    assert_eq!(World::map(5, 0, 10, 0, 100), 50);
    assert_eq!(World::map(20, 0, 10, 0, 100), 200);
    assert_eq!(World::map(-5, 0, 10, 0, 100), -50);
    // inverting an axis, as a window's y coordinate is turned upside down
    assert_eq!(World::map(100, 900, 0, 0, 900), 800);
}

#[test]
fn map_rounds_toward_the_output_start() {
    assert_eq!(World::map(1, 0, 3, 0, 10), 3);
    assert_eq!(World::map(-1, 0, 3, 0, 10), -3);
    assert_eq!(World::map(2, 0, 3, 10, 0), 4);
}

#[test]
fn velocity_is_capped_from_above_only() {
    let mut up = entity((50 * UNIT, 50 * UNIT), (0, 0), UNIT / 2, UNIT, (UNIT, UNIT));
    for _ in 0..5 {
        up.update(ARENA);
    }
    assert_eq!(up.vel, Vec2::new(UNIT, UNIT));

    let mut down = entity((50 * UNIT, 50 * UNIT), (0, 0), UNIT / 2, UNIT, (-UNIT, -UNIT));
    for _ in 0..5 {
        down.update(ARENA);
    }
    assert_eq!(down.vel, Vec2::new(-5 * (UNIT / 2), -5 * (UNIT / 2)));
    assert!(down.vel.x < -down.max_speed);
}

#[test]
fn velocity_below_cap_after_acceleration_is_kept() {
    let mut e = entity((50 * UNIT, 50 * UNIT), (UNIT / 4, -3 * UNIT), UNIT / 2, UNIT, (UNIT, 0));
    e.update(ARENA);
    assert_eq!(e.vel, Vec2::new(UNIT / 4 + UNIT / 2, -3 * UNIT));
    assert_eq!(e.pos, Vec2::new(50 * UNIT + UNIT / 4 + UNIT / 2, 47 * UNIT));
}

#[test]
fn left_wall_reflects_x_and_keeps_y_sign() {
    let mut e = entity((0, 50 * UNIT), (-2 * UNIT, UNIT / 4), 0, 4 * UNIT, (0, 0));
    e.update(ARENA);
    assert_eq!(e.vel, Vec2::new(3 * UNIT, UNIT / 4));
    assert_eq!(e.target_dir, Vec2::new(UNIT, 0));
    assert_eq!(e.pos, Vec2::new(3 * UNIT, 50 * UNIT + UNIT / 4));
}

#[test]
fn right_wall_counts_the_entity_size() {
    let mut e = entity((99 * UNIT, 50 * UNIT), (3 * UNIT, -UNIT / 4), 0, 4 * UNIT, (0, 0));
    e.update(ARENA);
    assert_eq!(e.vel, Vec2::new(-4 * UNIT, -UNIT / 4));
    assert_eq!(e.target_dir, Vec2::new(-UNIT, 0));
}

#[test]
fn top_wall_reflects_y_and_keeps_x_sign() {
    let mut e = entity((50 * UNIT, 0), (UNIT / 4, -2 * UNIT), 0, 4 * UNIT, (0, 0));
    e.update(ARENA);
    assert_eq!(e.vel, Vec2::new(UNIT / 4, 3 * UNIT));
    assert_eq!(e.target_dir, Vec2::new(0, UNIT));
}

#[test]
fn corner_reflects_both_axes_and_pushes_twice() {
    let mut e = entity((0, 0), (-UNIT, -UNIT), 0, 4 * UNIT, (0, 0));
    e.update(ARENA);
    assert_eq!(e.vel, Vec2::new(158216, 65536));
    assert_eq!(e.target_dir, Vec2::new(46340, 46340));
    assert_eq!(e.pos, Vec2::new(158216, 65536));
}

#[test]
fn advance_uses_the_given_intent_when_no_push_is_possible() {
    // a one-unit-wide arena whose middle is the entity's own place
    let bounds = (0, 0, 1, 1);
    let mut e = entity((0, 0), (-5, 7), 0, 100, (0, 0));
    e.advance(bounds, Vec2::new(-3, 9));
    assert_eq!(e.vel, Vec2::new(5, -7));
    assert_eq!(e.target_dir, Vec2::new(-3, 9));
    assert_eq!(e.pos, Vec2::new(5, -7));
}

#[test]
fn attraction_toward_a_focus_on_the_right() {
    let mut world = World::from_entities(vec![entity((0, 0), (0, 0), 0, UNIT, (0, 0))], ARENA);
    world.set_entity_focus_point(Vec2::new(10 * UNIT, 0), false, UNIT);
    let e = world.entities()[0];
    assert_eq!(e.vel, Vec2::new(UNIT, 0));
    assert_eq!(e.target_dir, Vec2::new(UNIT, 0));
    assert_eq!(e.pos, Vec2::new(0, 0));
}

#[test]
fn inverse_focus_negates_the_velocity_change() {
    let start = vec![
        entity((0, 0), (5, -9), 0, UNIT, (0, 0)),
        entity((3 * UNIT, 4 * UNIT), (UNIT, UNIT), 0, UNIT, (0, 0)),
        entity((-7 * UNIT, 2 * UNIT), (-UNIT, 0), 0, UNIT, (0, 0)),
    ];
    let origin = Vec2::new(10 * UNIT, 0);
    let strength = UNIT / 3;
    let mut pull = World::from_entities(start.clone(), ARENA);
    let mut push = World::from_entities(start.clone(), ARENA);
    pull.set_entity_focus_point(origin, false, strength);
    push.set_entity_focus_point(origin, true, strength);
    for i in 0..start.len() {
        let before = start[i].vel;
        let a = pull.entities()[i].vel;
        let b = push.entities()[i].vel;
        assert_eq!(b.x - before.x, -(a.x - before.x));
        assert_eq!(b.y - before.y, -(a.y - before.y));
        assert!(a != before);
    }
    assert_eq!(push.entities()[0].vel, Vec2::new(5 - strength, -9));
}

#[test]
fn entity_on_the_focus_is_left_unchanged() {
    let e = entity((10 * UNIT, 0), (UNIT, -UNIT), UNIT, UNIT, (3, 4));
    for inverse in [false, true] {
        let mut world = World::from_entities(vec![e], ARENA);
        world.set_entity_focus_point(Vec2::new(10 * UNIT, 0), inverse, 5 * UNIT);
        assert_eq!(world.entities()[0], e);
    }
}

#[test]
fn ticks_do_not_depend_on_the_entity_order() {
    let es = vec![
        entity((0, 20 * UNIT), (-UNIT, 0), UNIT / 3, 2 * UNIT, (UNIT, -UNIT)),
        entity((40 * UNIT, 40 * UNIT), (UNIT, UNIT), UNIT / 2, UNIT, (-UNIT, UNIT / 2)),
        entity((99 * UNIT, 99 * UNIT), (UNIT, 2 * UNIT), UNIT / 4, 3 * UNIT, (UNIT / 2, UNIT)),
    ];
    let draws = vec![Vec2::new(-UNIT, 3), Vec2::new(7, 7), Vec2::new(UNIT - 1, -UNIT)];
    let order = [2usize, 0, 1];
    let mut a = World::from_entities(es.clone(), ARENA);
    let mut b = World::from_entities(order.iter().map(|&i| es[i]).collect(), ARENA);
    let moved: Vec<Vec2> = order.iter().map(|&i| draws[i]).collect();
    for _ in 0..6 {
        a.update_with(&draws);
        b.update_with(&moved);
    }
    for (k, &i) in order.iter().enumerate() {
        assert_eq!(b.entities()[k], a.entities()[i]);
    }
}

#[test]
fn update_without_walls_matches_advance() {
    let es = vec![
        entity((30 * UNIT, 30 * UNIT), (UNIT, 0), UNIT / 3, 2 * UNIT, (UNIT, -UNIT)),
        entity((60 * UNIT, 40 * UNIT), (0, -UNIT), UNIT / 5, UNIT, (-UNIT, UNIT / 2)),
    ];
    let mut world = World::from_entities(es.clone(), ARENA);
    world.update();
    for i in 0..es.len() {
        let mut e = es[i];
        e.advance(ARENA, Vec2::new(0, 0));
        assert_eq!(world.entities()[i], e);
    }
    assert_eq!(world.bounds(), ARENA);
}

#[test]
fn push_goes_along_a_unit_direction() {
    let mut e = entity((0, 0), (0, 0), 0, UNIT, (0, 0));
    e.push_towards_pos(Vec2::new(3 * UNIT, 4 * UNIT), UNIT);
    assert_eq!(e.vel, Vec2::new(39321, 52428));
    assert_eq!(e.target_dir, Vec2::new(39321, 52428));

    let mut same = entity((5, 5), (1, 2), 0, UNIT, (9, 9));
    let before = same;
    same.push_towards_pos(Vec2::new(5, 5), UNIT);
    assert_eq!(same, before);
}

#[test]
fn apply_force_adds_and_retargets() {
    let mut e = entity((0, 0), (10, 10), 0, UNIT, (0, 0));
    e.apply_force(Vec2::new(UNIT, -UNIT), 2 * UNIT);
    assert_eq!(e.vel, Vec2::new(10 + 2 * UNIT, 10 - 2 * UNIT));
    assert_eq!(e.target_dir, Vec2::new(UNIT, -UNIT));
    e.apply_force(Vec2::new(UNIT / 2, 0), -UNIT);
    assert_eq!(e.vel, Vec2::new(10 + 2 * UNIT - UNIT / 2, 10 - 2 * UNIT));
}

#[test]
fn directions_are_scaled_to_unit_length() {
    let e = entity((0, 0), (0, 0), 0, UNIT, (3, 4));
    assert_eq!(e.get_target_dir_norm(), Vec2::new(39321, 52428));
    assert_eq!(Vec2::new(2, 2).direction_to(Vec2::new(2, 2)), Vec2::zero());
    assert_eq!(Vec2::new(0, 0).direction_to(Vec2::new(0, -9)), Vec2::new(0, -UNIT));
    assert_eq!(Vec2::new(1, 1).negated(), Vec2::new(-1, -1));
}

#[test]
fn getters_read_the_state() {
    let e = entity((4, 5), (0, 0), 0, UNIT, (0, 0));
    assert_eq!(e.get_pos(), Vec2::new(4, 5));
    assert_eq!(e.get_size(), UNIT);
    assert_eq!(e.get_color(), Rgba { r: 100, g: 10, b: 50, a: 50 });
}

#[test]
fn random_target_stays_in_the_draw_range() {
    let mut e = entity((4, 5), (6, 7), 1, UNIT, (0, 0));
    let mut seen = Vec::new();
    for _ in 0..50 {
        e.set_random_target();
        assert!(-UNIT <= e.target_dir.x && e.target_dir.x < UNIT);
        assert!(-UNIT <= e.target_dir.y && e.target_dir.y < UNIT);
        assert_eq!((e.pos, e.vel, e.speed), (Vec2::new(4, 5), Vec2::new(6, 7), 1));
        seen.push(e.target_dir);
    }
    assert!(seen.iter().any(|d| *d != seen[0]));
}

#[test]
fn new_entity_rests_with_a_random_look() {
    let mut sizes = Vec::new();
    for _ in 0..50 {
        let e = Entity::new(Vec2::new(1, 2), 3, 4, Vec2::new(5, 6));
        assert_eq!((e.pos, e.vel, e.speed, e.max_speed), (Vec2::new(1, 2), Vec2::zero(), 3, 4));
        assert_eq!(e.target_dir, Vec2::new(5, 6));
        assert!(15 <= e.color.r && e.color.r < 255);
        assert!(e.color.g < 25 && e.color.b < 185);
        assert!(10 <= e.color.a && e.color.a < 100);
        assert!(UNIT <= e.size && e.size < 6 * UNIT);
        sizes.push(e.size);
    }
    assert!(sizes.iter().any(|s| *s != sizes[0]));
}

#[test]
fn new_world_spawns_inside_its_arena() {
    let accel = (UNIT / 4, UNIT / 2);
    let cap = (UNIT, 2 * UNIT);
    let world = World::new(300, accel, cap, ARENA);
    assert_eq!(world.entities().len(), 300);
    assert_eq!(world.bounds(), ARENA);
    for e in world.entities() {
        assert!(0 <= e.pos.x && e.pos.x < 100 * UNIT && 0 <= e.pos.y && e.pos.y < 100 * UNIT);
        assert_eq!(e.vel, Vec2::zero());
        assert!(accel.0 <= e.speed && e.speed < accel.1);
        assert!(cap.0 <= e.max_speed && e.max_speed < cap.1);
        assert!(UNIT / 2 <= e.target_dir.x && e.target_dir.x < UNIT);
        assert!(UNIT / 2 <= e.target_dir.y && e.target_dir.y < UNIT);
    }
    let first = world.entities()[0].pos;
    assert!(world.entities().iter().any(|e| e.pos != first));
}

#[test]
fn empty_world_needs_no_ranges() {
    let world = World::new(0, (UNIT, 0), (5, 5), (0, 0, 0, 0));
    assert!(world.entities().is_empty());
    assert_eq!(world.bounds(), (0, 0, 0, 0));
}

#[test]
fn empty_world_updates_to_nothing() {
    let mut world = World::new(0, (0, 1), (0, 1), ARENA);
    world.update();
    world.set_entity_focus_point(Vec2::zero(), true, UNIT);
    assert!(world.entities().is_empty());
}

#[test]
fn arena_center_rounds_toward_zero() {
    assert_eq!(arena_center((0, 0, 100 * UNIT, 60 * UNIT)), Vec2::new(50 * UNIT, 30 * UNIT));
    assert_eq!(arena_center((-3, 1, 0, 2)), Vec2::new(-1, 1));
}

fn squared_length(v: Vec2) -> i64 {
    v.x * v.x + v.y * v.y
}

#[test]
fn short_displacements_give_unit_directions() {
    let d = Vec2::new(0, 0).direction_to(Vec2::new(1, 1));
    assert_eq!(d, Vec2::new(46340, 46340));
    let e = Vec2::new(5, 5).direction_to(Vec2::new(4, 7));
    assert_eq!(e, Vec2::new(-29308, 58617));
    for v in [d, e] {
        assert!((UNIT - 2) * (UNIT - 2) <= squared_length(v));
        assert!(squared_length(v) <= UNIT * UNIT);
    }
    let far = Vec2::new(-3_000_000_000_000, 7).direction_to(Vec2::new(4_000_000_000_000, 9));
    assert_eq!(far, Vec2::new(UNIT - 1, 0));
}

#[test]
fn push_toward_a_point_one_step_away_is_unit_length() {
    let mut e = entity((0, 0), (0, 0), 0, UNIT, (0, 0));
    e.push_towards_pos(Vec2::new(1, 1), UNIT);
    assert_eq!(e.vel, Vec2::new(46340, 46340));
    assert_eq!(e.target_dir, Vec2::new(46340, 46340));
}

#[test]
fn focus_one_step_away_repels_by_a_unit_direction() {
    let mut world = World::from_entities(vec![entity((0, 0), (0, 0), 0, UNIT, (0, 0))], ARENA);
    world.set_entity_focus_point(Vec2::new(1, 1), true, 2 * UNIT);
    let e = world.entities()[0];
    assert_eq!(e.target_dir, Vec2::new(-46340, -46340));
    assert_eq!(e.vel, Vec2::new(-92680, -92680));
}
