use ants::{angle_delta, ceil_sqrt_u128, draw_range, scale_to, truncate};
use ants::{generate_hashmap, Ant, Bounds, MapPixel, Model, Nudge, Vector, SCALE};
use rand::rngs::StdRng;
use rand::SeedableRng;

const PX: i64 = SCALE;

fn arena() -> Vector {
    Vector::new(1024 * PX, 1024 * PX)
}

fn heading_of(angle_millideg: i64) -> Vector {
    let theta = (angle_millideg as f64 / 1000.0).to_radians();
    Vector::new(
        (theta.cos() * SCALE as f64).round() as i64,
        (theta.sin() * SCALE as f64).round() as i64,
    )
}

#[test]
fn truncate_keeps_vector_at_limit() {
    let mut v = Vector::new(3 * PX, 4 * PX);
    truncate(&mut v, 5 * PX);
    assert_eq!(v, Vector::new(3 * PX, 4 * PX));
}

#[test]
fn truncate_scales_long_vector() {
    let mut v = Vector::new(3 * PX, 4 * PX);
    truncate(&mut v, 2_500_000);
    assert_eq!(v, Vector::new(1_500_000, 2_000_000));
}

#[test]
fn truncate_leaves_zero_vector() {
    let mut v = Vector::new(0, 0);
    truncate(&mut v, PX);
    assert_eq!(v, Vector::new(0, 0));
}

#[test]
fn truncate_negative_components() {
    let mut v = Vector::new(-6 * PX, -8 * PX);
    truncate(&mut v, 5 * PX);
    assert_eq!(v, Vector::new(-3 * PX, -4 * PX));
}

#[test]
fn ceil_sqrt_values() {
    assert_eq!(ceil_sqrt_u128(0), 0);
    assert_eq!(ceil_sqrt_u128(1), 1);
    assert_eq!(ceil_sqrt_u128(24), 5);
    assert_eq!(ceil_sqrt_u128(25), 5);
    assert_eq!(ceil_sqrt_u128(26), 6);
}

#[test]
fn scale_to_unit_and_zero() {
    assert_eq!(scale_to(Vector::new(45 * PX, 0), PX), Vector::new(PX, 0));
    assert_eq!(scale_to(Vector::new(0, -7), PX), Vector::new(0, -PX));
    assert_eq!(scale_to(Vector::new(0, 0), PX), Vector::new(0, 0));
    assert_eq!(scale_to(Vector::new(3, 4), 5_000), Vector::new(3_000, 4_000));
}

#[test]
fn bounds_from_arena() {
    let b = Bounds::from_dims(arena(), 10 * PX);
    assert_eq!(b.left, -502 * PX);
    assert_eq!(b.right, 502 * PX);
    assert_eq!(b.bottom, -502 * PX);
    assert_eq!(b.top, 502 * PX);
    assert_eq!(b.edge_threshold, 10 * PX);
    let c = Bounds::new(-100, 100, -50, 50, 10);
    assert_eq!((c.left, c.right, c.bottom, c.top), (-90, 90, -40, 40));
}

#[test]
fn single_agent_interior_step() {
    let mut ant = Ant::with_state(Vector::new(0, 0), Vector::new(PX, 0), 0);
    let b = Bounds::from_dims(arena(), 10 * PX);
    let zone = ant.nudge_zone(&b);
    assert_eq!(zone, Nudge::Interior);
    ant.turn_by(angle_delta(zone, 0));
    assert_eq!(ant.wander_angle, 0);
    ant.wander(arena(), heading_of(ant.wander_angle));
    assert_eq!(ant.desired_vel, Vector::new(PX, 0));
    assert_eq!(ant.current_vel, Vector::new(PX, 0));
    assert_eq!(ant.pos, Vector::new(PX, 0));
}

#[test]
fn left_wall_nudge() {
    let mut ant = Ant::with_state(Vector::new(-600 * PX, 0), Vector::new(-PX, 0), 0);
    let b = Bounds::from_dims(arena(), 10 * PX);
    let zone = ant.nudge_zone(&b);
    assert_eq!(zone, Nudge::Left);
    let (lo, hi) = draw_range(zone, 11_250);
    assert_eq!((lo, hi), (90, 270));
    let delta = angle_delta(zone, lo);
    assert_eq!(delta, 90_000);
    ant.turn_by(delta);
    assert_eq!(ant.wander_angle, 90_000);
    ant.wander(arena(), heading_of(ant.wander_angle));
    assert!(ant.current_vel.x > -PX);
    assert!(ant.current_vel.y > 0);
}

#[test]
fn target_sanitization_redirects_to_origin() {
    let mut ant = Ant::with_state(Vector::new(400 * PX, 0), Vector::new(PX, 0), 0);
    let b = Bounds::from_dims(arena(), 10 * PX);
    assert_eq!(b.right, 502 * PX);
    assert_eq!(ant.validate_target(Vector::new(1000 * PX, 0), &b), Vector::new(0, 0));
    ant.seek(Vector::new(1000 * PX, 0), 0, &b);
    assert_eq!(ant.desired_vel, Vector::new(-PX, 0));
    assert_eq!(ant.current_vel, Vector::new(PX - 10_000, 0));
    assert_eq!(ant.pos, Vector::new(400 * PX + PX - 10_000, 0));
}

#[test]
fn validate_target_per_axis() {
    let ant = Ant::with_state(Vector::new(0, 0), Vector::new(0, 0), 0);
    let b = Bounds::new(-100, 100, -50, 50, 0);
    assert_eq!(ant.validate_target(Vector::new(-101, 30), &b), Vector::new(0, 30));
    assert_eq!(ant.validate_target(Vector::new(100, -51), &b), Vector::new(100, 0));
    assert_eq!(ant.validate_target(Vector::new(-100, 50), &b), Vector::new(-100, 50));
}

#[test]
fn seek_slows_inside_radius() {
    let mut ant = Ant::with_state(Vector::new(0, 0), Vector::new(0, 0), 0);
    let b = Bounds::from_dims(arena(), 10 * PX);
    ant.seek(Vector::new(5 * PX, 0), 10 * PX, &b);
    assert_eq!(ant.desired_vel, Vector::new(PX / 2, 0));
    assert_eq!(ant.current_vel, Vector::new(10_000, 0));
    assert_eq!(ant.pos, Vector::new(10_000, 0));
}

#[test]
fn seek_at_target_has_zero_desire() {
    let mut ant = Ant::with_state(Vector::new(0, 0), Vector::new(0, 0), 0);
    let b = Bounds::from_dims(arena(), 10 * PX);
    ant.seek(Vector::new(0, 0), 0, &b);
    assert_eq!(ant.desired_vel, Vector::new(0, 0));
    assert_eq!(ant.current_vel, Vector::new(0, 0));
    assert_eq!(ant.pos, Vector::new(0, 0));
}

#[test]
fn steering_change_is_bounded() {
    let mut ant = Ant::with_state(Vector::new(0, 0), Vector::new(-PX, -PX), 0);
    let b = Bounds::from_dims(arena(), 10 * PX);
    ant.seek(Vector::new(300 * PX, 200 * PX), 0, &b);
    let dx = (ant.current_vel.x + PX) as i128;
    let dy = (ant.current_vel.y + PX) as i128;
    assert!(dx * dx + dy * dy <= 10_000 * 10_000);
    assert!(dx > 0 && dy > 0);
}

#[test]
fn speed_envelope_over_many_ticks() {
    let mut rng = StdRng::seed_from_u64(7);
    let mut ant = Ant::new(&mut rng);
    for _ in 0..2000 {
        ant.turn(arena(), &mut rng);
        ant.wander(arena(), heading_of(ant.wander_angle));
        assert!(ant.current_vel.x.abs() <= PX && ant.current_vel.y.abs() <= PX);
    }
}

#[test]
fn nudge_zones_in_order() {
    let b = Bounds::from_dims(arena(), 10 * PX);
    let at = |x: i64, y: i64| Ant::with_state(Vector::new(x * PX, y * PX), Vector::new(0, 0), 0);
    assert_eq!(at(-482, 0).nudge_zone(&b), Nudge::Left);
    assert_eq!(at(-481, -490).nudge_zone(&b), Nudge::Bottom);
    assert_eq!(at(482, 0).nudge_zone(&b), Nudge::Right);
    assert_eq!(at(-490, 490).nudge_zone(&b), Nudge::Left);
    assert_eq!(at(0, -482).nudge_zone(&b), Nudge::Bottom);
    assert_eq!(at(0, 482).nudge_zone(&b), Nudge::Top);
    assert_eq!(at(0, 481).nudge_zone(&b), Nudge::Interior);
}

#[test]
fn edge_nudge_ranges() {
    let mut rng = StdRng::seed_from_u64(3);
    let b = Bounds::from_dims(arena(), 10 * PX);
    let cases = [
        (-500, 0, 90_000, 270_000),
        (500, 0, -270_000, -90_000),
        (0, -500, 0, 180_000),
        (0, 500, -180_000, 0),
    ];
    for (x, y, lo, hi) in cases {
        let ant = Ant::with_state(Vector::new(x * PX, y * PX), Vector::new(0, 0), 0);
        for _ in 0..200 {
            let d = ant.generate_wander_angle(11_250, &b, &mut rng);
            assert!(lo <= d && d <= hi);
            assert_eq!(d % 1000, 0);
        }
    }
}

#[test]
fn interior_draws_vary_within_step() {
    let mut rng = StdRng::seed_from_u64(11);
    let b = Bounds::from_dims(arena(), 10 * PX);
    let ant = Ant::with_state(Vector::new(0, 0), Vector::new(0, 0), 0);
    let mut seen = std::collections::HashSet::new();
    for _ in 0..200 {
        let d = ant.generate_wander_angle(11_250, &b, &mut rng);
        assert!(-11_250 < d && d < 11_250);
        seen.insert(d);
    }
    assert!(seen.len() > 100);
}

#[test]
fn draw_ranges_and_deltas() {
    assert_eq!(draw_range(Nudge::Right, 5), (-270, -90));
    assert_eq!(draw_range(Nudge::Bottom, 5), (0, 180));
    assert_eq!(draw_range(Nudge::Top, 5), (-180, 0));
    assert_eq!(draw_range(Nudge::Interior, 5), (-4, 4));
    assert_eq!(draw_range(Nudge::Interior, 1), (0, 0));
    assert_eq!(angle_delta(Nudge::Top, -180), -180_000);
    assert_eq!(angle_delta(Nudge::Interior, -7), -7);
}

#[test]
fn turn_by_wraps_around() {
    let mut ant = Ant::with_state(Vector::new(0, 0), Vector::new(0, 0), 350_000);
    ant.turn_by(20_000);
    assert_eq!(ant.wander_angle, 10_000);
    ant.turn_by(-15_000);
    assert_eq!(ant.wander_angle, 355_000);
}

#[test]
fn new_ant_defaults() {
    let mut rng = StdRng::seed_from_u64(1);
    let mut xs = std::collections::HashSet::new();
    for _ in 0..50 {
        let ant = Ant::new(&mut rng);
        assert_eq!(ant.pos, Vector::new(0, 0));
        assert_eq!(ant.size, Vector::new(15 * PX, 15 * PX));
        assert_eq!(ant.max_force, 20_000);
        assert_eq!(ant.mass, 2 * PX);
        assert_eq!(ant.wander_angle, 57_296);
        assert!(ant.current_vel.x.abs() <= PX && ant.current_vel.y.abs() <= PX);
        xs.insert(ant.current_vel.x);
    }
    assert!(xs.len() > 40);
}

#[test]
fn seeded_runs_are_identical() {
    let run = |seed: u64| {
        let mut rng = StdRng::seed_from_u64(seed);
        let mut model = Model::new(3, Vec::new(), &mut rng);
        let mut states = Vec::new();
        for _ in 0..100 {
            model.turn(arena(), &mut rng);
            let headings: Vec<Vector> = model.ants().iter().map(|a| heading_of(a.wander_angle)).collect();
            model.update(arena(), &headings);
            states.push(model.ants().clone());
        }
        states
    };
    assert_eq!(run(42), run(42));
}

#[test]
fn population_fan_out() {
    let mut rng = StdRng::seed_from_u64(2024);
    let mut model = Model::new(3, Vec::new(), &mut rng);
    assert_eq!(model.ants().len(), 3);
    let limit = (512 + 50) * PX;
    let mut inside = 0;
    for _ in 0..600 {
        model.turn(arena(), &mut rng);
        let headings: Vec<Vector> = model.ants().iter().map(|a| heading_of(a.wander_angle)).collect();
        model.update(arena(), &headings);
        if model.ants().iter().all(|a| a.pos.x.abs() <= limit && a.pos.y.abs() <= limit) {
            inside += 1;
        }
    }
    assert!(inside * 100 >= 95 * 600);
}

#[test]
fn map_cells_from_pixels() {
    let pixels = vec![
        (0, 0, [155, 118, 83, 255]),
        (1, 0, [99, 69, 44, 255]),
        (2, 0, [1, 2, 3, 4]),
        (3, 1, [99, 69, 44, 255]),
    ];
    let map = generate_hashmap(4, 2, &pixels);
    assert_eq!(
        map,
        vec![((-2, -1), MapPixel::Open), ((-1, -1), MapPixel::Wall), ((1, 0), MapPixel::Wall)]
    );
}

#[test]
fn speed_after_unit_velocity_stays_under_envelope() {
    let mut ant = Ant::with_state(Vector::new(0, 0), Vector::new(600_000, 800_000), 0);
    let b = Bounds::from_dims(arena(), 10 * PX);
    ant.seek(Vector::new(-300 * PX, 100 * PX), 0, &b);
    let vx = ant.current_vel.x as i128;
    let vy = ant.current_vel.y as i128;
    assert!(vx * vx + vy * vy <= 1_010_000 * 1_010_000);
    assert!(vx < 600_000);
}

#[test]
fn empty_inputs() {
    let mut rng = StdRng::seed_from_u64(5);
    let model = Model::new(0, Vec::new(), &mut rng);
    assert!(model.ants().is_empty());
    assert!(generate_hashmap(0, 0, &Vec::new()).is_empty());
}

#[test]
fn new_model_holds_fresh_ants_and_map() {
    let mut rng = StdRng::seed_from_u64(9);
    let map = vec![((0, 0), MapPixel::Open)];
    let model = Model::new(4, map.clone(), &mut rng);
    assert_eq!(model.ants().len(), 4);
    assert_eq!(model.map, map);
    for ant in model.ants() {
        assert_eq!(ant.pos, Vector::new(0, 0));
        assert_eq!(ant.wander_angle, 57_296);
    }
}

#[test]
fn light_mass_and_large_force_cap() {
    let mut ant = Ant::with_state(Vector::new(0, 0), Vector::new(0, 0), 0);
    ant.mass = PX / 2;
    ant.max_force = 3 * PX;
    let b = Bounds::from_dims(arena(), 10 * PX);
    ant.seek(Vector::new(100 * PX, 0), 0, &b);
    assert_eq!(ant.desired_vel, Vector::new(PX, 0));
    assert_eq!(ant.current_vel, Vector::new(2 * PX, 0));
    assert_eq!(ant.pos, Vector::new(2 * PX, 0));
    ant.seek(Vector::new(-100 * PX, 0), 0, &b);
    assert_eq!(ant.desired_vel, Vector::new(-PX, 0));
    assert_eq!(ant.current_vel, Vector::new(-4 * PX, 0));
    assert_eq!(ant.pos, Vector::new(-2 * PX, 0));
}

#[test]
fn map_cells_have_distinct_coordinates() {
    let mut pixels = Vec::new();
    for y in 0..3u32 {
        for x in 0..4u32 {
            let c = if (x + y) % 2 == 0 { [155, 118, 83, 255] } else { [99, 69, 44, 255] };
            pixels.push((x, y, c));
        }
    }
    let map = generate_hashmap(4, 3, &pixels);
    assert_eq!(map.len(), 12);
    for i in 0..map.len() {
        for j in i + 1..map.len() {
            assert_ne!(map[i].0, map[j].0);
        }
    }
    assert_eq!(map[0], ((-2, -1), MapPixel::Open));
    assert_eq!(map[11], ((1, 1), MapPixel::Wall));
}
