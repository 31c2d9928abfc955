use particles::body::{Body, Draw};
use particles::collision::tally;
use particles::config::{Config, Policy, COORD_LIMIT, LENGTH_SCALE, STANDARD_DT, TIME_SCALE};
use particles::simulation::{SetupError, Simulation, StepError, StepReport};

fn body(id: u64, x: i64, y: i64, vx: i64, vy: i64, radius: i64) -> Body {
    Body { id, x, y, vx, vy, radius, count: 0 }
}

fn world(policy: Policy) -> Config {
    let mut c = Config::standard();
    c.policy = policy;
    c
}

fn ids(sim: &Simulation) -> Vec<u64> {
    sim.bodies().iter().map(|b| b.id).collect()
}

#[test]
fn standard_config_values() {
    let c = Config::standard();
    assert_eq!(c.max_position, 100 * LENGTH_SCALE);
    assert_eq!(c.max_speed * TIME_SCALE as i64, 10 * LENGTH_SCALE);
    assert_eq!(c.max_collider, LENGTH_SCALE);
    assert_eq!(c.policy, Policy::Replace);
    assert!(c.is_valid());
    assert_eq!(STANDARD_DT, 15);
}

#[test]
fn reflection_at_left_wall_without_clamping() {
    // position (0, 50), velocity (-5, 0), dt 0.015
    let b = body(1, 0, 50 * LENGTH_SCALE, -5 * LENGTH_SCALE / 1000, 0, LENGTH_SCALE / 2);
    let mut sim = Simulation::from_bodies(Config::standard(), 2, vec![b]).unwrap();
    let rep = sim.step(STANDARD_DT).unwrap();
    assert_eq!(rep, StepReport { deaths: 0 });
    let after = sim.bodies()[0];
    assert_eq!(after.x, -75_000);
    assert_eq!(after.y, 50 * LENGTH_SCALE);
    assert_eq!(after.vx, 5_000);
    assert_eq!(after.vy, 0);
    assert_eq!(after.count, 0);
}

#[test]
fn reflection_at_right_wall_and_none_inside() {
    let max = Config::standard().max_position;
    let edge = body(1, max, 10, 2_000, -1_000, 1_000);
    let inside = body(2, 10, 10, 1_000, 0, 1_000);
    let mut sim = Simulation::from_bodies(world(Policy::Replace), 0, vec![edge, inside]).unwrap();
    sim.step(10).unwrap();
    let a = sim.bodies()[0];
    assert_eq!((a.x, a.y, a.vx, a.vy), (max + 20_000, -9_990, -2_000, 1_000));
    let b = sim.bodies()[1];
    assert_eq!((b.x, b.y, b.vx, b.vy), (10_010, 10, 1_000, 0));
}

#[test]
fn boundary_value_counts_as_inside() {
    // a body that lands exactly on 0 keeps its velocity
    let b = body(7, 15_000, 40, -1_000, 0, 1_000);
    let mut sim = Simulation::from_bodies(Config::standard(), 0, vec![b]).unwrap();
    sim.step(15).unwrap();
    let a = sim.bodies()[0];
    assert_eq!((a.x, a.vx), (0, -1_000));
}

#[test]
fn distant_pair_counts_once_on_each_side() {
    // far apart: squared distance exceeds the squared sum of radii
    let a = body(1, 0, 0, 0, 0, 1_000);
    let b = body(2, 50_000, 0, 0, 0, 1_000);
    let mut sim = Simulation::from_bodies(Config::standard(), 0, vec![a, b]).unwrap();
    sim.step(1).unwrap();
    let counts: Vec<u64> = sim.bodies().iter().map(|b| b.count).collect();
    assert_eq!(counts, vec![1, 1]);
}

#[test]
fn overlapping_pair_does_not_count() {
    let a = body(1, 0, 0, 0, 0, 1_000);
    let b = body(2, 1_500, 0, 0, 0, 1_000);
    let mut sim = Simulation::from_bodies(Config::standard(), 0, vec![a, b]).unwrap();
    sim.step(1).unwrap();
    assert!(sim.bodies().iter().all(|b| b.count == 0));
}

#[test]
fn exact_touch_does_not_count() {
    // distance 2000 equals the sum of the radii: not strictly greater
    let a = body(1, 0, 0, 0, 0, 1_000);
    let b = body(2, 2_000, 0, 0, 0, 1_000);
    let mut sim = Simulation::from_bodies(Config::standard(), 0, vec![a, b]).unwrap();
    sim.step(0).unwrap();
    assert!(sim.bodies().iter().all(|b| b.count == 0));
}

#[test]
fn counts_follow_each_colliding_pair() {
    // a and b overlap; c is far from both
    let a = body(1, 0, 0, 0, 0, 1_000);
    let b = body(2, 500, 0, 0, 0, 1_000);
    let c = body(3, 90_000, 0, 0, 0, 1_000);
    let mut sim = Simulation::from_bodies(Config::standard(), 0, vec![a, b, c]).unwrap();
    sim.step(1).unwrap();
    let counts: Vec<u64> = sim.bodies().iter().map(|b| b.count).collect();
    assert_eq!(counts, vec![1, 1, 2]);
    sim.step(1).unwrap();
    let counts: Vec<u64> = sim.bodies().iter().map(|b| b.count).collect();
    assert_eq!(counts, vec![2, 2, 4]);
}

#[test]
fn replace_policy_keeps_population() {
    let mut sim = Simulation::initialize(50, 3);
    for _ in 0..20 {
        sim.step(STANDARD_DT).unwrap();
        assert_eq!(sim.population_size(), 50);
        assert!(sim.bodies().iter().all(|b| b.count <= 3));
    }
}

#[test]
fn count_only_policy_keeps_population_and_tallies_crossings() {
    let a = body(1, 0, 0, 0, 0, 1_000);
    let b = body(2, 40_000, 0, 0, 0, 1_000);
    let c = body(3, 80_000, 0, 0, 0, 1_000);
    let mut sim = Simulation::from_bodies(world(Policy::CountOnly), 1, vec![a, b, c]).unwrap();
    let rep = sim.step(1).unwrap();
    assert_eq!(rep.deaths, 3);
    let rep = sim.step(1).unwrap();
    assert_eq!(rep.deaths, 0);
    assert_eq!(sim.deaths_total(), 3);
    assert_eq!(ids(&sim), vec![1, 2, 3]);
    let counts: Vec<u64> = sim.bodies().iter().map(|b| b.count).collect();
    assert_eq!(counts, vec![4, 4, 4]);
}

#[test]
fn count_only_random_run_keeps_ids() {
    let mut sim = Simulation::with_config(world(Policy::CountOnly), 30, 1).unwrap();
    let before = ids(&sim);
    for _ in 0..10 {
        sim.step(STANDARD_DT).unwrap();
        assert_eq!(sim.population_size(), 30);
    }
    assert_eq!(ids(&sim), before);
}

#[test]
fn disabled_death_keeps_every_body() {
    for limit in [0i64, -4] {
        let mut sim = Simulation::initialize(20, limit);
        let before = ids(&sim);
        let mut last: Vec<u64> = vec![0; 20];
        for _ in 0..10 {
            let rep = sim.step(STANDARD_DT).unwrap();
            assert_eq!(rep.deaths, 0);
            let counts: Vec<u64> = sim.bodies().iter().map(|b| b.count).collect();
            assert!(counts.iter().zip(last.iter()).all(|(n, o)| n >= o));
            last = counts;
        }
        assert_eq!(ids(&sim), before);
        assert!(last.iter().any(|&c| c > 0));
    }
}

#[test]
fn empty_population_stays_empty() {
    let mut sim = Simulation::initialize(0, 5);
    let rep = sim.step(STANDARD_DT).unwrap();
    assert_eq!(rep.deaths, 0);
    assert_eq!(sim.population_size(), 0);
    assert_eq!(sim.deaths_total(), 0);
}

#[test]
fn dead_bodies_are_replaced_by_new_ids() {
    let mut sim = Simulation::initialize(4, 2);
    let mut seen: Vec<u64> = ids(&sim);
    let mut replaced = false;
    for _ in 0..200 {
        let before = ids(&sim);
        let rep = sim.step(STANDARD_DT).unwrap();
        let after = ids(&sim);
        assert_eq!(after.len(), 4);
        let gone: Vec<u64> = before.iter().copied().filter(|i| !after.contains(i)).collect();
        let fresh: Vec<u64> = after.iter().copied().filter(|i| !before.contains(i)).collect();
        assert_eq!(gone.len() as u64, rep.deaths);
        assert_eq!(fresh.len() as u64, rep.deaths);
        assert!(fresh.iter().all(|i| !seen.contains(i)));
        seen.extend(fresh.iter().copied());
        if rep.deaths > 0 {
            replaced = true;
            break;
        }
    }
    assert!(replaced);
}

#[test]
fn step_with_uses_the_draw_at_the_dead_index() {
    let a = body(1, 0, 0, 0, 0, 1_000);
    let b = body(2, 40_000, 0, 0, 0, 1_000);
    let c = body(3, 40_500, 0, 0, 0, 1_000);
    let mut sim = Simulation::from_bodies(Config::standard(), 1, vec![a, b, c]).unwrap();
    let d0 = Draw { x: 10, y: 20, vx: 30, vy: 40, radius: 50 };
    let d1 = Draw { x: 11, y: 21, vx: 31, vy: 41, radius: 51 };
    let rep = sim.step_with(0, &vec![d0, d1, d1]).unwrap();
    // a collides with b and c; b and c overlap each other
    assert_eq!(rep.deaths, 1);
    let bodies = sim.bodies();
    assert_eq!(bodies[0], Body { id: 4, x: 10, y: 20, vx: 30, vy: 40, radius: 50, count: 0 });
    assert_eq!(bodies[1], Body { count: 1, ..b });
    assert_eq!(bodies[2], Body { count: 1, ..c });
    assert_eq!(sim.deaths_total(), 1);
}

#[test]
fn step_with_rejects_bad_draws_and_keeps_state() {
    let a = body(1, 0, 0, 0, 0, 1_000);
    let mut sim = Simulation::from_bodies(Config::standard(), 1, vec![a]).unwrap();
    let d = Draw { x: 10, y: 20, vx: 30, vy: 40, radius: 50 };
    assert_eq!(sim.step_with(1, &vec![]), Err(StepError::BadDraws));
    let outside = Draw { radius: 0, ..d };
    assert_eq!(sim.step_with(1, &vec![outside]), Err(StepError::BadDraws));
    assert_eq!(sim.bodies()[0], a);
    assert!(sim.step_with(1, &vec![d]).is_ok());
}

#[test]
fn step_reports_overflow_and_keeps_state() {
    let c = Config::standard();
    let a = body(1, COORD_LIMIT - 5, 0, c.max_speed, 0, 1_000);
    let mut sim = Simulation::from_bodies(c, 1, vec![a]).unwrap();
    assert_eq!(sim.step(1), Err(StepError::Overflow));
    assert_eq!(sim.bodies()[0], a);
    let far = body(1, 0, 0, c.max_speed, 0, 1_000);
    let mut sim = Simulation::from_bodies(c, 1, vec![far]).unwrap();
    assert_eq!(sim.step(u64::MAX), Err(StepError::Overflow));
}

#[test]
fn from_bodies_rejects_invalid_input() {
    let mut bad = Config::standard();
    bad.max_collider = 0;
    let a = body(1, 0, 0, 0, 0, 1_000);
    assert_eq!(Simulation::from_bodies(bad, 1, vec![a]).err(), Some(SetupError::InvalidConfig));
    let zero = body(1, 0, 0, 0, 0, 0);
    assert_eq!(
        Simulation::from_bodies(Config::standard(), 1, vec![zero]).err(),
        Some(SetupError::InvalidBody)
    );
    let fast = body(1, 0, 0, 20_000, 0, 10);
    assert_eq!(
        Simulation::from_bodies(Config::standard(), 1, vec![fast]).err(),
        Some(SetupError::InvalidBody)
    );
    let twin = body(1, 5, 5, 0, 0, 10);
    assert_eq!(
        Simulation::from_bodies(Config::standard(), 1, vec![a, twin]).err(),
        Some(SetupError::DuplicateId)
    );
}

#[test]
fn from_bodies_mints_ids_past_the_largest() {
    let a = body(9, 0, 0, 0, 0, 1_000);
    let b = body(4, 50_000, 0, 0, 0, 1_000);
    let mut sim = Simulation::from_bodies(Config::standard(), 1, vec![a, b]).unwrap();
    let rep = sim.step(0).unwrap();
    assert_eq!(rep.deaths, 0);
    // each tick under the replace policy reserves one id per index
    let rep = sim.step(0).unwrap();
    assert_eq!(rep.deaths, 2);
    assert_eq!(ids(&sim), vec![12, 13]);
}

#[test]
fn populate_builds_bodies_from_draws() {
    let d0 = Draw { x: 1, y: 2, vx: 3, vy: 4, radius: 5 };
    let d1 = Draw { x: 6, y: 7, vx: 8, vy: 9, radius: 10 };
    let sim = Simulation::populate(Config::standard(), 3, &vec![d0, d1]).unwrap();
    assert_eq!(sim.bodies()[0], Body { id: 0, x: 1, y: 2, vx: 3, vy: 4, radius: 5, count: 0 });
    assert_eq!(sim.bodies()[1], Body { id: 1, x: 6, y: 7, vx: 8, vy: 9, radius: 10, count: 0 });
    assert_eq!(sim.collision_limit(), 3);
    let bad = Draw { vx: -1, ..d0 };
    assert_eq!(
        Simulation::populate(Config::standard(), 3, &vec![bad]).err(),
        Some(SetupError::InvalidBody)
    );
}

#[test]
fn initialize_samples_within_ranges() {
    let sim = Simulation::initialize(200, 2);
    let c = Config::standard();
    assert_eq!(sim.population_size(), 200);
    assert_eq!(sim.config(), c);
    for (i, b) in sim.bodies().iter().enumerate() {
        assert_eq!(b.id, i as u64);
        assert_eq!(b.count, 0);
        assert!(0 <= b.x && b.x <= c.max_position);
        assert!(0 <= b.y && b.y <= c.max_position);
        assert!(0 <= b.vx && b.vx <= c.max_speed);
        assert!(0 <= b.vy && b.vy <= c.max_speed);
        assert!(0 < b.radius && b.radius <= c.max_collider);
    }
    // the samples vary: a generator stuck on the low end would fail here
    assert!(sim.bodies().iter().any(|b| b.x > 0));
    assert!(sim.bodies().iter().any(|b| b.radius > 1));
}

#[test]
fn with_config_rejects_invalid_bounds() {
    let mut bad = Config::standard();
    bad.max_position = 0;
    assert_eq!(Simulation::with_config(bad, 3, 1).err(), Some(SetupError::InvalidConfig));
}

#[test]
fn tally_skips_bodies_that_share_an_id() {
    let a = body(1, 0, 0, 0, 0, 1_000);
    let twin = body(1, 60_000, 0, 0, 0, 1_000);
    let c = Body { count: 7, ..body(2, 30_000, 0, 0, 0, 1_000) };
    let counts = tally(&vec![a, twin, c], &Config::standard());
    assert_eq!(counts, vec![1, 1, 9]);
}
