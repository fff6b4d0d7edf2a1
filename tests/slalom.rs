use slalom::course::{
    course_from_poles, gate_for_pole, Gate, GATE_WIDTH, POLE_MAX, POLE_MIN, TOTAL_N_GATES,
};
use slalom::fixed::{mul_div, sin_cos, HALF_PI, PI, TRIG_ONE};
use slalom::physics::{SkierState, LATERAL_LIMIT, MAX_ANGLE, STEERING_RATE};
use slalom::simulation::{FrameClock, InputState, Key, Simulation};
use slalom::tracker::{judge_gate, tip_inside_gate, RunPhase};

fn centred() -> Gate {
    Gate { left: -75_000, right: 75_000 }
}

fn course_with(gates: &[Gate]) -> Vec<Gate> {
    gates.to_vec()
}

fn assert_generated_shape(c: &[Gate], n: usize) {
    assert_eq!(c.len(), n);
    for (i, g) in c.iter().enumerate() {
        assert_eq!(g.right - g.left, GATE_WIDTH);
        if i % 2 == 0 {
            assert!(POLE_MIN <= g.left && g.left < POLE_MAX);
        } else {
            assert!(POLE_MIN <= -g.right && -g.right < POLE_MAX);
        }
    }
}

fn run_until_over(sim: &mut Simulation, dt: u32, limit: usize) -> usize {
    let mut n = 0;
    while matches!(sim.phase, RunPhase::Ready | RunPhase::Running) && n < limit {
        sim.tick(dt);
        n += 1;
    }
    n
}

#[test]
fn trig_exact_values() {
    assert_eq!(sin_cos(0), (0, TRIG_ONE));
    assert_eq!(sin_cos(1_000_000), (841_471, 540_302));
    assert_eq!(sin_cos(-1_000_000), (-841_471, 540_302));
    assert_eq!(sin_cos(HALF_PI), (TRIG_ONE, 0));
    assert_eq!(sin_cos(MAX_ANGLE), (707_108, -707_107));
    assert_eq!(sin_cos(PI), (0, -TRIG_ONE));
}

#[test]
fn mul_div_rounds_toward_zero() {
    assert_eq!(mul_div(7, 3, 2), 10);
    assert_eq!(mul_div(-7, 3, 2), -10);
    assert_eq!(mul_div(i64::MAX, 2, 4), i64::MAX / 2);
}

#[test]
fn gate_for_pole_sides() {
    assert_eq!(gate_for_pole(10_000, true), Gate { left: 10_000, right: 160_000 });
    assert_eq!(gate_for_pole(10_000, false), Gate { left: -160_000, right: -10_000 });
}

#[test]
fn course_from_poles_alternates() {
    let c = course_from_poles(&vec![0, 100_000, -75_000]);
    assert_eq!(
        c,
        vec![
            Gate { left: 0, right: 150_000 },
            Gate { left: -250_000, right: -100_000 },
            Gate { left: -75_000, right: 75_000 },
        ]
    );
}

#[test]
fn new_simulation_is_ready_on_generated_course() {
    let sim = Simulation::new(7);
    assert_eq!(sim.phase, RunPhase::Ready);
    assert_eq!(sim.skier, SkierState::start());
    assert_eq!(sim.input, InputState::idle());
    assert_generated_shape(&sim.course, TOTAL_N_GATES);
}

#[test]
fn steering_cut_into_ticks_matches_one_tick() {
    let mut many = Simulation::with_course(course_with(&[centred()]), 1);
    let mut one = Simulation::with_course(course_with(&[centred()]), 1);
    many.input.key_down(Key::Right);
    one.input.key_down(Key::Right);
    for dt in [4u32, 10, 1, 25] {
        many.tick(dt);
    }
    one.tick(40);
    assert_eq!(many.skier.direction, one.skier.direction);
    assert_eq!(one.skier.direction, STEERING_RATE * 40);
}

#[test]
fn steering_saturates_at_largest_angle_either_way() {
    let mut many = Simulation::with_course(course_with(&[centred()]), 1);
    let mut one = Simulation::with_course(course_with(&[centred()]), 1);
    many.input.key_down(Key::Left);
    one.input.key_down(Key::Left);
    for _ in 0..100 {
        many.tick(40);
    }
    one.tick(4_000);
    assert_eq!(many.skier.direction, -MAX_ANGLE);
    assert_eq!(one.skier.direction, -MAX_ANGLE);
}

#[test]
fn one_glide_from_rest() {
    let mut s = SkierState::start();
    s.glide(40);
    assert_eq!(s.forward_speed, 760);
    assert_eq!(s.lateral_offset, 0);
    assert_eq!(s.distance_scrolled, 30);
    assert_eq!(s.direction, 0);
}

#[test]
fn skier_stays_within_margins_and_angle() {
    let mut sim = Simulation::with_course(vec![Gate { left: 240_000, right: 390_000 }; 8], 3);
    sim.input.key_down(Key::Start);
    sim.input.key_down(Key::Right);
    for i in 0..2_000 {
        if i == 20 {
            sim.input.key_up(Key::Right);
        }
        sim.tick(40);
        assert!(-LATERAL_LIMIT <= sim.skier.lateral_offset);
        assert!(sim.skier.lateral_offset <= LATERAL_LIMIT);
        assert!(-MAX_ANGLE <= sim.skier.direction && sim.skier.direction <= MAX_ANGLE);
    }
}

#[test]
fn straight_run_through_centred_gates_finishes() {
    let mut sim = Simulation::with_course(vec![centred(); 8], 5);
    sim.input.key_down(Key::Start);
    let n = run_until_over(&mut sim, 40, 5_000);
    assert_eq!(sim.phase, RunPhase::Finished);
    assert_eq!(n, 424);
    assert_eq!(sim.skier.next_gate_index, 7);
}

#[test]
fn missing_fourth_gate_fails_then_speed_freezes() {
    let mut gates = vec![centred(); 8];
    gates[3] = Gate { left: 170_000, right: 320_000 };
    let mut sim = Simulation::with_course(gates, 5);
    sim.input.key_down(Key::Start);
    let n = run_until_over(&mut sim, 40, 5_000);
    assert_eq!(sim.phase, RunPhase::Failed);
    assert_eq!(n, 263);
    assert_eq!(sim.skier.next_gate_index, 3);
    assert_eq!(sim.skier.forward_speed, 112_184);
    sim.tick(40);
    assert_eq!(sim.phase, RunPhase::Failed);
    assert_eq!(sim.skier.forward_speed, 0);
}

#[test]
fn tip_on_inset_pole_misses() {
    let g = Gate { left: -4_000, right: 146_000 };
    assert!(!tip_inside_gate(&g, 0));
    assert!(tip_inside_gate(&g, 1));
    assert!(!tip_inside_gate(&g, 142_000));
    assert!(tip_inside_gate(&g, 141_999));
    let course = vec![g, centred()];
    let s = SkierState::start();
    assert_eq!(judge_gate(&course, &s), RunPhase::Failed);
}

#[test]
fn run_fails_at_first_gate_when_tip_touches_pole() {
    let mut gates = vec![centred(); 8];
    gates[0] = Gate { left: -4_000, right: 146_000 };
    let mut sim = Simulation::with_course(gates, 5);
    sim.input.key_down(Key::Start);
    let n = run_until_over(&mut sim, 40, 5_000);
    assert_eq!(sim.phase, RunPhase::Failed);
    assert_eq!(n, 95);
    assert_eq!(sim.skier.next_gate_index, 0);
}

#[test]
fn judging_last_gate_inside_finishes() {
    let course = vec![centred(), centred()];
    let mut s = SkierState::start();
    assert_eq!(judge_gate(&course, &s), RunPhase::Running);
    s.next_gate_index = 1;
    assert_eq!(judge_gate(&course, &s), RunPhase::Finished);
}

#[test]
fn reset_only_after_start_is_withdrawn() {
    let mut gates = vec![centred(); 8];
    gates[0] = Gate { left: -4_000, right: 146_000 };
    let mut sim = Simulation::with_course(gates.clone(), 11);
    sim.input.key_down(Key::Start);
    run_until_over(&mut sim, 40, 5_000);
    assert_eq!(sim.phase, RunPhase::Failed);
    for _ in 0..10 {
        sim.tick(40);
        assert_eq!(sim.phase, RunPhase::Failed);
        assert_eq!(sim.course, gates);
    }
    sim.input.key_down(Key::Reset);
    sim.tick(40);
    assert_eq!(sim.phase, RunPhase::Ready);
    assert_eq!(sim.skier, SkierState::start());
    assert_eq!(sim.input, InputState::idle());
    assert_generated_shape(&sim.course, 8);
    sim.tick(40);
    assert_eq!(sim.phase, RunPhase::Ready);
}

#[test]
fn ready_waits_for_start_and_previews_steering() {
    let mut sim = Simulation::with_course(vec![centred(); 2], 1);
    sim.input.key_down(Key::Left);
    sim.tick(40);
    assert_eq!(sim.phase, RunPhase::Ready);
    assert_eq!(sim.skier.direction, -STEERING_RATE * 40);
    assert_eq!(sim.skier.forward_speed, 0);
    assert_eq!(sim.skier.distance_scrolled, 0);
    sim.input.key_down(Key::Start);
    sim.tick(40);
    assert_eq!(sim.phase, RunPhase::Running);
    assert_eq!(sim.skier.forward_speed, 0);
}

#[test]
fn key_events_update_input() {
    let mut input = InputState::idle();
    input.key_down(Key::Right);
    assert_eq!(input.steer_direction, 1);
    input.key_down(Key::Left);
    assert_eq!(input.steer_direction, -1);
    input.key_up(Key::Right);
    assert_eq!(input.steer_direction, 0);
    input.key_down(Key::Start);
    assert!(input.run_requested);
    input.key_up(Key::Start);
    assert!(input.run_requested);
    input.key_down(Key::Reset);
    assert!(!input.run_requested);
}

#[test]
fn frame_clock_gives_deltas_and_zero_when_rewound() {
    let mut clock = FrameClock::new();
    assert_eq!(clock.elapsed(40), 40);
    assert_eq!(clock.elapsed(100), 60);
    assert_eq!(clock.elapsed(100), 0);
    assert_eq!(clock.elapsed(50), 0);
    assert_eq!(clock.elapsed(90), 40);
    assert_eq!(clock.elapsed(u64::MAX), u32::MAX);
}

#[test]
fn visible_gates_at_start_and_near_finish() {
    let gates: Vec<Gate> = (0..4).map(|i| gate_for_pole(i * 10_000, i % 2 == 0)).collect();
    let mut sim = Simulation::with_course(gates.clone(), 1);
    let v = sim.visible_gates();
    assert_eq!(v.len(), 3);
    assert_eq!(v[0].gate, gates[0]);
    assert_eq!(v[0].along, 400_000);
    assert_eq!(v[1].along, 200_000);
    assert_eq!(v[2].along, 0);
    assert!(!v[2].finish);
    sim.skier.next_gate_index = 2;
    sim.skier.distance_scrolled = 5_000;
    let v = sim.visible_gates();
    assert_eq!(v.len(), 2);
    assert_eq!(v[0].gate, gates[2]);
    assert_eq!(v[0].along, 405_000);
    assert_eq!(v[1].along, 205_000);
    assert!(v[1].finish);
}

#[test]
fn seeded_courses_repeat() {
    let a = Simulation::new(42);
    let b = Simulation::new(42);
    assert_eq!(a.course, b.course);
}

#[test]
fn different_seeds_give_different_courses() {
    let a = Simulation::new(1);
    let b = Simulation::new(2);
    assert_ne!(a.course, b.course);
    let all_at_lowest = (0..20u64)
        .flat_map(|seed| Simulation::new(seed).course)
        .all(|g| g.left == POLE_MIN || -g.right == POLE_MIN);
    assert!(!all_at_lowest);
}

#[test]
fn reset_draws_a_fresh_course_of_same_shape() {
    let mut gates = vec![centred(); 8];
    gates[0] = Gate { left: -4_000, right: 146_000 };
    let mut sim = Simulation::with_course(gates.clone(), 99);
    sim.input.key_down(Key::Start);
    run_until_over(&mut sim, 40, 5_000);
    sim.input.key_down(Key::Reset);
    sim.tick(40);
    let first = sim.course.clone();
    assert_ne!(first, gates);
    assert_generated_shape(&first, 8);
    sim.input.key_down(Key::Start);
    sim.tick(40);
    assert_eq!(sim.phase, RunPhase::Running);
    run_until_over(&mut sim, 40, 5_000);
    assert!(matches!(sim.phase, RunPhase::Failed | RunPhase::Finished));
    sim.input.key_down(Key::Reset);
    sim.tick(40);
    assert_eq!(sim.phase, RunPhase::Ready);
    assert_generated_shape(&sim.course, 8);
    assert_ne!(sim.course, first);
}
