use traffic_sim::drawing::{load_background_frame, set_pixel};
use traffic_sim::intersection_manager::IntersectionManager;
use traffic_sim::qlearning::QLearning;
use traffic_sim::simulation::{Simulation, TickDraws};
use traffic_sim::stop_light::{LightPolicy, StopLight};
use traffic_sim::trainer::{batch_plan, run_headless, run_simulation, select_best, RunStats, TrainerConfig};
use traffic_sim::vehicle::Vehicle;

fn quiet(entrance: u32) -> TickDraws {
    TickDraws { entrance, turn_roll: 2, explore_draw: u64::MAX, random_action: 4 }
}

fn volumes_consistent(sim: &Simulation) -> bool {
    (0..4).all(|q| {
        let n = sim.vehicles.iter().chain(sim.release_queue.iter()).filter(|v| v.entrance / 2 == q as u32).count();
        sim.intersection_manager.intersection_volume[q] as usize == n
    })
}

#[test]
fn reward_is_zero_without_variance() {
    let mut sim = Simulation::new();
    assert_eq!(sim.calculate_reward(5), 0);
    assert_eq!(sim.calculate_reward(5), 0);
    assert_eq!(sim.min_volume, 5);
    assert_eq!(sim.max_volume, 5);
    assert_eq!(sim.calculate_reward(7), -1000000);
    assert_eq!(sim.calculate_reward(6), -500000);
    assert_eq!(sim.calculate_reward(4), 0);
    assert_eq!(sim.calculate_reward(7), -1000000);
    assert_eq!(sim.calculate_reward(5), -333333);
}

#[test]
fn spawning_waits_for_the_interval_then_admits() {
    let mut sim = Simulation::new();
    sim.step(10000, quiet(3));
    sim.step(10000, quiet(3));
    assert!(sim.release_queue.is_empty() && sim.vehicles.is_empty());
    sim.step(10000, quiet(3));
    assert_eq!(sim.clock, 30000);
    assert_eq!(sim.release_queue.len(), 1);
    assert_eq!(sim.release_queue[0].entrance, 3);
    assert_eq!(sim.intersection_manager.intersection_volume, vec![0, 1, 0, 0]);
    assert_eq!(sim.id_counter, 1);
    sim.step(10000, quiet(3));
    assert!(sim.release_queue.is_empty());
    assert_eq!(sim.vehicles.len(), 1);
    assert_eq!(sim.intersection_manager.intersection_volume, vec![0, 1, 0, 0]);
    assert!(volumes_consistent(&sim));
}

#[test]
fn admission_waits_while_the_entrance_is_occupied() {
    let mut sim = Simulation::new();
    let first = Vehicle::with_turn_roll(0, 50, 10, 10, 0, 0);
    let second = Vehicle::with_turn_roll(1, 50, 10, 10, 0, 0);
    let other = Vehicle::with_turn_roll(2, 50, 10, 10, 4, 0);
    sim.vehicles.push(first);
    sim.release_queue.push(second);
    sim.release_queue.push(other);
    sim.intersection_manager.intersection_volume = vec![2, 0, 1, 0];
    sim.admit_vehicles();
    assert_eq!(sim.vehicles.len(), 2);
    assert_eq!(sim.vehicles[1].id, 2);
    assert_eq!(sim.release_queue.len(), 1);
    assert_eq!(sim.release_queue[0].id, 1);
    // Once the first vehicle has moved on by more than a length, the second enters.
    sim.vehicles[0].bounds.x = 10001;
    sim.admit_vehicles();
    assert_eq!(sim.vehicles.len(), 3);
    assert!(sim.release_queue.is_empty());
}

#[test]
fn volumes_track_spawns_and_expiries() {
    let mut sim = Simulation::new();
    let mut expired_seen = false;
    for k in 0..3000u32 {
        let draws = TickDraws { entrance: k % 8, turn_roll: (k % 3) as u64, explore_draw: u64::MAX, random_action: 0 };
        let before = sim.vehicles.len() + sim.release_queue.len();
        sim.step(10000, draws);
        let after = sim.vehicles.len() + sim.release_queue.len();
        if after < before {
            expired_seen = true;
        }
        assert!(volumes_consistent(&sim));
        for v in sim.vehicles.iter() {
            assert!(!v.check_bounds());
        }
    }
    assert!(expired_seen);
}

#[test]
fn controller_acts_every_interval() {
    let mut sim = Simulation::new();
    let draws = TickDraws { entrance: 0, turn_roll: 0, explore_draw: 0, random_action: 2 };
    for _ in 0..9 {
        sim.step(10000, draws);
    }
    assert_eq!(sim.last_light_change, 0);
    assert!(!sim.intersection_manager.stop_lights[2].active);
    sim.step(10000, draws);
    assert_eq!(sim.last_light_change, 100000);
    assert!(sim.intersection_manager.stop_lights[2].active);
    assert_eq!(sim.intersection_manager.stop_lights[2].flipped_at, 100000);
    assert_eq!(sim.qlearning.epsilon(), 995000000000);
    sim.step(10000, draws);
    assert!(sim.intersection_manager.stop_lights[2].active);
}

#[test]
fn vehicles_stop_before_a_red_light() {
    let mut sim = Simulation::new();
    let mut v = Vehicle::with_turn_roll(0, 500, 10, 10, 0, 2);
    // Just short of light 0's line at x = 340 px.
    v.bounds.x = 335000;
    v.vision = traffic_sim::geometry::create_vehicle_vision((335000, v.bounds.y), 0, 20, 10);
    sim.vehicles.push(v);
    sim.intersection_manager.intersection_volume = vec![1, 0, 0, 0];
    sim.handle_vehicle_stops();
    assert_eq!(sim.vehicles[0].speed, 0);
    let mut light = sim.intersection_manager.stop_lights[0];
    light.flip(0);
    sim.intersection_manager.stop_lights[0] = light;
    sim.vehicles[0].speed = 500;
    sim.handle_vehicle_stops();
    assert_eq!(sim.vehicles[0].speed, 500);
}

#[test]
fn vehicles_stop_behind_another_vehicle() {
    let mut sim = Simulation::new();
    let a = Vehicle::with_turn_roll(0, 500, 10, 10, 0, 2);
    let mut b = Vehicle::with_turn_roll(1, 500, 10, 10, 0, 2);
    b.bounds.x = 15000;
    b.vision = traffic_sim::geometry::create_vehicle_vision((15000, b.bounds.y), 0, 20, 10);
    sim.vehicles.push(a);
    sim.vehicles.push(b);
    sim.intersection_manager.intersection_volume = vec![2, 0, 0, 0];
    sim.handle_vehicle_collisions();
    assert_eq!(sim.vehicles[0].speed, 0);
    assert_eq!(sim.vehicles[1].speed, 500);
}

#[test]
fn random_spawn_uses_a_valid_entrance() {
    for _ in 0..200 {
        let mut sim = Simulation::new();
        sim.clock = 1;
        sim.spawn_on_timer(0);
        assert_eq!(sim.release_queue.len(), 1);
        assert!(sim.release_queue[0].entrance < 8);
        assert!(volumes_consistent(&sim));
    }
    let mut sim = Simulation::new();
    for _ in 0..100 {
        sim.update(10000);
    }
    assert_eq!(sim.clock, 1000000);
    assert!(volumes_consistent(&sim));
}

#[test]
fn stop_light_policies() {
    let mut l = StopLight::new(1);
    assert_eq!(l.line.width, 50);
    assert_eq!(l.line.height, 1);
    assert!(!l.active);
    l.request_flip(7);
    assert!(l.active);
    assert_eq!(l.flipped_at, 7);
    l.update(1000000);
    assert!(l.active);

    let mut d = StopLight::new(0);
    d.set_policy(LightPolicy::Delayed { delay: 500 });
    d.request_flip(1000);
    assert!(!d.active && d.queued);
    d.update(1499);
    assert!(!d.active);
    d.update(1500);
    assert!(d.active && !d.queued);
    assert_eq!(d.flipped_at, 1500);
    d.request_flip(2000);
    assert!(!d.active);

    let mut c = StopLight::new(2);
    c.set_policy(LightPolicy::Cycle { off: 300, on: 100 });
    c.update(299);
    assert!(!c.active);
    c.update(300);
    assert!(c.active);
    c.update(399);
    assert!(c.active);
    c.update(400);
    assert!(!c.active);
}

#[test]
fn observation_holds_volumes_lights_and_elapsed_time() {
    let mut m = IntersectionManager::new();
    m.intersection_volume = vec![2, 0, 5, 1];
    m.update_from_action(1, 100);
    m.update_from_action(4, 200);
    assert_eq!(m.get_state(100), vec![2000000, 0, 5000000, 1000000, 0, 1000000, 0, 0, 100]);
    m.update_from_action(0, 300);
    assert_eq!(m.get_state(1300), vec![2000000, 0, 5000000, 1000000, 1000000, 1000000, 0, 0, 1000]);
}

#[test]
fn batch_plan_covers_every_run() {
    let plan = batch_plan(&TrainerConfig { simulation_count: 10, run_duration: 0, batch_size: 4 });
    assert_eq!(plan, vec![4, 4, 2]);
    assert_eq!(plan.iter().sum::<usize>(), 10);
    assert_eq!(batch_plan(&TrainerConfig { simulation_count: 8, run_duration: 0, batch_size: 4 }), vec![4, 4]);
    assert_eq!(batch_plan(&TrainerConfig { simulation_count: 3, run_duration: 0, batch_size: 16 }), vec![3]);
    assert!(batch_plan(&TrainerConfig { simulation_count: 0, run_duration: 0, batch_size: 16 }).is_empty());
}

#[test]
fn headless_runs_count_ticks() {
    let mut sim = Simulation::new();
    let stats = run_headless(&mut sim, 25000, 10000);
    assert_eq!(stats.ticks, 3);
    assert_eq!(sim.clock, 30000);
    let (sim, stats) = run_simulation(1000000);
    assert_eq!(stats.ticks, 100);
    assert_eq!(sim.clock, 1000000);
    assert!(volumes_consistent(&sim));
    assert_eq!(RunStats { volume_sum: 7, ticks: 2 }.average_volume_micro(), 3500000);
    assert_eq!(RunStats { volume_sum: 0, ticks: 0 }.average_volume_micro(), 0);
}

#[test]
fn best_table_has_the_largest_sum() {
    let s = vec![1, 0, 0, 0, 0, 0, 0, 0, 0];
    let mut low = QLearning::new(9, 5);
    low.update(&s, 0, -1000000, &s);
    let mut high = QLearning::new(9, 5);
    high.update(&s, 0, 1000000, &s);
    let zero = QLearning::new(9, 5);
    assert_eq!(select_best(&vec![]), None);
    let tables = vec![low, high, zero];
    assert_eq!(select_best(&tables), Some(1));
    let ties = vec![QLearning::new(9, 5), QLearning::new(9, 5)];
    assert_eq!(select_best(&ties), Some(1));
}

#[test]
fn pixels_are_written_inside_the_frame_only() {
    let mut frame = vec![0u8; 3 * 2 * 4];
    set_pixel(&mut frame, 3, 2, 2, 1, [1, 2, 3, 4]);
    assert_eq!(&frame[20..24], &[1, 2, 3, 4]);
    let before = frame.clone();
    set_pixel(&mut frame, 3, 2, 3, 0, [9, 9, 9, 9]);
    set_pixel(&mut frame, 3, 2, -1, 0, [9, 9, 9, 9]);
    set_pixel(&mut frame, 3, 2, 0, 2, [9, 9, 9, 9]);
    assert_eq!(frame, before);
}

#[test]
fn background_paints_roads_and_lines() {
    let mut frame = vec![0u8; 800 * 800 * 4];
    let copy = load_background_frame(&mut frame);
    assert_eq!(copy, frame);
    let px = |i: usize, j: usize| frame[(j * 800 + i) * 4..(j * 800 + i) * 4 + 4].to_vec();
    assert_eq!(px(0, 0), vec![0x48, 0xb2, 0xe8, 0xff]);
    assert_eq!(px(400, 100), vec![0xff, 0xff, 0x00, 0xff]);
    assert_eq!(px(420, 100), vec![0xa0, 0xa0, 0xa0, 0xff]);
    assert_eq!(px(400, 400), vec![0xa0, 0xa0, 0xa0, 0xff]);
    assert_eq!(px(375, 5), vec![0xff, 0xff, 0x00, 0xff]);
    assert_eq!(px(375, 25), vec![0xa0, 0xa0, 0xa0, 0xff]);
}
